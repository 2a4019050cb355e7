//! The pager through which long output is shown, as the `PAGER` variable
//! names it.

use crate::number::{is_space, is_whitespace};
use crate::text::{chars_eq, chars_of, string_of, texts};
use vstd::prelude::*;

verus! {

/// The words of a text: its longest runs of characters that are no white space.
pub open spec fn words(s: Seq<char>) -> Seq<Seq<char>>
    decreases s.len(),
{
    if s.len() == 0 {
        Seq::empty()
    } else {
        let before = words(s.drop_last());
        if is_space(s.last()) {
            before
        } else if s.len() >= 2 && !is_space(s[s.len() - 2]) {
            before.drop_last().push(before.last().push(s.last()))
        } else {
            before.push(seq![s.last()])
        }
    }
}

/// The command and the arguments that a pager setting stands for: its
/// first word and the rest, and `less` where it has no word. `less` is
/// always given `-R`, so that it shows colours.
pub open spec fn pager_words(setting: Option<Seq<char>>) -> Seq<Seq<char>> {
    let given = match setting {
        Some(s) => words(s),
        None => Seq::empty(),
    };
    let all = if given.len() == 0 {
        seq!["less"@]
    } else {
        given
    };
    if all[0] == "less"@ && !all.skip(1).contains("-R"@) {
        all.push("-R"@)
    } else {
        all
    }
}

/// The words of a text.
pub fn split_words(s: &[char]) -> (r: Vec<Vec<char>>)
    ensures
        r@.map_values(|w: Vec<char>| w@) == words(s@),
{
    let mut found: Vec<Vec<char>> = Vec::new();
    let mut current: Vec<char> = Vec::new();
    let mut i: usize = 0;
    assert(s@.take(0) =~= Seq::<char>::empty());
    assert(found@.map_values(|w: Vec<char>| w@) =~= words(s@.take(0)));
    while i < s.len()
        invariant
            i <= s.len(),
            // `current` is the word under way, which `found` does not hold yet.
            if current@.len() == 0 {
                &&& found@.map_values(|w: Vec<char>| w@) == words(s@.take(i as int))
                &&& i > 0 ==> is_space(s@[i - 1])
            } else {
                &&& i > 0 && !is_space(s@[i - 1])
                &&& found@.map_values(|w: Vec<char>| w@).push(current@) == words(s@.take(i as int))
            },
        decreases s.len() - i,
    {
        let c: char = s[i];
        let ghost done = found@.map_values(|w: Vec<char>| w@);
        proof {
            assert(s@.take(i + 1).drop_last() == s@.take(i as int));
            assert(s@.take(i + 1).last() == c);
            if i > 0 {
                assert(s@.take(i + 1)[i - 1] == s@[i - 1]);
            }
        }
        if is_whitespace(c) {
            if current.len() > 0 {
                let mut word: Vec<char> = Vec::new();
                std::mem::swap(&mut word, &mut current);
                found.push(word);
                assert(found@.map_values(|w: Vec<char>| w@) =~= done.push(word@));
            }
        } else {
            let ghost before = current@;
            current.push(c);
            proof {
                if before.len() == 0 {
                    assert(current@ =~= seq![c]);
                    assert(done.push(current@) =~= words(s@.take(i as int)).push(seq![c]));
                } else {
                    let w = words(s@.take(i as int));
                    assert(w.drop_last() =~= done);
                    assert(w.last() == before);
                }
            }
        }
        i += 1;
    }
    assert(s@.take(s.len() as int) == s@);
    if current.len() > 0 {
        let ghost done = found@.map_values(|w: Vec<char>| w@);
        found.push(current);
        assert(found@.map_values(|w: Vec<char>| w@) =~= done.push(current@));
    }
    found
}

/// The command and the arguments of the pager to run, the command first.
pub fn pager_command(setting: Option<&str>) -> (r: Vec<String>)
    ensures
        texts(r@) == pager_words(
            match setting {
                Some(s) => Some(s@),
                None => None,
            },
        ),
        r@.len() >= 1,
{
    let given: Vec<Vec<char>> = match setting {
        Some(s) => {
            let chars = chars_of(s);
            split_words(chars.as_slice())
        },
        None => Vec::new(),
    };
    let ghost given_words = given@.map_values(|w: Vec<char>| w@);
    let less = chars_of("less");
    let flag = chars_of("-R");
    let mut all: Vec<String> = Vec::new();
    let ghost wanted = if given_words.len() == 0 {
        seq!["less"@]
    } else {
        given_words
    };
    let mut is_less = false;
    let mut has_flag = false;
    if given.len() == 0 {
        all.push("less".to_string());
        is_less = true;
        assert(texts(all@) =~= wanted);
        assert(wanted.skip(1) =~= Seq::<Seq<char>>::empty());
    } else {
        let mut i: usize = 0;
        assert(wanted.take(0) =~= Seq::<Seq<char>>::empty());
        while i < given.len()
            invariant
                i <= given.len(),
                given.len() > 0,
                wanted == given_words,
                given_words == given@.map_values(|w: Vec<char>| w@),
                less@ == "less"@,
                flag@ == "-R"@,
                texts(all@) == wanted.take(i as int),
                i > 0 ==> is_less == (wanted[0] == "less"@),
                has_flag == (exists|k: int| 1 <= k < i && wanted[k] == "-R"@),
            decreases given.len() - i,
        {
            let word = &given[i];
            assert(word@ == wanted[i as int]);
            if i == 0 {
                is_less = chars_eq(word.as_slice(), less.as_slice());
            } else if chars_eq(word.as_slice(), flag.as_slice()) {
                has_flag = true;
            }
            let ghost before = texts(all@);
            all.push(string_of(word.as_slice()));
            assert(texts(all@) =~= before.push(wanted[i as int]));
            assert(wanted.take(i + 1) =~= wanted.take(i as int).push(wanted[i as int]));
            i += 1;
        }
        assert(wanted.take(given.len() as int) =~= wanted);
        proof {
            if has_flag {
                let k = choose|k: int| 1 <= k < wanted.len() && wanted[k] == "-R"@;
                assert(wanted.skip(1)[k - 1] == "-R"@);
            }
            if wanted.skip(1).contains("-R"@) {
                let k = choose|k: int| 0 <= k < wanted.skip(1).len() && wanted.skip(1)[k] == "-R"@;
                assert(wanted[k + 1] == "-R"@);
            }
        }
    }
    if is_less && !has_flag {
        let ghost before = texts(all@);
        all.push("-R".to_string());
        assert(texts(all@) =~= before.push("-R"@));
    }
    all
}

} // verus!
