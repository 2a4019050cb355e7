//! Cutting a stream of text that arrives in arbitrary pieces into whole lines.

use crate::text::{chars_of, string_of, texts};
use vstd::prelude::*;

verus! {

/// The texts of `lines`, each followed by a newline, one after another.
pub open spec fn join_lines(lines: Seq<Seq<char>>) -> Seq<char>
    decreases lines.len(),
{
    if lines.len() == 0 {
        Seq::empty()
    } else {
        join_lines(lines.drop_last()) + lines.last().push('\n')
    }
}

/// No character of `s` is a newline.
pub open spec fn newline_free(s: Seq<char>) -> bool {
    forall|i: int| 0 <= i < s.len() ==> s[i] != '\n'
}

/// What `String::from_utf8_lossy` makes of a run of bytes.
pub uninterp spec fn lossy_text(bytes: Seq<u8>) -> Seq<char>;

/// Calls `String::from_utf8_lossy`, which decodes UTF-8 and puts U+FFFD in
/// place of each malformed sequence. The decoding is a function of the bytes
/// alone; the contract only gives its result a name.
#[verifier::external_body]
fn decode_lossy(bytes: &[u8]) -> (text: String)
    ensures
        text@ == lossy_text(bytes@),
{
    String::from_utf8_lossy(bytes).into_owned()
}

/// Text received so far that does not yet end in a newline.
pub struct LineBuffer {
    pending: Vec<char>,
}

impl View for LineBuffer {
    type V = Seq<char>;

    /// The unfinished line.
    closed spec fn view(&self) -> Seq<char> {
        self.pending@
    }
}

impl LineBuffer {
    /// The buffer never holds a newline: a line that ends is handed out at once.
    #[verifier::type_invariant]
    closed spec fn inv(self) -> bool {
        newline_free(self.pending@)
    }

    pub fn new() -> (buffer: LineBuffer)
        ensures
            buffer@ == Seq::<char>::empty(),
    {
        LineBuffer { pending: Vec::new() }
    }

    /// Takes the next piece of text and returns the lines it completes, in
    /// order and without their newlines; what follows the last newline stays
    /// in the buffer.
    pub fn push_text(&mut self, piece: &str) -> (lines: Vec<String>)
        ensures
            join_lines(texts(lines@)) + final(self)@ == old(self)@ + piece@,
            newline_free(final(self)@),
            forall|i: int| 0 <= i < lines@.len() ==> newline_free(#[trigger] lines@[i]@),
    {
        let chars = chars_of(piece);
        let mut lines: Vec<String> = Vec::new();
        let mut pending: Vec<char> = Vec::new();
        proof {
            use_type_invariant(&*self);
        }
        std::mem::swap(&mut pending, &mut self.pending);
        let mut i: usize = 0;
        while i < chars.len()
            invariant
                i <= chars.len(),
                chars@ == piece@,
                newline_free(pending@),
                join_lines(texts(lines@)) + pending@ == old(self)@ + chars@.take(i as int),
                forall|k: int| 0 <= k < lines@.len() ==> newline_free(#[trigger] lines@[k]@),
            decreases chars.len() - i,
        {
            let c: char = chars[i];
            let ghost before_lines = lines@;
            let ghost before_pending = pending@;
            assert(chars@.take(i + 1) == chars@.take(i as int).push(c));
            if c == '\n' {
                let line = string_of(pending.as_slice());
                lines.push(line);
                pending.clear();
                proof {
                    assert(texts(lines@).drop_last() == texts(before_lines));
                    assert(texts(lines@).last() == before_pending);
                    assert(join_lines(texts(lines@)) + pending@ == (join_lines(texts(before_lines))
                        + before_pending).push(c));
                }
            } else {
                pending.push(c);
                proof {
                    assert(join_lines(texts(lines@)) + pending@ == (join_lines(texts(before_lines))
                        + before_pending).push(c));
                }
            }
            i += 1;
        }
        assert(chars@.take(chars.len() as int) == chars@);
        self.pending = pending;
        lines
    }

    /// Takes the next piece of the stream as raw bytes, decoded leniently.
    pub fn push_bytes(&mut self, piece: &[u8]) -> (lines: Vec<String>)
        ensures
            join_lines(texts(lines@)) + final(self)@ == old(self)@ + lossy_text(piece@),
            newline_free(final(self)@),
            forall|i: int| 0 <= i < lines@.len() ==> newline_free(#[trigger] lines@[i]@),
    {
        let text = decode_lossy(piece);
        self.push_text(text.as_str())
    }

    /// Hands out the unfinished line at the end of the stream, if there is
    /// one, and leaves the buffer empty.
    pub fn finish(&mut self) -> (rest: Option<String>)
        ensures
            final(self)@ == Seq::<char>::empty(),
            match rest {
                Some(line) => line@ == old(self)@ && old(self)@.len() > 0,
                None => old(self)@.len() == 0,
            },
    {
        if self.pending.len() == 0 {
            None
        } else {
            let line = string_of(self.pending.as_slice());
            self.pending = Vec::new();
            Some(line)
        }
    }
}

} // verus!
