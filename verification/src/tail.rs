//! Finding where the last `n` lines of a log begin, by scanning it backwards
//! in fixed-size chunks so that a large log is never held in memory.

use vstd::prelude::*;
use vstd::slice::slice_subrange;

verus! {

/// The number of bytes read per step of the backward scan.
pub const CHUNK_SIZE: u64 = 8192;

/// The byte that ends a line.
pub const NEWLINE: u8 = 10;

/// How many newline bytes `data` holds at the indices `lo..hi`.
pub open spec fn newlines_between(data: Seq<u8>, lo: int, hi: int) -> nat
    decreases hi - lo,
{
    if lo >= hi {
        0
    } else {
        newlines_between(data, lo + 1, hi) + if data[lo] == NEWLINE {
            1nat
        } else {
            0nat
        }
    }
}

/// A line begins at `o`: at the start of the data, or right after a newline
/// that is not the last byte.
pub open spec fn is_line_start(data: Seq<u8>, o: int) -> bool {
    &&& 0 <= o < data.len()
    &&& o == 0 || data[o - 1] == NEWLINE
}

/// How many lines lie between offset `o` and the end. A newline that is the
/// very last byte ends the last line and starts no further, empty one.
pub open spec fn lines_from(data: Seq<u8>, o: int) -> nat {
    if o >= data.len() {
        0
    } else {
        newlines_between(data, o, data.len() - 1) + 1
    }
}

/// How many lines `data` holds.
pub open spec fn line_count(data: Seq<u8>) -> nat {
    lines_from(data, 0)
}

/// `o` is the offset from which the last `n` lines of `data` run: nothing to
/// show puts it at the end; otherwise it is a line start with at most `n`
/// lines after it, and exactly `n` unless it is the start of the data.
pub open spec fn is_tail_start(data: Seq<u8>, n: nat, o: int) -> bool {
    if n == 0 || data.len() == 0 {
        o == data.len()
    } else {
        &&& is_line_start(data, o)
        &&& lines_from(data, o) <= n
        &&& o > 0 ==> lines_from(data, o) == n
    }
}

/// Moving the lower bound down over a newline adds one to the count.
pub proof fn lemma_newlines_grow(data: Seq<u8>, a: int, b: int, hi: int)
    requires
        0 <= a <= b <= hi <= data.len(),
    ensures
        newlines_between(data, a, hi) >= newlines_between(data, b, hi),
        a < b && data[b - 1] == NEWLINE ==> newlines_between(data, a, hi) > newlines_between(
            data,
            b,
            hi,
        ),
    decreases b - a,
{
    if a < b {
        lemma_newlines_grow(data, a + 1, b, hi);
    }
}

/// Counting in a suffix is counting in the whole, shifted.
pub proof fn lemma_newlines_skip(data: Seq<u8>, o: int, lo: int, hi: int)
    requires
        0 <= o <= data.len(),
        0 <= lo,
        hi <= data.len() - o,
    ensures
        newlines_between(data.skip(o), lo, hi) == newlines_between(data, o + lo, o + hi),
    decreases hi - lo,
{
    if lo < hi {
        lemma_newlines_skip(data, o, lo + 1, hi);
    }
}

/// The lines after `o` are the lines of the data with its first `o` bytes cut off.
pub proof fn lemma_lines_from_skip(data: Seq<u8>, o: int)
    requires
        0 <= o <= data.len(),
    ensures
        line_count(data.skip(o)) == lines_from(data, o),
{
    if o < data.len() {
        lemma_newlines_skip(data, o, 0, data.len() - o - 1);
    }
}

/// The tail start is unique: the relation names one offset.
pub proof fn lemma_tail_start_unique(data: Seq<u8>, n: nat, o1: int, o2: int)
    requires
        is_tail_start(data, n, o1),
        is_tail_start(data, n, o2),
    ensures
        o1 == o2,
{
    if n != 0 && data.len() != 0 {
        if o1 < o2 {
            lemma_newlines_grow(data, o1, o2, data.len() - 1);
        } else if o2 < o1 {
            lemma_newlines_grow(data, o2, o1, data.len() - 1);
        }
    }
}

/// Asking for at least as many lines as there are shows the data from its start.
pub proof fn lemma_tail_of_short_data(data: Seq<u8>, n: nat, o: int)
    requires
        is_tail_start(data, n, o),
        n > 0,
        line_count(data) <= n,
    ensures
        o == 0,
{
    if data.len() != 0 && o > 0 {
        lemma_newlines_grow(data, 0, o, data.len() - 1);
    }
}

/// What follows the tail start holds `n` lines, or all of them where the data
/// has fewer.
pub proof fn lemma_tail_line_count(data: Seq<u8>, n: nat, o: int)
    requires
        is_tail_start(data, n, o),
    ensures
        0 <= o <= data.len(),
        line_count(data.skip(o)) == if line_count(data) <= n {
            line_count(data)
        } else {
            n
        },
{
    if n == 0 || data.len() == 0 {
        lemma_lines_from_skip(data, o);
    } else {
        lemma_lines_from_skip(data, o);
        if o > 0 {
            lemma_newlines_grow(data, 0, o, data.len() - 1);
        }
    }
}

/// A newline at the very end of the data does not count as one more, empty line.
pub proof fn lemma_final_newline_adds_no_line(data: Seq<u8>)
    requires
        data.len() > 0,
        data.last() != NEWLINE,
    ensures
        line_count(data.push(NEWLINE)) == line_count(data),
{
    lemma_newlines_push(data, 0);
}

/// Appending a byte leaves the count below the old end as it was, and adds the
/// old last byte to what is counted as interior.
proof fn lemma_newlines_push(data: Seq<u8>, lo: int)
    requires
        data.len() > 0,
        0 <= lo <= data.len() - 1,
        data.last() != NEWLINE,
    ensures
        newlines_between(data.push(NEWLINE), lo, data.len() as int) == newlines_between(
            data,
            lo,
            data.len() - 1,
        ),
    decreases data.len() - lo,
{
    let longer = data.push(NEWLINE);
    if lo < data.len() - 1 {
        lemma_newlines_push(data, lo + 1);
        assert(longer[lo] == data[lo]);
    } else {
        assert(longer[lo] == data.last());
        assert(newlines_between(longer, lo + 1, data.len() as int) == 0);
    }
}

/// A backward scan for the start of the last `n` lines of a file of `len`
/// bytes. The caller reads each chunk the scan asks for and feeds it back.
pub struct TailScan {
    len: u64,
    n: usize,
    pos: u64,
    starts: Vec<u64>,
}

impl TailScan {
    /// The length of the file under scan.
    pub closed spec fn file_len(&self) -> nat {
        self.len as nat
    }

    /// The number of lines asked for.
    pub closed spec fn wanted(&self) -> nat {
        self.n as nat
    }

    /// The offset down to which the file has been read.
    pub closed spec fn position(&self) -> nat {
        self.pos as nat
    }

    /// The scan needs no further chunk.
    pub closed spec fn finished(&self) -> bool {
        self.n == 0 || self.pos == 0 || self.starts.len() > self.n
    }

    /// The scan's state is what a scan of `data` down to `position()` yields:
    /// the line starts found so far, last line first, each with the number
    /// of lines that follow it.
    pub closed spec fn tracks(&self, data: Seq<u8>) -> bool {
        &&& self.len == data.len()
        &&& self.pos <= self.len
        &&& self.starts.len() <= self.n + 1
        &&& forall|i: int|
            0 <= i < self.starts.len() ==> {
                &&& 0 < #[trigger] self.starts[i] < self.len
                &&& data[self.starts[i] - 1] == NEWLINE
                &&& newlines_between(data, self.starts[i] as int, self.len - 1) == i
            }
        &&& self.starts.len() <= self.n ==> newlines_between(data, self.pos as int, self.len - 1)
            == self.starts.len()
    }

    /// A scan that has read nothing yet.
    pub fn new(len: u64, n: usize) -> (scan: TailScan)
        ensures
            scan.file_len() == len,
            scan.wanted() == n,
            scan.position() == len,
            forall|data: Seq<u8>| data.len() == len ==> #[trigger] scan.tracks(data),
    {
        TailScan { len, n, pos: len, starts: Vec::new() }
    }

    /// Whether the scan has all it needs: no line is wanted, the start of the
    /// file is reached, or one more line start than wanted is known.
    pub fn is_done(&self) -> (done: bool)
        ensures
            done == self.finished(),
            self.wanted() == 0 || self.position() == 0 ==> done,
    {
        self.n == 0 || self.pos == 0 || self.starts.len() > self.n
    }

    /// The next chunk to read: its offset in the file and its size, which
    /// ends where the last chunk began.
    pub fn next_chunk(&self) -> (chunk: (u64, usize))
        ensures
            chunk.0 + chunk.1 == self.position(),
            chunk.1 == if self.position() < CHUNK_SIZE {
                self.position()
            } else {
                CHUNK_SIZE as nat
            },
    {
        let start: u64 = if self.pos < CHUNK_SIZE {
            0
        } else {
            self.pos - CHUNK_SIZE
        };
        (start, (self.pos - start) as usize)
    }

    /// Takes the chunk that `next_chunk` asked for and scans it from its end
    /// for newlines, until the chunk is used up or enough line starts are
    /// known. A chunk longer than what is left to read cannot come from the
    /// file: it is refused, and the scan stays as it is.
    pub fn feed(&mut self, chunk: &[u8]) -> (taken: bool)
        ensures
            taken == (chunk@.len() <= old(self).position()),
            !taken ==> *final(self) == *old(self),
            final(self).file_len() == old(self).file_len(),
            final(self).wanted() == old(self).wanted(),
            taken ==> final(self).position() == old(self).position() - chunk@.len(),
            forall|data: Seq<u8>|
                #![trigger old(self).tracks(data)]
                #![trigger final(self).tracks(data)]
                taken && old(self).tracks(data) && data.subrange(
                    old(self).position() - chunk@.len(),
                    old(self).position() as int,
                ) == chunk@ ==> final(self).tracks(data),
    {
        if chunk.len() as u64 > self.pos {
            return false;
        }
        let start: u64 = self.pos - chunk.len() as u64;
        let mut i: usize = chunk.len();
        while i > 0 && self.starts.len() <= self.n
            invariant
                i <= chunk.len(),
                self.len == old(self).len,
                self.n == old(self).n,
                self.pos == old(self).pos,
                start + chunk.len() == self.pos,
                forall|data: Seq<u8>|
                    #![trigger old(self).tracks(data)]
                    old(self).tracks(data) && data.subrange(start as int, self.pos as int)
                        == chunk@ ==> self.tracks_down_to(data, start + i),
            decreases i,
        {
            i -= 1;
            let at: u64 = start + i as u64;
            let byte: u8 = chunk[i];
            let ghost before = *self;
            if byte == NEWLINE && at + 1 < self.len {
                self.starts.push(at + 1);
            }
            proof {
                assert forall|data: Seq<u8>|
                    #![trigger old(self).tracks(data)]
                    old(self).tracks(data) && data.subrange(start as int, self.pos as int)
                        == chunk@ implies self.tracks_down_to(data, at as int) by {
                    assert(before.tracks_down_to(data, at + 1));
                    assert(data[at as int] == data.subrange(start as int, self.pos as int)[i as int]);
                    assert forall|k: int| 0 <= k < self.starts.len() implies {
                        &&& 0 < #[trigger] self.starts[k] < self.len
                        &&& data[self.starts[k] - 1] == NEWLINE
                        &&& newlines_between(data, self.starts[k] as int, self.len - 1) == k
                    } by {
                        if k < before.starts.len() {
                            assert(self.starts[k] == before.starts[k]);
                        }
                    }
                }
            }
        }
        self.pos = start;
        proof {
            assert forall|data: Seq<u8>|
                #![trigger old(self).tracks(data)]
                #![trigger self.tracks(data)]
                old(self).tracks(data) && data.subrange(
                    old(self).position() - chunk@.len(),
                    old(self).position() as int,
                ) == chunk@ implies self.tracks(data) by {
                let ghost mid = TailScan { pos: old(self).pos, ..*self };
                assert(mid.tracks_down_to(data, start + i));
                if self.starts.len() <= self.n {
                    assert(i == 0);
                }
            }
        }
        true
    }

    /// `tracks`, with the scan taken to have read down to `low` rather than
    /// to `position()`: the state in the middle of a chunk.
    closed spec fn tracks_down_to(&self, data: Seq<u8>, low: int) -> bool {
        &&& self.len == data.len()
        &&& 0 <= low <= self.len
        &&& self.pos <= self.len
        &&& self.starts.len() <= self.n + 1
        &&& forall|i: int|
            0 <= i < self.starts.len() ==> {
                &&& 0 < #[trigger] self.starts[i] < self.len
                &&& data[self.starts[i] - 1] == NEWLINE
                &&& newlines_between(data, self.starts[i] as int, self.len - 1) == i
            }
        &&& self.starts.len() <= self.n ==> newlines_between(data, low, self.len - 1)
            == self.starts.len()
    }

    /// The offset at which the last `wanted()` lines begin, once the scan
    /// is done; `None` while it still needs a chunk.
    pub fn start_offset(&self) -> (r: Option<u64>)
        ensures
            r is Some == self.finished(),
            r matches Some(o) ==> forall|data: Seq<u8>| #[trigger]
                self.tracks(data) ==> is_tail_start(data, self.wanted(), o as int),
    {
        if !self.is_done() {
            None
        } else if self.n == 0 || self.len == 0 {
            Some(self.len)
        } else if self.starts.len() >= self.n {
            let o: u64 = self.starts[self.n - 1];
            proof {
                assert forall|data: Seq<u8>| #[trigger] self.tracks(data) implies is_tail_start(
                    data,
                    self.wanted(),
                    o as int,
                ) by {
                    assert(self.starts[self.n - 1] == o);
                }
            }
            Some(o)
        } else {
            Some(0)
        }
    }
}

/// The offset in `data` at which its last `n` lines begin, found by the
/// chunked backward scan.
pub fn tail_offset(data: &[u8], n: usize) -> (o: usize)
    ensures
        is_tail_start(data@, n as nat, o as int),
{
    let total: usize = data.len();
    let mut scan = TailScan::new(total as u64, n);
    assert(scan.tracks(data@));
    while !scan.is_done()
        invariant
            scan.tracks(data@),
            scan.file_len() == data@.len(),
            data@.len() == total,
            scan.wanted() == n,
            scan.position() <= data@.len(),
        decreases scan.position(),
    {
        let (start, size) = scan.next_chunk();
        let ghost before = scan;
        let from: usize = start as usize;
        let chunk = slice_subrange(data, from, from + size);
        let _ = scan.feed(chunk);
        assert(before.tracks(data@));
    }
    assert(scan.tracks(data@));
    match scan.start_offset() {
        Some(o) => o as usize,
        None => 0,
    }
}

} // verus!
