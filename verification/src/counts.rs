//! The count aggregates and their mathematical model: what a line is, what a
//! word is, and how the results of scanning two adjacent byte ranges merge.

use vstd::prelude::*;

verus! {

/// The three totals produced for a buffer: line, word, and byte counts.
#[derive(Clone, Copy, Debug, PartialEq, Eq, Structural)]
pub struct Counts {
    pub lines: usize,
    pub words: usize,
    pub bytes: usize,
}

/// The result of scanning one chunk in isolation: its counts plus the two
/// boundary flags needed to merge word runs that straddle a chunk seam.
#[derive(Clone, Copy, Debug, PartialEq, Eq, Structural)]
pub struct ChunkResult {
    pub lines: usize,
    pub words: usize,
    pub bytes: usize,
    /// True iff the chunk is non-empty and its first byte is not whitespace.
    pub starts_nonspace: bool,
    /// True iff the chunk is non-empty and its last byte is not whitespace.
    pub ends_nonspace: bool,
}

/// Mathematical image of a `ChunkResult`, with unbounded counters.
pub ghost struct ChunkSummary {
    pub lines: int,
    pub words: int,
    pub bytes: int,
    pub starts_nonspace: bool,
    pub ends_nonspace: bool,
}

/// The boundary characters: space, tab, and line feed.
pub open spec fn is_boundary_byte(b: u8) -> bool {
    b == 32 || b == 9 || b == 10
}

/// Number of line-feed bytes in `s`.
pub open spec fn line_count(s: Seq<u8>) -> int
    decreases s.len(),
{
    if s.len() == 0 {
        0
    } else {
        line_count(s.drop_last()) + if s.last() == 10 { 1int } else { 0int }
    }
}

/// A word starts at position `i` when `s[i]` is not whitespace and either `i`
/// is the first position or the byte before it is whitespace.
pub open spec fn word_starts_at(s: Seq<u8>, i: int) -> bool {
    &&& 0 <= i < s.len()
    &&& !is_boundary_byte(s[i])
    &&& (i == 0 || is_boundary_byte(s[i - 1]))
}

/// Number of maximal non-whitespace runs in `s`, counted by their first byte.
pub open spec fn word_count(s: Seq<u8>) -> int
    decreases s.len(),
{
    if s.len() == 0 {
        0
    } else {
        word_count(s.drop_last()) + if word_starts_at(s, s.len() - 1) { 1int } else { 0int }
    }
}

/// True iff `s` is non-empty and begins with a non-whitespace byte.
pub open spec fn starts_nonspace(s: Seq<u8>) -> bool {
    s.len() > 0 && !is_boundary_byte(s[0])
}

/// True iff `s` is non-empty and ends with a non-whitespace byte.
pub open spec fn ends_nonspace(s: Seq<u8>) -> bool {
    s.len() > 0 && !is_boundary_byte(s.last())
}

/// The summary a scan of `s` in isolation must produce.
pub open spec fn summary_of(s: Seq<u8>) -> ChunkSummary {
    ChunkSummary {
        lines: line_count(s),
        words: word_count(s),
        bytes: s.len() as int,
        starts_nonspace: starts_nonspace(s),
        ends_nonspace: ends_nonspace(s),
    }
}

/// The summary of the empty chunk, the identity of `combine_summary`.
pub open spec fn empty_summary() -> ChunkSummary {
    ChunkSummary { lines: 0, words: 0, bytes: 0, starts_nonspace: false, ends_nonspace: false }
}

/// Order-sensitive merge of the summaries of two adjacent byte ranges, `a`
/// preceding `b`: counts add, except that a word run continuing across the
/// seam was counted by both sides and is counted back down to once.
pub open spec fn combine_summary(a: ChunkSummary, b: ChunkSummary) -> ChunkSummary {
    ChunkSummary {
        lines: a.lines + b.lines,
        words: a.words + b.words - if a.ends_nonspace && b.starts_nonspace { 1int } else { 0int },
        bytes: a.bytes + b.bytes,
        starts_nonspace: if a.bytes > 0 { a.starts_nonspace } else { b.starts_nonspace },
        ends_nonspace: if b.bytes > 0 { b.ends_nonspace } else { a.ends_nonspace },
    }
}

impl ChunkSummary {
    /// What holds of every summary that scanning some byte range can produce.
    pub open spec fn wf(self) -> bool {
        &&& 0 <= self.lines <= self.bytes
        &&& 0 <= self.words <= self.bytes
        &&& (self.starts_nonspace ==> self.words >= 1)
        &&& (self.ends_nonspace ==> self.words >= 1)
        &&& (self.bytes == 0 ==> !self.starts_nonspace && !self.ends_nonspace)
    }
}

impl View for ChunkResult {
    type V = ChunkSummary;

    open spec fn view(&self) -> ChunkSummary {
        ChunkSummary {
            lines: self.lines as int,
            words: self.words as int,
            bytes: self.bytes as int,
            starts_nonspace: self.starts_nonspace,
            ends_nonspace: self.ends_nonspace,
        }
    }
}

impl ChunkResult {
    /// The result of scanning an empty chunk; the identity of `combine`.
    pub fn empty() -> (r: ChunkResult)
        ensures
            r@ == empty_summary(),
    {
        ChunkResult { lines: 0, words: 0, bytes: 0, starts_nonspace: false, ends_nonspace: false }
    }

    /// Merge `self` with the result of scanning the bytes immediately after
    /// `self`'s own bytes.
    pub fn combine(self, other: ChunkResult) -> (r: ChunkResult)
        requires
            self@.wf(),
            other@.wf(),
            self.bytes + other.bytes <= usize::MAX,
        ensures
            r@ == combine_summary(self@, other@),
    {
        let words: usize = if self.ends_nonspace && other.starts_nonspace {
            self.words + other.words - 1
        } else {
            self.words + other.words
        };
        ChunkResult {
            lines: self.lines + other.lines,
            words,
            bytes: self.bytes + other.bytes,
            starts_nonspace: if self.bytes > 0 {
                self.starts_nonspace
            } else {
                other.starts_nonspace
            },
            ends_nonspace: if other.bytes > 0 {
                other.ends_nonspace
            } else {
                self.ends_nonspace
            },
        }
    }

    /// Drop the boundary flags, leaving the plain counts.
    pub fn into_counts(self) -> (c: Counts)
        ensures
            c.lines == self.lines,
            c.words == self.words,
            c.bytes == self.bytes,
    {
        Counts { lines: self.lines, words: self.words, bytes: self.bytes }
    }
}

/// The summary of any byte range is well-formed: its counters are bounded by
/// its length, and a boundary flag can only be set when a word was counted.
pub proof fn lemma_summary_wf(s: Seq<u8>)
    ensures
        summary_of(s).wf(),
    decreases s.len(),
{
    if s.len() > 0 {
        let t = s.drop_last();
        lemma_summary_wf(t);
        if s.len() == 1 {
            assert(t =~= Seq::<u8>::empty());
        } else {
            assert(t[0] == s[0]);
            assert(t.last() == s[s.len() - 2]);
            if ends_nonspace(s) && !word_starts_at(s, s.len() - 1) {
                assert(ends_nonspace(t));
            }
        }
    }
}

/// Line counting is additive over concatenation.
pub proof fn lemma_line_count_concat(a: Seq<u8>, b: Seq<u8>)
    ensures
        line_count(a + b) == line_count(a) + line_count(b),
    decreases b.len(),
{
    if b.len() == 0 {
        assert(a + b =~= a);
    } else {
        lemma_line_count_concat(a, b.drop_last());
        assert((a + b).drop_last() =~= a + b.drop_last());
        assert((a + b).last() == b.last());
        assert(line_count(b) == line_count(b.drop_last()) + if b.last() == 10 { 1int } else { 0int });
    }
}

/// Word counting over a concatenation: the counts add, minus one when a word
/// run is open at the seam on both sides (it is one run, counted twice).
pub proof fn lemma_word_count_concat(a: Seq<u8>, b: Seq<u8>)
    ensures
        word_count(a + b) == word_count(a) + word_count(b) - if ends_nonspace(a)
            && starts_nonspace(b) { 1int } else { 0int },
    decreases b.len(),
{
    if b.len() == 0 {
        assert(a + b =~= a);
    } else if b.len() == 1 {
        assert((a + b).drop_last() =~= a);
        assert((a + b).last() == b[0]);
        assert(a.len() > 0 ==> (a + b)[a.len() - 1] == a.last());
        assert(b.drop_last() =~= Seq::<u8>::empty());
        assert(word_count(b) == word_count(b.drop_last()) + if word_starts_at(b, 0) { 1int } else { 0int });
    } else {
        lemma_word_count_concat(a, b.drop_last());
        assert((a + b).drop_last() =~= a + b.drop_last());
        assert((a + b).last() == b.last());
        assert((a + b)[a.len() + b.len() - 2] == b[b.len() - 2]);
        assert(b.drop_last()[0] == b[0]);
        assert(word_starts_at(a + b, (a + b).len() - 1) == word_starts_at(b, b.len() - 1));
        assert(word_count(b) == word_count(b.drop_last()) + if word_starts_at(b, b.len() - 1) { 1int } else { 0int });
    }
}

/// Scanning two adjacent ranges and merging their summaries yields exactly
/// the summary of the concatenated range.
pub proof fn lemma_summary_concat(a: Seq<u8>, b: Seq<u8>)
    ensures
        summary_of(a + b) == combine_summary(summary_of(a), summary_of(b)),
{
    lemma_line_count_concat(a, b);
    lemma_word_count_concat(a, b);
    if a.len() > 0 {
        assert((a + b)[0] == a[0]);
    } else {
        assert(a + b =~= b);
    }
    if b.len() > 0 {
        assert((a + b).last() == b.last());
    } else {
        assert(a + b =~= a);
    }
}

/// Well-formed summaries merge associatively, so a reduction tree of any
/// shape that keeps the left-to-right operand order yields the same total.
pub proof fn lemma_combine_summary_associative(x: ChunkSummary, y: ChunkSummary, z: ChunkSummary)
    requires
        x.wf(),
        y.wf(),
        z.wf(),
    ensures
        combine_summary(combine_summary(x, y), z) == combine_summary(x, combine_summary(y, z)),
{
}

/// For any split of a buffer into three adjacent pieces, either grouping of
/// the two merges yields the summary of the whole buffer.
pub proof fn lemma_scan_merge_associative(a: Seq<u8>, b: Seq<u8>, c: Seq<u8>)
    ensures
        combine_summary(combine_summary(summary_of(a), summary_of(b)), summary_of(c))
            == summary_of(a + b + c),
        combine_summary(summary_of(a), combine_summary(summary_of(b), summary_of(c)))
            == summary_of(a + b + c),
{
    lemma_summary_concat(a, b);
    lemma_summary_concat(a + b, c);
    lemma_summary_concat(b, c);
    lemma_summary_concat(a, b + c);
    assert(a + (b + c) =~= a + b + c);
}

/// Sum of the lengths of a sequence of pieces.
pub open spec fn piece_lengths_sum(pieces: Seq<Seq<u8>>) -> int
    decreases pieces.len(),
{
    if pieces.len() == 0 {
        0
    } else {
        pieces.first().len() + piece_lengths_sum(pieces.drop_first())
    }
}

/// The byte counter is a pure length accumulator: for any partitioning of a
/// buffer into contiguous pieces, the bytes of the whole equal the sum of the
/// pieces' lengths, whatever the contents.
pub proof fn lemma_byte_additivity(pieces: Seq<Seq<u8>>)
    ensures
        summary_of(pieces.flatten()).bytes == piece_lengths_sum(pieces),
    decreases pieces.len(),
{
    if pieces.len() > 0 {
        lemma_byte_additivity(pieces.drop_first());
    }
}

} // verus!
