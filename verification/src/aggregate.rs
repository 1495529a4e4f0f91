//! The aggregator: scan every chunk (concurrently or one by one), then fold
//! the per-chunk results left to right with the boundary-merge correction.

use vstd::prelude::*;

use rayon::iter::IndexedParallelIterator;
use rayon::iter::ParallelIterator;
use rayon::slice::ParallelSlice;

use crate::counts::ChunkResult;
use crate::counts::ChunkSummary;
use crate::counts::Counts;
use crate::counts::combine_summary;
use crate::counts::empty_summary;
use crate::counts::lemma_summary_concat;
use crate::counts::lemma_summary_wf;
use crate::counts::line_count;
use crate::counts::summary_of;
use crate::counts::word_count;
use crate::partition::chunk_of;
use crate::partition::is_chunk_range;
use crate::partition::lemma_chunk_start_in_range;
use crate::partition::lemma_chunks_cover;
use crate::partition::make_partitions;
use crate::partition::prefix_end;
use crate::partition::spec_chunk_count;
use crate::scanner::scan;

verus! {

/// Default chunk size, chosen for cache efficiency: one mebibyte. A tuning
/// parameter only; the result is the same for every positive chunk size.
pub const CHUNK_SIZE: usize = 1048576;

/// Relies on rayon's `par_chunks`, `map`, and `collect`: `par_chunks` yields
/// the slice's contiguous, non-overlapping chunks of `chunk_size` bytes each
/// (only the last may be shorter) in ascending order, and `map`/`collect` on
/// this indexed parallel iterator keep that order, so element `i` of the
/// collected vector is `scan` applied to chunk `i`.
#[verifier::external_body]
fn scan_chunks_parallel(buffer: &[u8], chunk_size: usize) -> (results: Vec<ChunkResult>)
    requires
        chunk_size >= 1,
    ensures
        results@.len() == spec_chunk_count(buffer@.len() as int, chunk_size as int),
        forall|i: int| 0 <= i < results@.len() ==> (#[trigger] results@[i])@ == summary_of(
            chunk_of(buffer@, chunk_size as int, i),
        ),
{
    buffer.par_chunks(chunk_size).map(scan).collect()
}

/// Fold per-chunk results in chunk order into the final counts, subtracting
/// one word wherever a word run continues across a chunk seam.
fn fold_results(
    results: &Vec<ChunkResult>,
    chunk_size: usize,
    total_len: usize,
    buf: Ghost<Seq<u8>>,
) -> (c: Counts)
    requires
        chunk_size >= 1,
        total_len == buf@.len(),
        results@.len() == spec_chunk_count(total_len as int, chunk_size as int),
        forall|i: int| 0 <= i < results@.len() ==> (#[trigger] results@[i])@ == summary_of(
            chunk_of(buf@, chunk_size as int, i),
        ),
    ensures
        c.lines as int == line_count(buf@),
        c.words as int == word_count(buf@),
        c.bytes == total_len,
{
    let mut acc = ChunkResult::empty();
    let mut k: usize = 0;
    proof {
        assert(buf@.take(0) =~= Seq::<u8>::empty());
        assert(summary_of(Seq::<u8>::empty()) == empty_summary());
    }
    while k < results.len()
        invariant
            chunk_size >= 1,
            total_len == buf@.len(),
            results@.len() == spec_chunk_count(total_len as int, chunk_size as int),
            forall|i: int| 0 <= i < results@.len() ==> (#[trigger] results@[i])@ == summary_of(
                chunk_of(buf@, chunk_size as int, i),
            ),
            k <= results@.len(),
            acc@ == summary_of(
                buf@.take(prefix_end(total_len as int, chunk_size as int, k as int)),
            ),
        decreases results@.len() - k,
    {
        let ghost start = prefix_end(total_len as int, chunk_size as int, k as int);
        let ghost stop = prefix_end(total_len as int, chunk_size as int, k as int + 1);
        let r = results[k];
        proof {
            lemma_chunk_start_in_range(total_len as int, chunk_size as int, k as int);
            assert((k + 1) * chunk_size == k * chunk_size + chunk_size) by (nonlinear_arith);
            assert(start == k * chunk_size);
            lemma_summary_wf(buf@.take(start));
            lemma_summary_wf(chunk_of(buf@, chunk_size as int, k as int));
            lemma_summary_concat(buf@.take(start), chunk_of(buf@, chunk_size as int, k as int));
            assert(buf@.take(start) + chunk_of(buf@, chunk_size as int, k as int) =~= buf@.take(
                stop,
            ));
        }
        acc = acc.combine(r);
        k = k + 1;
    }
    proof {
        lemma_chunks_cover(total_len as int, chunk_size as int);
        assert(prefix_end(total_len as int, chunk_size as int, k as int) == total_len);
        assert(buf@.take(total_len as int) =~= buf@);
    }
    acc.into_counts()
}

/// Count lines, words, and bytes of the whole buffer, scanning fixed-size
/// chunks concurrently; deterministic for a given buffer regardless of
/// thread count and chunk size.
pub fn compute_counts_with_chunk_size(buffer: &[u8], chunk_size: usize) -> (c: Counts)
    requires
        chunk_size >= 1,
    ensures
        c.lines as int == line_count(buffer@),
        c.words as int == word_count(buffer@),
        c.bytes as int == buffer@.len() as int,
{
    let n: usize = buffer.len();
    let results = scan_chunks_parallel(buffer, chunk_size);
    fold_results(&results, chunk_size, n, Ghost(buffer@))
}

/// As `compute_counts_with_chunk_size`, but scanning each chunk one after
/// another on the calling thread, through explicitly built partitions.
pub fn compute_counts_sequential(buffer: &[u8], chunk_size: usize) -> (c: Counts)
    requires
        chunk_size >= 1,
    ensures
        c.lines as int == line_count(buffer@),
        c.words as int == word_count(buffer@),
        c.bytes as int == buffer@.len() as int,
{
    let n: usize = buffer.len();
    let parts = make_partitions(n, chunk_size);
    let mut results: Vec<ChunkResult> = Vec::new();
    let mut k: usize = 0;
    while k < parts.len()
        invariant
            chunk_size >= 1,
            n == buffer@.len(),
            parts@.len() == spec_chunk_count(n as int, chunk_size as int),
            forall|i: int| 0 <= i < parts@.len() ==> is_chunk_range(
                #[trigger] parts@[i],
                n as int,
                chunk_size as int,
                i,
            ),
            k <= parts@.len(),
            results@.len() == k,
            forall|i: int| 0 <= i < k ==> (#[trigger] results@[i])@ == summary_of(
                chunk_of(buffer@, chunk_size as int, i),
            ),
        decreases parts@.len() - k,
    {
        let p = parts[k];
        proof {
            lemma_chunk_start_in_range(n as int, chunk_size as int, k as int);
            assert((k + 1) * chunk_size == k * chunk_size + chunk_size) by (nonlinear_arith);
        }
        let piece = vstd::slice::slice_subrange(buffer, p.offset, p.offset + p.len);
        let r = scan(piece);
        results.push(r);
        k = k + 1;
    }
    fold_results(&results, chunk_size, n, Ghost(buffer@))
}

/// Count lines, words, and bytes of the whole buffer with the default chunk
/// size, scanning chunks in parallel.
pub fn compute_counts(buffer: &[u8]) -> (c: Counts)
    ensures
        c.lines as int == line_count(buffer@),
        c.words as int == word_count(buffer@),
        c.bytes as int == buffer@.len() as int,
{
    compute_counts_with_chunk_size(buffer, CHUNK_SIZE)
}

/// The per-chunk summaries of a buffer at a given chunk size, folded in chunk
/// order, first chunk outermost.
pub open spec fn fold_summary(s: Seq<u8>, chunk_size: int) -> ChunkSummary
    decreases s.len(),
{
    if s.len() == 0 || chunk_size < 1 {
        empty_summary()
    } else {
        let m = vstd::math::min(chunk_size, s.len() as int);
        combine_summary(summary_of(s.take(m)), fold_summary(s.skip(m), chunk_size))
    }
}

/// Folding the chunk summaries recovers exactly the summary of the whole
/// buffer, for every positive chunk size.
pub proof fn lemma_fold_summary(s: Seq<u8>, chunk_size: int)
    requires
        chunk_size >= 1,
    ensures
        fold_summary(s, chunk_size) == summary_of(s),
    decreases s.len(),
{
    if s.len() == 0 {
        assert(summary_of(s) == empty_summary());
    } else {
        let m = vstd::math::min(chunk_size, s.len() as int);
        lemma_fold_summary(s.skip(m), chunk_size);
        lemma_summary_concat(s.take(m), s.skip(m));
        assert(s.take(m) + s.skip(m) =~= s);
    }
}

/// Chunk-size invariance: for a fixed buffer, the folded totals are the same
/// at any two positive chunk sizes.
pub proof fn lemma_chunk_size_invariance(s: Seq<u8>, size_a: int, size_b: int)
    requires
        size_a >= 1,
        size_b >= 1,
    ensures
        fold_summary(s, size_a) == fold_summary(s, size_b),
{
    lemma_fold_summary(s, size_a);
    lemma_fold_summary(s, size_b);
}

} // verus!
