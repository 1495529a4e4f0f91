use parwc::aggregate::compute_counts;
use parwc::aggregate::compute_counts_sequential;
use parwc::aggregate::compute_counts_with_chunk_size;
use parwc::counts::Counts;

#[test]
fn empty_input() {
    let c = compute_counts(b"");
    assert_eq!(c, Counts { lines: 0, words: 0, bytes: 0 });
}

#[test]
fn all_whitespace_input() {
    let c = compute_counts(b"   \n\n\t ");
    assert_eq!(c, Counts { lines: 2, words: 0, bytes: 7 });
}

#[test]
fn single_line_single_word() {
    let c = compute_counts(b"hello");
    assert_eq!(c, Counts { lines: 0, words: 1, bytes: 5 });
}

#[test]
fn classic_sanity_check() {
    let c = compute_counts(b"the quick brown fox\njumps over\nthe lazy dog\n");
    assert_eq!(c, Counts { lines: 3, words: 9, bytes: 44 });
}

#[test]
fn chunk_size_invariance() {
    let buffer: &[u8] = b"the quick brown fox\njumps over\nthe lazy dog\n";
    let expected = Counts { lines: 3, words: 9, bytes: 44 };
    for &size in &[1usize, 7, 64, 1_048_576, buffer.len()] {
        assert_eq!(compute_counts_with_chunk_size(buffer, size), expected);
        assert_eq!(compute_counts_sequential(buffer, size), expected);
    }
}

#[test]
fn word_straddles_every_seam() {
    // "hello world": a chunk size of 4 splits both words; a naive sum of the
    // per-chunk word counts would report 4 words, not 2.
    let c = compute_counts_with_chunk_size(b"hello world", 4);
    assert_eq!(c, Counts { lines: 0, words: 2, bytes: 11 });
}

#[test]
fn sequential_matches_parallel() {
    let buffer: &[u8] = b"one\ttwo  three\nfour\n\nfive ";
    let par = compute_counts_with_chunk_size(buffer, 3);
    let seq = compute_counts_sequential(buffer, 3);
    assert_eq!(par, seq);
    assert_eq!(par, Counts { lines: 3, words: 5, bytes: 26 });
}

#[test]
fn trailing_word_without_newline() {
    let c = compute_counts(b"alpha beta\ngamma");
    assert_eq!(c, Counts { lines: 1, words: 3, bytes: 16 });
}

#[test]
fn carriage_return_is_not_a_boundary() {
    // Only space, tab, and line feed separate words.
    let c = compute_counts(b"a\rb c\n");
    assert_eq!(c, Counts { lines: 1, words: 2, bytes: 6 });
}
