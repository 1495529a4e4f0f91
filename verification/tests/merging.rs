use parwc::aggregate::compute_counts_with_chunk_size;
use parwc::counts::ChunkResult;
use parwc::counts::Counts;
use parwc::scanner::scan;

#[test]
fn scan_empty_chunk() {
    let r = scan(b"");
    assert_eq!(
        r,
        ChunkResult {
            lines: 0,
            words: 0,
            bytes: 0,
            starts_nonspace: false,
            ends_nonspace: false,
        }
    );
}

#[test]
fn scan_all_whitespace_chunk() {
    let r = scan(b" \t\n ");
    assert_eq!(
        r,
        ChunkResult {
            lines: 1,
            words: 0,
            bytes: 4,
            starts_nonspace: false,
            ends_nonspace: false,
        }
    );
}

#[test]
fn scan_chunk_without_whitespace() {
    // One open run: reported as one candidate word, both flags set, so a
    // merge can count it back down if it continues a neighbouring word.
    let r = scan(b"abc");
    assert_eq!(
        r,
        ChunkResult {
            lines: 0,
            words: 1,
            bytes: 3,
            starts_nonspace: true,
            ends_nonspace: true,
        }
    );
}

#[test]
fn scan_counts_runs_in_isolation() {
    let r = scan(b" one two\nthree");
    assert_eq!(
        r,
        ChunkResult {
            lines: 1,
            words: 3,
            bytes: 14,
            starts_nonspace: false,
            ends_nonspace: true,
        }
    );
}

#[test]
fn word_split_at_boundary() {
    // b"hello wor" + b"ld foo" must give 3 words, not 4: the run open at the
    // seam is one word, and the merge counts it once.
    let a = scan(b"hello wor");
    let b = scan(b"ld foo");
    assert_eq!(a.words, 2);
    assert_eq!(b.words, 2);
    let merged = a.combine(b);
    assert_eq!(merged.lines, 0);
    assert_eq!(merged.words, 3);
    assert_eq!(merged.bytes, 15);
    let whole = compute_counts_with_chunk_size(b"hello world foo", 9);
    assert_eq!(
        whole,
        Counts {
            lines: 0,
            words: 3,
            bytes: 15,
        }
    );
}

#[test]
fn merge_is_associative_on_three_pieces() {
    let whole: &[u8] = b"lines one\ntwo\nand three words ";
    let (ab, c_piece) = whole.split_at(17);
    let (a_piece, b_piece) = ab.split_at(6);
    let a = scan(a_piece);
    let b = scan(b_piece);
    let c = scan(c_piece);
    let left_first = a.combine(b).combine(c);
    let right_first = a.combine(b.combine(c));
    assert_eq!(left_first, right_first);
    assert_eq!(left_first, scan(whole));
}

#[test]
fn empty_result_is_merge_identity() {
    let r = scan(b"some words\n");
    assert_eq!(ChunkResult::empty().combine(r), r);
    assert_eq!(r.combine(ChunkResult::empty()), r);
}

#[test]
fn byte_count_is_additive_over_any_split() {
    let whole: &[u8] = b"payload with\n some\tstructure";
    let total = scan(whole).bytes;
    for cut in 0..=whole.len() {
        let (a_piece, b_piece) = whole.split_at(cut);
        let a = scan(a_piece);
        let b = scan(b_piece);
        assert_eq!(a.bytes + b.bytes, total);
        assert_eq!(a.combine(b).bytes, total);
    }
}
