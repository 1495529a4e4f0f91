use parwc::partition::Partition;
use parwc::partition::make_partitions;

#[test]
fn uneven_tail_partition() {
    let parts = make_partitions(10, 3);
    assert_eq!(
        parts,
        vec![
            Partition { offset: 0, len: 3 },
            Partition { offset: 3, len: 3 },
            Partition { offset: 6, len: 3 },
            Partition { offset: 9, len: 1 },
        ]
    );
}

#[test]
fn empty_buffer_has_no_partitions() {
    let parts = make_partitions(0, 1024);
    assert!(parts.is_empty());
}

#[test]
fn oversized_chunk_gives_single_partition() {
    let parts = make_partitions(5, 1024);
    assert_eq!(parts, vec![Partition { offset: 0, len: 5 }]);
}

#[test]
fn exact_multiple_has_no_short_tail() {
    let parts = make_partitions(8, 4);
    assert_eq!(
        parts,
        vec![Partition { offset: 0, len: 4 }, Partition { offset: 4, len: 4 }]
    );
}

#[test]
fn degenerate_one_byte_chunks() {
    let parts = make_partitions(3, 1);
    assert_eq!(parts.len(), 3);
    for (i, p) in parts.iter().enumerate() {
        assert_eq!(p.offset, i);
        assert_eq!(p.len, 1);
    }
}
