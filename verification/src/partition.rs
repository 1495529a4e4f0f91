//! The partitioner: splitting a buffer's length into fixed-size contiguous,
//! non-overlapping byte ranges that cover the whole buffer in order.

use vstd::prelude::*;

verus! {

/// One contiguous byte range of the input buffer: a read-only descriptor,
/// never a copy of the underlying bytes.
#[derive(Clone, Copy, Debug, PartialEq, Eq, Structural)]
pub struct Partition {
    pub offset: usize,
    pub len: usize,
}

/// Number of chunks a buffer of `total_len` bytes yields at `chunk_size`
/// bytes per chunk: none for an empty buffer, otherwise the length divided by
/// the chunk size, rounded up.
pub open spec fn spec_chunk_count(total_len: int, chunk_size: int) -> int
    decreases total_len,
{
    if total_len <= 0 || chunk_size <= 0 {
        0
    } else if total_len <= chunk_size {
        1
    } else {
        1 + spec_chunk_count(total_len - chunk_size, chunk_size)
    }
}

/// Where the first `k` chunks of a `total_len`-byte buffer end: `k` whole
/// chunks in, clipped to the end of the buffer.
pub open spec fn prefix_end(total_len: int, chunk_size: int, k: int) -> int {
    vstd::math::min(k * chunk_size, total_len)
}

/// The bytes of chunk `i` of buffer `s` at the given chunk size.
pub open spec fn chunk_of(s: Seq<u8>, chunk_size: int, i: int) -> Seq<u8> {
    s.subrange(i * chunk_size, prefix_end(s.len() as int, chunk_size, i + 1))
}

/// The range that chunk `i` of a `total_len`-byte buffer must describe.
pub open spec fn is_chunk_range(p: Partition, total_len: int, chunk_size: int, i: int) -> bool {
    &&& p.offset as int == i * chunk_size
    &&& p.len as int == prefix_end(total_len, chunk_size, i + 1) - i * chunk_size
}

/// Every chunk index below the count starts strictly inside the buffer.
pub proof fn lemma_chunk_start_in_range(total_len: int, chunk_size: int, i: int)
    requires
        chunk_size >= 1,
        0 <= i < spec_chunk_count(total_len, chunk_size),
    ensures
        i * chunk_size < total_len,
    decreases i,
{
    if i == 0 {
        assert(total_len > 0);
        assert(i * chunk_size == 0) by (nonlinear_arith)
            requires
                i == 0,
        ;
    } else {
        lemma_chunk_start_in_range(total_len - chunk_size, chunk_size, i - 1);
        assert((i - 1) * chunk_size == i * chunk_size - chunk_size) by (nonlinear_arith);
    }
}

/// The chunks cover the buffer: after the last chunk no byte remains.
pub proof fn lemma_chunks_cover(total_len: int, chunk_size: int)
    requires
        chunk_size >= 1,
        total_len >= 0,
    ensures
        spec_chunk_count(total_len, chunk_size) * chunk_size >= total_len,
    decreases total_len,
{
    if total_len > chunk_size {
        lemma_chunks_cover(total_len - chunk_size, chunk_size);
        let c = spec_chunk_count(total_len - chunk_size, chunk_size);
        assert((1 + c) * chunk_size == chunk_size + c * chunk_size) by (nonlinear_arith);
    }
}

/// Split `total_len` bytes into contiguous, non-overlapping ranges in
/// ascending order: all but the last have exactly `chunk_size` bytes, the
/// last has the remainder, and together they cover the whole buffer.
pub fn make_partitions(total_len: usize, chunk_size: usize) -> (parts: Vec<Partition>)
    requires
        chunk_size >= 1,
    ensures
        parts@.len() == spec_chunk_count(total_len as int, chunk_size as int),
        forall|i: int| 0 <= i < parts@.len() ==> is_chunk_range(
            #[trigger] parts@[i],
            total_len as int,
            chunk_size as int,
            i,
        ),
{
    let mut parts: Vec<Partition> = Vec::new();
    let mut off: usize = 0;
    while off < total_len
        invariant
            chunk_size >= 1,
            off <= total_len,
            off as int == prefix_end(total_len as int, chunk_size as int, parts@.len() as int),
            spec_chunk_count(total_len as int, chunk_size as int) == parts@.len()
                + spec_chunk_count(total_len - off, chunk_size as int),
            forall|i: int| 0 <= i < parts@.len() ==> is_chunk_range(
                #[trigger] parts@[i],
                total_len as int,
                chunk_size as int,
                i,
            ),
        decreases total_len - off,
    {
        let ghost k = parts@.len() as int;
        proof {
            if k * chunk_size > total_len {
                assert(off == total_len);
            }
            assert((k + 1) * chunk_size == k * chunk_size + chunk_size) by (nonlinear_arith);
        }
        let len: usize = if total_len - off >= chunk_size {
            chunk_size
        } else {
            total_len - off
        };
        parts.push(Partition { offset: off, len });
        off = off + len;
    }
    proof {
        assert(spec_chunk_count(total_len - off, chunk_size as int) == 0);
    }
    parts
}

} // verus!
