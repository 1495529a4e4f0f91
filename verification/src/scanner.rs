//! The chunk scanner: an exact line/word/byte count of one byte range scanned
//! in isolation, together with its boundary flags.

use vstd::prelude::*;

use crate::counts::ChunkResult;
use crate::counts::is_boundary_byte;
use crate::counts::line_count;
use crate::counts::summary_of;
use crate::counts::word_count;
use crate::counts::word_starts_at;

verus! {

/// Scan one chunk in isolation: total, deterministic, and exact, with no
/// assumption about what precedes or follows the chunk. This scalar loop is
/// the width-one instance of the width-parametric group scan; any wider
/// grouping must produce the same `ChunkResult`.
pub fn scan(chunk: &[u8]) -> (r: ChunkResult)
    ensures
        r@ == summary_of(chunk@),
{
    let n: usize = chunk.len();
    let mut lines: usize = 0;
    let mut words: usize = 0;
    let mut in_word: bool = false;
    let mut i: usize = 0;
    while i < n
        invariant
            n == chunk@.len(),
            i <= n,
            lines == line_count(chunk@.take(i as int)),
            words == word_count(chunk@.take(i as int)),
            in_word == (i > 0 && !is_boundary_byte(chunk@[i as int - 1])),
            lines <= i,
            words <= i,
        decreases n - i,
    {
        let b = chunk[i];
        proof {
            let pre = chunk@.take(i as int);
            let post = chunk@.take(i as int + 1);
            assert(post.drop_last() =~= pre);
            assert(post.last() == chunk@[i as int]);
            assert(word_starts_at(post, i as int) == (!is_boundary_byte(b) && !in_word));
        }
        if b == 10 {
            lines = lines + 1;
        }
        if b == 32 || b == 9 || b == 10 {
            in_word = false;
        } else {
            if !in_word {
                words = words + 1;
            }
            in_word = true;
        }
        i = i + 1;
    }
    proof {
        assert(chunk@.take(n as int) =~= chunk@);
    }
    let starts = if n > 0 {
        let b0 = chunk[0];
        !(b0 == 32 || b0 == 9 || b0 == 10)
    } else {
        false
    };
    ChunkResult {
        lines,
        words,
        bytes: n,
        starts_nonspace: starts,
        ends_nonspace: in_word,
    }
}

} // verus!
