//! Line, word, and byte counting over a byte buffer, organised for parallel
//! scanning: the buffer is split into fixed-size chunks, each chunk is counted
//! in isolation, and the per-chunk results are merged in order with a
//! correction for word runs that straddle a chunk seam.

pub mod aggregate;
pub mod counts;
pub mod partition;
pub mod scanner;
