//! Counting how often a needle value occurs in a sequence of bytes or
//! 16-bit code units, by a scalar scan and by lane-parallel strategies
//! that are proved to agree with it.
pub mod block;
pub mod count_spec;
pub mod lanes;
pub mod narrow;
pub mod pipelined;
pub mod scalar;

pub use count_spec::count_of;
pub use scalar::{naive_1b, naive_2b};
pub use pipelined::{interleaved_pipelined_1b, interleaved_pipelined_2b};
pub use narrow::{count_low_bytes_2b, narrow_low_bytes};
pub use block::{count_block_1b, divide_simd};
