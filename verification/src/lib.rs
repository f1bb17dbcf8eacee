//! Portable fixed-width vectors: a vector of lanes, a mask of booleans per
//! lane, and the lanewise, horizontal and permuting operations on them, each
//! with a contract over the sequence of lanes that Verus checks.
pub mod bits;
pub mod cast;
pub mod compare;
pub mod element;
pub mod error;
pub mod float;
pub mod float_ops;
pub mod gather;
pub mod int_ops;
pub mod kind_binary32;
pub mod kind_binary64;
pub mod kind_i16;
pub mod kind_i32;
pub mod kind_i64;
pub mod kind_i8;
pub mod kind_isize;
pub mod kind_u16;
pub mod kind_u32;
pub mod kind_u64;
pub mod kind_u8;
pub mod kind_usize;
pub mod lane_count;
pub mod masks;
pub mod ops;
pub mod reduce;
mod sealed;
pub mod select;
pub mod simd;
pub mod swizzle;
pub mod vector;
