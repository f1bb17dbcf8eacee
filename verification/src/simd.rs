//! Everything that callers use, under one path.
pub use crate::cast::SimdCast;
pub use crate::element::{IntElement, IntModel, MaskElement, SimdElement};
pub use crate::error::SimdError;
pub use crate::float::{FloatElement, FloatModel};
pub use crate::kind_binary32::Binary32;
pub use crate::kind_binary64::Binary64;
pub use crate::lane_count::{LaneCount, SupportedLaneCount};
pub use crate::masks::{Mask, MaskEncoding};
pub use crate::swizzle::{Swizzle, Swizzle2, Which};
pub use crate::vector::Simd;
