//! Packed pixel framebuffers with sub-byte packing, and a double buffer that
//! forwards only the pixels that changed since the last flush.
use vstd::prelude::*;

pub mod buffered;
pub mod codec;
pub mod fb;
pub mod flushing;
pub mod geometry;
pub mod rotated;
pub mod scaled;

pub use buffered::{buffer_size, Buffered, Flushable, PixelSink};
pub use codec::Codec;
pub use fb::{FbError, PackedFramebuffer};
pub use flushing::{Flusher, Flushing, NoopFlusher};
pub use geometry::{Pixel, Point, Rectangle, Size};
pub use rotated::RotateAngle;

verus! {

} // verus!
