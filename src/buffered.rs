//! The double buffer: draws land in a current plane, and a flush sends the
//! sink only the pixels that differ from the reference plane.
use vstd::prelude::*;

use crate::codec::Codec;
use crate::fb::{diff, frame_error, lemma_diff_idempotent, FbError, PackedFramebuffer};
use crate::geometry::{Pixel, Rectangle, Size};

verus! {

/// A target that takes pixel writes. Implementations must tolerate
/// duplicate pixels and pixels outside their bounds.
pub trait PixelSink {
    type Error;

    /// The target's size; its bounding box has its origin at `(0, 0)`.
    fn size(&self) -> Size;

    /// Writes the pixels, in order.
    fn draw_iter(&mut self, pixels: &[Pixel]) -> Result<(), Self::Error>;
}

/// A target whose writes reach the physical medium only when it is
/// flushed.
pub trait Flushable: PixelSink {
    /// Commits what was written.
    fn flush(&mut self) -> Result<(), Self::Error>;
}

/// The number of bytes that one plane for a `display_size` display needs.
pub fn buffer_size(codec: Codec, display_size: Size) -> (r: usize)
    requires
        codec.wf(),
        display_size.width * display_size.height <= usize::MAX,
    ensures
        r == (display_size.width * display_size.height) / (crate::codec::per_byte(
            codec.depth(),
        ) as int),
{
    PackedFramebuffer::buffer_size(codec, display_size)
}

/// A double buffer in front of a sink `T`.
pub struct Buffered<T> {
    current: PackedFramebuffer,
    reference: PackedFramebuffer,
    target: T,
}

impl<T: Flushable> Buffered<T> {
    /// The plane that draws land in.
    pub closed spec fn current_spec(&self) -> PackedFramebuffer {
        self.current
    }

    /// The plane that mirrors what was last sent to the sink.
    pub closed spec fn reference_spec(&self) -> PackedFramebuffer {
        self.reference
    }

    /// The sink.
    pub closed spec fn target_spec(&self) -> T {
        self.target
    }

    pub open spec fn wf(&self) -> bool {
        &&& self.current_spec().wf()
        &&& self.reference_spec().wf()
        &&& self.current_spec().same_shape(&self.reference_spec())
    }

    /// A double buffer over `display`, with planes held in `draw_buf` and
    /// `reference_buf`, each `buffer_size` bytes for the display's size.
    /// The reference plane starts as whatever `reference_buf` holds.
    pub fn new(draw_buf: Vec<u8>, reference_buf: Vec<u8>, display: T, codec: Codec) -> (r: Result<
        Self,
        FbError,
    >)
        requires
            codec.wf(),
        ensures
            r matches Ok(b) ==> b.wf() && b.current_spec().bytes() == draw_buf@
                && b.reference_spec().bytes() == reference_buf@ && b.target_spec() == display
                && b.current_spec().codec_spec() == codec,
    {
        let size = display.size();
        Self::with_size(draw_buf, reference_buf, display, size, codec)
    }

    /// A double buffer over `display` whose size is `size`.
    pub fn with_size(
        draw_buf: Vec<u8>,
        reference_buf: Vec<u8>,
        display: T,
        size: Size,
        codec: Codec,
    ) -> (r: Result<Self, FbError>)
        requires
            codec.wf(),
        ensures
            match (
                frame_error(draw_buf@.len(), size.width as int, size.height as int, codec),
                frame_error(reference_buf@.len(), size.width as int, size.height as int, codec),
            ) {
                (Some(e), _) => r == Err::<Self, FbError>(e),
                (None, Some(e)) => r == Err::<Self, FbError>(e),
                (None, None) => r matches Ok(b) && b.wf() && b.current_spec().bytes() == draw_buf@
                    && b.reference_spec().bytes() == reference_buf@ && b.target_spec() == display
                    && b.current_spec().w() == size.width && b.current_spec().h() == size.height
                    && b.current_spec().codec_spec() == codec,
            },
    {
        let current = match PackedFramebuffer::new(draw_buf, size.width as usize, size.height as usize, codec) {
            Ok(f) => f,
            Err(e) => return Err(e),
        };
        let reference = match PackedFramebuffer::new(reference_buf, size.width as usize, size.height as usize, codec) {
            Ok(f) => f,
            Err(e) => return Err(e),
        };
        Ok(Buffered { current, reference, target: display })
    }
}

impl<T: Flushable> Buffered<T> {
    /// The plane that draws land in.
    pub fn current(&self) -> (r: &PackedFramebuffer)
        ensures
            *r == self.current_spec(),
    {
        &self.current
    }

    /// The plane that mirrors what was last sent to the sink.
    pub fn reference(&self) -> (r: &PackedFramebuffer)
        ensures
            *r == self.reference_spec(),
    {
        &self.reference
    }

    /// The sink.
    pub fn target(&self) -> (r: &T)
        ensures
            *r == self.target_spec(),
    {
        &self.target
    }

    /// The size of both planes.
    pub fn size(&self) -> (r: Size)
        requires
            self.wf(),
        ensures
            r.width == self.current_spec().w(),
            r.height == self.current_spec().h(),
    {
        self.current.size()
    }

    /// Draws pixels into the current plane.
    pub fn draw_iter(&mut self, pixels: &[Pixel])
        requires
            old(self).wf(),
            forall|i: int|
                0 <= i < pixels@.len() ==> old(self).current_spec().codec_spec().fits(
                    #[trigger] pixels@[i].1,
                ),
        ensures
            final(self).wf(),
            final(self).current_spec().is_drawn_from(&old(self).current_spec(), pixels@),
            final(self).reference_spec() == old(self).reference_spec(),
            final(self).target_spec() == old(self).target_spec(),
    {
        self.current.draw_iter(pixels);
    }

    /// Fills the cells of `area` in the current plane with `colors`.
    pub fn fill_contiguous(&mut self, area: &Rectangle, colors: &[u8])
        requires
            old(self).wf(),
            forall|i: int|
                0 <= i < colors@.len() ==> old(self).current_spec().codec_spec().fits(
                    #[trigger] colors@[i],
                ),
        ensures
            final(self).wf(),
            final(self).current_spec().is_filled_contiguous_from(
                &old(self).current_spec(),
                *area,
                colors@,
            ),
            final(self).reference_spec() == old(self).reference_spec(),
            final(self).target_spec() == old(self).target_spec(),
    {
        self.current.fill_contiguous(area, colors);
    }

    /// Fills the cells of `area` in the current plane with `color`.
    pub fn fill_solid(&mut self, area: &Rectangle, color: u8)
        requires
            old(self).wf(),
            old(self).current_spec().codec_spec().fits(color),
        ensures
            final(self).wf(),
            final(self).current_spec().is_filled_from(&old(self).current_spec(), *area, color),
            final(self).reference_spec() == old(self).reference_spec(),
            final(self).target_spec() == old(self).target_spec(),
    {
        self.current.fill_solid(area, color);
    }

    /// Sets every pixel of the current plane to `color`.
    pub fn clear(&mut self, color: u8)
        requires
            old(self).wf(),
            old(self).current_spec().codec_spec().fits(color),
        ensures
            final(self).wf(),
            final(self).current_spec().is_cleared_from(&old(self).current_spec(), color),
            final(self).reference_spec() == old(self).reference_spec(),
            final(self).target_spec() == old(self).target_spec(),
    {
        self.current.clear(color);
    }

    /// Brings the reference plane up to the current one and returns the
    /// pixels that changed, in row-major order. The sink is not touched.
    pub fn changes(&mut self) -> (r: Vec<Pixel>)
        requires
            old(self).wf(),
        ensures
            final(self).wf(),
            final(self).current_spec() == old(self).current_spec(),
            final(self).target_spec() == old(self).target_spec(),
            final(self).reference_spec().same_shape(&old(self).reference_spec()),
            forall|a: int, b: int|
                final(self).current_spec().in_bounds(a, b) ==> #[trigger] final(self).reference_spec().pixel(a, b) == final(self).current_spec().pixel(a, b),
            r@ == diff(old(self).reference_spec(), old(self).current_spec()),
    {
        self.reference.apply(&self.current)
    }

    /// Sends the sink every pixel that changed since the last flush, in one
    /// write, then commits it, and returns how many pixels changed. The
    /// reference plane is brought up to date before the sink is written, so
    /// after a failed write or commit it is ahead of the sink.
    pub fn flush(&mut self) -> (r: Result<usize, T::Error>)
        requires
            old(self).wf(),
        ensures
            final(self).wf(),
            final(self).current_spec() == old(self).current_spec(),
            final(self).reference_spec().same_shape(&old(self).reference_spec()),
            forall|a: int, b: int|
                final(self).current_spec().in_bounds(a, b) ==> #[trigger] final(self).reference_spec().pixel(a, b) == final(self).current_spec().pixel(a, b),
            r matches Ok(n) ==> n == diff(old(self).reference_spec(), old(self).current_spec()).len(),
    {
        let pixels = self.changes();
        let n = pixels.len();
        match self.target.draw_iter(pixels.as_slice()) {
            Ok(()) => {},
            Err(e) => return Err(e),
        }
        match self.target.flush() {
            Ok(()) => Ok(n),
            Err(e) => Err(e),
        }
    }

    /// Marks every pixel as changed: the reference plane is set to the
    /// complement of the current one, so the next flush resends everything.
    pub fn invalidate(&mut self)
        requires
            old(self).wf(),
        ensures
            final(self).wf(),
            final(self).current_spec() == old(self).current_spec(),
            final(self).target_spec() == old(self).target_spec(),
            final(self).reference_spec().same_shape(&old(self).reference_spec()),
            forall|a: int, b: int|
                final(self).current_spec().in_bounds(a, b) ==> #[trigger] final(self).reference_spec().pixel(a, b) != final(self).current_spec().pixel(a, b),
    {
        self.reference.invert_from(&self.current);
    }
}

/// After a flush, a second flush with no draw in between finds no change:
/// it reports zero pixels and sends an empty list.
pub proof fn lemma_flush_idempotent<T: Flushable>(b: Buffered<T>)
    requires
        b.wf(),
        forall|x: int, y: int|
            b.current_spec().in_bounds(x, y) ==> #[trigger] b.reference_spec().pixel(x, y)
                == b.current_spec().pixel(x, y),
    ensures
        diff(b.reference_spec(), b.current_spec()).len() == 0,
{
    lemma_diff_idempotent(b.reference_spec(), b.current_spec());
}

} // verus!
