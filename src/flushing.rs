//! A pixel sink paired with the callback that commits it, which makes it
//! flushable.
use vstd::prelude::*;

use crate::buffered::{Flushable, PixelSink};
use crate::geometry::{Pixel, Size};

verus! {

/// A callback that commits what was written to a parent sink.
pub trait Flusher<T: PixelSink> {
    fn flush_parent(&mut self, parent: &mut T) -> Result<(), T::Error>;
}

/// The callback that commits nothing and always succeeds.
#[derive(Clone, Copy, Debug, PartialEq, Eq, Structural)]
pub struct NoopFlusher;

impl<T: PixelSink> Flusher<T> for NoopFlusher {
    fn flush_parent(&mut self, parent: &mut T) -> (r: Result<(), T::Error>) {
        Ok(())
    }
}

/// A parent sink and the callback that flushes it.
pub struct Flushing<T, F> {
    parent: T,
    flusher: F,
}

impl<T, F> Flushing<T, F> {
    pub closed spec fn parent_spec(&self) -> T {
        self.parent
    }

    pub closed spec fn flusher_spec(&self) -> F {
        self.flusher
    }

    /// Pairs `parent` with `flusher`.
    pub fn new(parent: T, flusher: F) -> (r: Self)
        ensures
            r.parent_spec() == parent,
            r.flusher_spec() == flusher,
    {
        Flushing { parent, flusher }
    }

    /// The parent sink.
    pub fn parent(&self) -> (r: &T)
        ensures
            *r == self.parent_spec(),
    {
        &self.parent
    }

    /// Gives the parent sink back.
    pub fn into_parent(self) -> (r: T)
        ensures
            r == self.parent_spec(),
    {
        self.parent
    }
}

impl<T: PixelSink> Flushing<T, NoopFlusher> {
    /// Pairs `parent` with the callback that does nothing.
    pub fn noop(parent: T) -> (r: Self)
        ensures
            r.parent_spec() == parent,
            r.flusher_spec() == NoopFlusher,
    {
        Self::new(parent, NoopFlusher)
    }
}

impl<T: PixelSink, F: Flusher<T>> PixelSink for Flushing<T, F> {
    type Error = T::Error;

    fn size(&self) -> Size {
        self.parent.size()
    }

    fn draw_iter(&mut self, pixels: &[Pixel]) -> Result<(), T::Error> {
        self.parent.draw_iter(pixels)
    }
}

impl<T: PixelSink, F: Flusher<T>> Flushable for Flushing<T, F> {
    fn flush(&mut self) -> Result<(), T::Error> {
        self.flusher.flush_parent(&mut self.parent)
    }
}

} // verus!
