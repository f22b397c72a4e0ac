//! The pixel codec: the bit depth chosen for a color, and the mapping
//! between colors and the bit codes stored in a packed buffer. A color is
//! carried here as its raw storage value, so the codec's work is to fix the
//! depth and to keep every code within it.
use vstd::prelude::*;

verus! {

/// Whether `d` is one of the supported packing depths.
pub open spec fn is_depth(d: nat) -> bool {
    d == 1 || d == 2 || d == 4 || d == 8
}

/// The packing depth for a color whose native width is `bits`: the smallest
/// of 1, 2, 4, 8 that holds it (8 for anything wider than 4).
pub open spec fn depth_for(bits: nat) -> nat {
    if bits > 4 {
        8
    } else if bits > 2 {
        4
    } else if bits > 1 {
        2
    } else {
        1
    }
}

/// The mask of the low `d` bits.
pub open spec fn mask_of(d: nat) -> u8 {
    if d == 1 {
        1
    } else if d == 2 {
        3
    } else if d == 4 {
        15
    } else {
        255
    }
}

/// How many pixels of depth `d` share one byte: `8 / d`.
pub open spec fn per_byte(d: nat) -> nat {
    if d == 1 {
        8
    } else if d == 2 {
        4
    } else if d == 4 {
        2
    } else {
        1
    }
}

/// A codec bound to one color format: its depth, mask and pixels per byte
/// are fixed when it is made.
#[derive(Clone, Copy, Debug, PartialEq, Eq, Structural)]
pub struct Codec {
    depth: u8,
}

impl Codec {
    /// The packing depth in bits.
    pub closed spec fn depth(&self) -> nat {
        self.depth as nat
    }

    pub open spec fn wf(&self) -> bool {
        is_depth(self.depth())
    }

    /// A color code fits the codec when it uses no bit above the depth.
    pub open spec fn fits(&self, code: u8) -> bool {
        code <= mask_of(self.depth())
    }

    /// The codec for a color whose native width is `native_bits` bits.
    pub fn for_native_bits(native_bits: u32) -> (r: Codec)
        ensures
            r.wf(),
            r.depth() == depth_for(native_bits as nat),
    {
        Codec { depth: Self::bits_per_pixel(native_bits) }
    }

    /// The packing depth chosen for a native width of `native_bits` bits.
    pub fn bits_per_pixel(native_bits: u32) -> (r: u8)
        ensures
            r as nat == depth_for(native_bits as nat),
            is_depth(r as nat),
    {
        if native_bits > 4 {
            8
        } else if native_bits > 2 {
            4
        } else if native_bits > 1 {
            2
        } else {
            1
        }
    }

    /// The packing depth in bits.
    pub fn depth_bits(&self) -> (r: u8)
        ensures
            r as nat == self.depth(),
    {
        self.depth
    }

    /// The mask `(1 << depth) - 1`.
    pub fn mask(&self) -> (r: u8)
        requires
            self.wf(),
        ensures
            r == mask_of(self.depth()),
    {
        if self.depth == 1 {
            1
        } else if self.depth == 2 {
            3
        } else if self.depth == 4 {
            15
        } else {
            255
        }
    }

    /// How many pixels share one byte: `8 / depth`.
    pub fn pixels_per_byte(&self) -> (r: usize)
        requires
            self.wf(),
        ensures
            r as nat == per_byte(self.depth()),
            1 <= r <= 8,
    {
        if self.depth == 1 {
            8
        } else if self.depth == 2 {
            4
        } else if self.depth == 4 {
            2
        } else {
            1
        }
    }

    /// The code that `encode` gives for a color.
    pub open spec fn code_of(&self, color: u8) -> u8 {
        color
    }

    /// The color that `decode` gives for a code.
    pub open spec fn color_of(&self, code: u8) -> u8 {
        code
    }

    /// The bit code of a color. A color that uses more than `depth` bits is
    /// a caller error.
    pub fn encode(&self, color: u8) -> (r: u8)
        requires
            self.wf(),
            self.fits(color),
        ensures
            r == self.code_of(color),
            self.fits(r),
    {
        color
    }

    /// The color of a bit code; every code of `depth` bits has one.
    pub fn decode(&self, code: u8) -> (r: u8)
        requires
            self.wf(),
            self.fits(code),
        ensures
            r == self.color_of(code),
            self.fits(r),
    {
        code
    }
}

/// Decoding then encoding gives back every code of every supported depth.
pub proof fn lemma_round_trip(c: Codec, code: u8)
    requires
        c.wf(),
        c.fits(code),
    ensures
        c.fits(c.color_of(code)),
        c.code_of(c.color_of(code)) == code,
{
}

} // verus!
