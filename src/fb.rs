//! The packed framebuffer: a row-major raster over a byte buffer in which
//! each byte holds `8 / depth` consecutive pixels of one row.
use vstd::arithmetic::div_mod::{lemma_fundamental_div_mod, lemma_fundamental_div_mod_converse};
use vstd::prelude::*;

use crate::codec::{is_depth, mask_of, per_byte, Codec};
use crate::geometry::{Pixel, Point, Rectangle, Size};

verus! {

/// Why a framebuffer could not be made over a buffer.
#[derive(Clone, Copy, Debug, PartialEq, Eq, Structural)]
pub enum FbError {
    /// A dimension is larger than a coordinate can address.
    TooLarge,
    /// The width is not a multiple of the pixels per byte.
    UnalignedWidth,
    /// The buffer's length is not the size that the dimensions need.
    BufferSize,
}

/// The largest width or height: every coordinate must fit an `i32`.
pub const MAX_DIM: usize = 0x7fff_ffff;

/// The error, if any, of making a `width` x `height` framebuffer over a
/// buffer of `len` bytes.
pub open spec fn frame_error(len: nat, width: int, height: int, codec: Codec) -> Option<FbError> {
    if width > MAX_DIM || height > MAX_DIM {
        Some(FbError::TooLarge)
    } else if width % (per_byte(codec.depth()) as int) != 0 {
        Some(FbError::UnalignedWidth)
    } else if len != width * height / (per_byte(codec.depth()) as int) {
        Some(FbError::BufferSize)
    } else {
        None
    }
}

/// The field of `mask` bits at `shift` within `b`.
pub open spec fn field(b: u8, shift: u8, mask: u8) -> u8 {
    (b >> shift) & mask
}

/// Whether `shift` is the offset of one pixel's field for the given mask.
pub open spec fn field_at(mask: u8, shift: u8) -> bool {
    (mask == 1 && shift < 8) || (mask == 3 && (shift == 0 || shift == 2 || shift == 4 || shift
        == 6)) || (mask == 15 && (shift == 0 || shift == 4)) || (mask == 255 && shift == 0)
}

/// `b` with the field at `shift` replaced by `code`, the other bits kept.
pub open spec fn with_field(b: u8, shift: u8, mask: u8, code: u8) -> u8 {
    (b & !(mask << shift)) | (code << shift)
}

proof fn lemma_with_field(b: u8, shift: u8, other: u8, mask: u8, code: u8)
    by (bit_vector)
    requires
        field_at(mask, shift),
        field_at(mask, other),
        code <= mask,
    ensures
        field(with_field(b, shift, mask, code), shift, mask) == code,
        shift != other ==> field(with_field(b, shift, mask, code), other, mask) == field(
            b,
            other,
            mask,
        ),
{
}

proof fn lemma_zero_field(shift: u8, mask: u8)
    by (bit_vector)
    requires
        field_at(mask, shift),
    ensures
        field(0, shift, mask) == 0,
{
}

proof fn lemma_field_fits(b: u8, shift: u8, mask: u8)
    by (bit_vector)
    requires
        field_at(mask, shift),
    ensures
        field(b, shift, mask) <= mask,
{
}

/// A byte is fixed by its fields: two bytes that agree on every field of
/// the given width are equal.
proof fn lemma_fields_determine_byte(a: u8, b: u8, mask: u8)
    by (bit_vector)
    requires
        mask == 1 ==> (field(a, 0, 1) == field(b, 0, 1) && field(a, 1, 1) == field(b, 1, 1)
            && field(a, 2, 1) == field(b, 2, 1) && field(a, 3, 1) == field(b, 3, 1) && field(
            a,
            4,
            1,
        ) == field(b, 4, 1) && field(a, 5, 1) == field(b, 5, 1) && field(a, 6, 1) == field(
            b,
            6,
            1,
        ) && field(a, 7, 1) == field(b, 7, 1)),
        mask == 3 ==> (field(a, 0, 3) == field(b, 0, 3) && field(a, 2, 3) == field(b, 2, 3)
            && field(a, 4, 3) == field(b, 4, 3) && field(a, 6, 3) == field(b, 6, 3)),
        mask == 15 ==> (field(a, 0, 15) == field(b, 0, 15) && field(a, 4, 15) == field(
            b,
            4,
            15,
        )),
        mask == 255 ==> field(a, 0, 255) == field(b, 0, 255),
        mask == 1 || mask == 3 || mask == 15 || mask == 255,
    ensures
        a == b,
{
}

/// A raster of `width` x `height` pixels packed into a byte buffer that the
/// framebuffer owns for its lifetime.
pub struct PackedFramebuffer {
    buf: Vec<u8>,
    width: usize,
    height: usize,
    codec: Codec,
}

impl PackedFramebuffer {
    /// The width in pixels.
    pub closed spec fn w(&self) -> nat {
        self.width as nat
    }

    /// The height in pixels.
    pub closed spec fn h(&self) -> nat {
        self.height as nat
    }

    /// The codec that the pixels are packed with.
    pub closed spec fn codec_spec(&self) -> Codec {
        self.codec
    }

    /// The backing bytes.
    pub closed spec fn bytes(&self) -> Seq<u8> {
        self.buf@
    }

    pub open spec fn depth(&self) -> nat {
        self.codec_spec().depth()
    }

    pub open spec fn mask_spec(&self) -> u8 {
        mask_of(self.depth())
    }

    pub open spec fn ppb(&self) -> nat {
        per_byte(self.depth())
    }

    pub open spec fn bpr(&self) -> nat {
        self.w() / self.ppb()
    }

    pub open spec fn wf(&self) -> bool {
        &&& self.codec_spec().wf()
        &&& self.w() <= MAX_DIM
        &&& self.h() <= MAX_DIM
        &&& self.w() % self.ppb() == 0
        &&& self.bytes().len() == self.bpr() * self.h()
        &&& self.bytes().len() <= usize::MAX
    }

    pub open spec fn in_bounds(&self, x: int, y: int) -> bool {
        0 <= x < self.w() && 0 <= y < self.h()
    }

    /// The byte that holds pixel `(x, y)`.
    pub open spec fn byte_index(&self, x: int, y: int) -> int {
        y * self.bpr() + x / (self.ppb() as int)
    }

    /// The offset of pixel column `x` within its byte.
    pub open spec fn shift(&self, x: int) -> u8 {
        (self.depth() * (x % (self.ppb() as int))) as u8
    }

    /// The code stored for pixel `(x, y)`.
    pub open spec fn pixel(&self, x: int, y: int) -> u8 {
        field(self.bytes()[self.byte_index(x, y)], self.shift(x), self.mask_spec())
    }

    pub open spec fn same_shape(&self, other: &PackedFramebuffer) -> bool {
        self.w() == other.w() && self.h() == other.h() && self.codec_spec()
            == other.codec_spec()
    }

    /// The full bounds `(0, 0)`, `width` x `height`.
    pub open spec fn bounds(&self) -> Rectangle {
        Rectangle {
            top_left: Point { x: 0, y: 0 },
            size: Size { width: self.w() as u32, height: self.h() as u32 },
        }
    }

    proof fn lemma_row_split(y1: int, q1: int, y2: int, q2: int, b: int)
        requires
            0 <= y1,
            0 <= y2,
            0 <= q1 < b,
            0 <= q2 < b,
            y1 * b + q1 == y2 * b + q2,
        ensures
            y1 == y2,
            q1 == q2,
    {
        if y1 < y2 {
            assert(y1 * b + b <= y2 * b) by (nonlinear_arith)
                requires
                    y1 < y2,
                    0 < b,
            ;
        } else if y2 < y1 {
            assert(y2 * b + b <= y1 * b) by (nonlinear_arith)
                requires
                    y2 < y1,
                    0 < b,
            ;
        }
    }

    /// Every in-bounds pixel lies in the buffer, at a field offset.
    proof fn lemma_index(&self, x: int, y: int)
        requires
            self.wf(),
            self.in_bounds(x, y),
        ensures
            0 <= x / (self.ppb() as int) < self.bpr(),
            0 <= self.byte_index(x, y) < self.bytes().len(),
            field_at(self.mask_spec(), self.shift(x)),
            self.shift(x) == self.depth() * (x % (self.ppb() as int)),
    {
        let p = self.ppb() as int;
        let b = self.bpr() as int;
        assert(self.w() == b * p) by (nonlinear_arith)
            requires
                self.w() % (p as nat) == 0,
                b == self.w() / (p as nat),
                p > 0,
        ;
        assert(x / p < b) by (nonlinear_arith)
            requires
                0 <= x < b * p,
                p > 0,
        ;
        assert(0 <= x / p) by (nonlinear_arith)
            requires
                0 <= x,
                p > 0,
        ;
        assert(y * b + x / p < b * self.h()) by (nonlinear_arith)
            requires
                0 <= y < self.h(),
                0 <= x / p < b,
        ;
        assert(0 <= y * b) by (nonlinear_arith)
            requires
                0 <= y,
                0 <= b,
        ;
        let r = x % p;
        assert(0 <= r < p);
        if self.depth() == 2 {
            assert(r == 0 || r == 1 || r == 2 || r == 3);
        } else if self.depth() == 4 {
            assert(r == 0 || r == 1);
        }
    }

    /// Distinct in-bounds pixels differ in their byte or in their offset.
    proof fn lemma_distinct(&self, x1: int, y1: int, x2: int, y2: int)
        requires
            self.wf(),
            self.in_bounds(x1, y1),
            self.in_bounds(x2, y2),
            self.byte_index(x1, y1) == self.byte_index(x2, y2),
            self.shift(x1) == self.shift(x2),
        ensures
            x1 == x2,
            y1 == y2,
    {
        self.lemma_index(x1, y1);
        self.lemma_index(x2, y2);
        let p = self.ppb() as int;
        Self::lemma_row_split(y1, x1 / p, y2, x2 / p, self.bpr() as int);
        let d = self.depth() as int;
        let r1 = x1 % p;
        let r2 = x2 % p;
        assert(r1 == r2) by (nonlinear_arith)
            requires
                d * r1 == d * r2,
                d > 0,
        ;
        lemma_fundamental_div_mod(x1, p);
        lemma_fundamental_div_mod(x2, p);
    }
}

impl PackedFramebuffer {
    /// The number of bytes that a `display_size` raster needs:
    /// `width * height / pixels_per_byte`.
    pub fn buffer_size(codec: Codec, display_size: Size) -> (r: usize)
        requires
            codec.wf(),
            display_size.width * display_size.height <= usize::MAX,
        ensures
            r == (display_size.width * display_size.height) / (per_byte(codec.depth()) as int),
    {
        let n = display_size.width as usize * display_size.height as usize;
        n / codec.pixels_per_byte()
    }

    /// Binds a framebuffer of `width` x `height` pixels to `buf`. The buffer
    /// must be exactly `buffer_size` bytes long and the width a multiple of
    /// the pixels per byte.
    pub fn new(buf: Vec<u8>, width: usize, height: usize, codec: Codec) -> (r: Result<
        PackedFramebuffer,
        FbError,
    >)
        requires
            codec.wf(),
        ensures
            match frame_error(buf@.len(), width as int, height as int, codec) {
                Some(e) => r == Err::<PackedFramebuffer, FbError>(e),
                None => r matches Ok(f) && f.wf() && f.w() == width && f.h() == height
                    && f.codec_spec() == codec && f.bytes() == buf@,
            },
    {
        if width > MAX_DIM || height > MAX_DIM {
            return Err(FbError::TooLarge);
        }
        let ppb = codec.pixels_per_byte();
        if width % ppb != 0 {
            return Err(FbError::UnalignedWidth);
        }
        assert(width as int * height as int <= MAX_DIM * MAX_DIM) by (nonlinear_arith)
            requires
                width <= MAX_DIM,
                height <= MAX_DIM,
        ;
        let n = width as u64 * height as u64 / ppb as u64;
        if buf.len() as u64 != n {
            return Err(FbError::BufferSize);
        }
        let r = PackedFramebuffer { buf, width, height, codec };
        proof {
            let p = ppb as int;
            let b = width as int / p;
            assert(width as int == b * p) by (nonlinear_arith)
                requires
                    width as int % p == 0,
                    b == width as int / p,
                    p > 0,
            ;
            assert(b * p * height / p == b * height) by (nonlinear_arith)
                requires
                    p > 0,
                    b >= 0,
                    height >= 0,
            ;
            assert(b * height == height * b) by (nonlinear_arith);
        }
        Ok(r)
    }

    /// Gives the backing buffer back.
    pub fn into_buffer(self) -> (r: Vec<u8>)
        ensures
            r@ == self.bytes(),
    {
        self.buf
    }

    /// The backing bytes.
    pub fn as_bytes(&self) -> (r: &[u8])
        ensures
            r@ == self.bytes(),
    {
        self.buf.as_slice()
    }

    /// The codec that the pixels are packed with.
    pub fn codec(&self) -> (r: Codec)
        ensures
            r == self.codec_spec(),
    {
        self.codec
    }

    /// The width in pixels.
    pub fn width(&self) -> (r: usize)
        ensures
            r == self.w(),
    {
        self.width
    }

    /// The height in pixels.
    pub fn height(&self) -> (r: usize)
        ensures
            r == self.h(),
    {
        self.height
    }

    /// The dimensions as a size.
    pub fn size(&self) -> (r: Size)
        requires
            self.wf(),
        ensures
            r.width == self.w(),
            r.height == self.h(),
    {
        Size { width: self.width as u32, height: self.height as u32 }
    }

    /// The full bounds of the raster.
    pub fn bounding_box(&self) -> (r: Rectangle)
        requires
            self.wf(),
        ensures
            r == self.bounds(),
    {
        Rectangle { top_left: Point { x: 0, y: 0 }, size: self.size() }
    }

    /// The bit code stored for `color`.
    pub fn to_bits(&self, color: u8) -> (r: u8)
        requires
            self.wf(),
            self.codec_spec().fits(color),
        ensures
            r == self.codec_spec().code_of(color),
    {
        self.codec.encode(color)
    }

    /// The color of a stored bit code.
    pub fn from_bits(&self, bits: u8) -> (r: u8)
        requires
            self.wf(),
            self.codec_spec().fits(bits),
        ensures
            r == self.codec_spec().color_of(bits),
    {
        self.codec.decode(bits)
    }

    /// The number of bytes in one row.
    pub fn bytes_per_row(&self) -> (r: usize)
        requires
            self.wf(),
        ensures
            r == self.bpr(),
    {
        self.width / self.codec.pixels_per_byte()
    }

    /// The offset of the first byte of row `y`.
    pub fn y_offset(&self, y: usize) -> (r: usize)
        requires
            self.wf(),
            y <= self.h(),
        ensures
            r == y * self.bpr(),
    {
        let b = self.bytes_per_row();
        proof {
            assert(y * b <= self.h() * b) by (nonlinear_arith)
                requires
                    y <= self.h(),
            ;
            assert(self.h() * b == b * self.h()) by (nonlinear_arith);
        }
        y * b
    }

    /// The offset of the byte that holds column `x` within its row.
    pub fn x_offset(&self, x: usize) -> (r: usize)
        requires
            self.wf(),
        ensures
            r == x as int / (self.ppb() as int),
    {
        x / self.codec.pixels_per_byte()
    }

    /// The bit offset of column `x` within its byte.
    pub fn x_bits_offset(&self, x: usize) -> (r: usize)
        requires
            self.wf(),
        ensures
            r == self.depth() * (x as int % (self.ppb() as int)),
            r < 8,
    {
        let d = self.codec.depth_bits() as usize;
        let p = self.codec.pixels_per_byte();
        proof {
            let m = x % p;
            assert(d * m < 8) by (nonlinear_arith)
                requires
                    (d == 1 && p == 8) || (d == 2 && p == 4) || (d == 4 && p == 2) || (d == 8
                        && p == 1),
                    0 <= m < p,
            ;
        }
        d * (x % p)
    }

    /// The field at bit offset `bits_offset` of byte `byte_offset`.
    pub fn get(&self, byte_offset: usize, bits_offset: usize) -> (r: u8)
        requires
            self.wf(),
            byte_offset < self.bytes().len(),
            bits_offset < 8,
            field_at(self.mask_spec(), bits_offset as u8),
        ensures
            r == field(self.bytes()[byte_offset as int], bits_offset as u8, self.mask_spec()),
            r <= self.mask_spec(),
    {
        let s = bits_offset as u8;
        proof {
            lemma_field_fits(self.buf@[byte_offset as int], s, self.mask_spec());
        }
        let bits = (self.buf[byte_offset] >> s) & self.codec.mask();
        self.from_bits(bits)
    }

    /// Replaces the field at bit offset `bits_offset` of byte `byte_offset`
    /// by the code of `color`, keeping the other bits of that byte.
    pub fn set(&mut self, byte_offset: usize, bits_offset: usize, color: u8)
        requires
            old(self).wf(),
            byte_offset < old(self).bytes().len(),
            bits_offset < 8,
            field_at(old(self).mask_spec(), bits_offset as u8),
            old(self).codec_spec().fits(color),
        ensures
            final(self).wf(),
            final(self).same_shape(old(self)),
            final(self).bytes() == old(self).bytes().update(
                byte_offset as int,
                with_field(
                    old(self).bytes()[byte_offset as int],
                    bits_offset as u8,
                    old(self).mask_spec(),
                    color,
                ),
            ),
    {
        let s = bits_offset as u8;
        let mask = self.codec.mask();
        let code = self.to_bits(color);
        let b = self.buf[byte_offset];
        let nb = (b & !(mask << s)) | (code << s);
        self.buf.set(byte_offset, nb);
    }
}

impl PackedFramebuffer {
    /// Whether `self` is `pre` with pixel `(x, y)` set to `color` and every
    /// other pixel unchanged.
    pub open spec fn is_set_from(&self, pre: &PackedFramebuffer, x: int, y: int, color: u8) -> bool {
        &&& self.wf()
        &&& self.same_shape(pre)
        &&& forall|a: int, b: int|
            self.in_bounds(a, b) ==> #[trigger] self.pixel(a, b) == if a == x && b == y {
                color
            } else {
                pre.pixel(a, b)
            }
    }

    /// Setting a pixel and reading it back gives the color that was set;
    /// reading any other pixel gives what it held before.
    pub proof fn lemma_point_isolation(
        pre: PackedFramebuffer,
        post: PackedFramebuffer,
        x: int,
        y: int,
        color: u8,
        a: int,
        b: int,
    )
        requires
            pre.wf(),
            pre.in_bounds(x, y),
            pre.in_bounds(a, b),
            post.is_set_from(&pre, x, y, color),
        ensures
            post.pixel(x, y) == color,
            a != x || b != y ==> post.pixel(a, b) == pre.pixel(a, b),
    {
        assert(post.in_bounds(x, y));
        assert(post.in_bounds(a, b));
    }

    /// The color of pixel `(x, y)`.
    pub fn get_pixel(&self, x: usize, y: usize) -> (r: u8)
        requires
            self.wf(),
            self.in_bounds(x as int, y as int),
        ensures
            r == self.pixel(x as int, y as int),
            self.codec_spec().fits(r),
    {
        proof {
            self.lemma_index(x as int, y as int);
        }
        let i = self.y_offset(y) + self.x_offset(x);
        self.get(i, self.x_bits_offset(x))
    }

    /// Sets pixel `(x, y)` to `color`; the pixels that share its byte keep
    /// their colors.
    pub fn set_pixel(&mut self, x: usize, y: usize, color: u8)
        requires
            old(self).wf(),
            old(self).in_bounds(x as int, y as int),
            old(self).codec_spec().fits(color),
        ensures
            final(self).is_set_from(old(self), x as int, y as int, color),
    {
        proof {
            self.lemma_index(x as int, y as int);
        }
        let ghost pre = *self;
        let i = self.y_offset(y) + self.x_offset(x);
        let s = self.x_bits_offset(x);
        self.set(i, s, color);
        proof {
            let m = pre.mask_spec();
            assert forall|a: int, b: int| self.in_bounds(a, b) implies #[trigger] self.pixel(a, b)
                == if a == x && b == y {
                color
            } else {
                pre.pixel(a, b)
            } by {
                pre.lemma_index(a, b);
                if pre.byte_index(a, b) == i {
                    if a != x || b != y {
                        if pre.shift(a) == s as u8 {
                            pre.lemma_distinct(a, b, x as int, y as int);
                        }
                    }
                    lemma_with_field(pre.bytes()[i as int], s as u8, pre.shift(a), m, color);
                }
            }
        }
    }
}

/// `v` clamped to `[0, hi]`.
pub open spec fn clamp(v: int, hi: int) -> int {
    if v < 0 {
        0
    } else if v > hi {
        hi
    } else {
        v
    }
}

/// The code of pixel `(x, y)` after drawing `ps` in order over a pixel whose
/// code was `pre`: the last pixel drawn there wins.
pub open spec fn drawn(pre: u8, ps: Seq<Pixel>, x: int, y: int) -> u8
    decreases ps.len(),
{
    if ps.len() == 0 {
        pre
    } else if ps.last().0.x == x && ps.last().0.y == y {
        ps.last().1
    } else {
        drawn(pre, ps.drop_last(), x, y)
    }
}

impl PackedFramebuffer {
    /// The cells of `area` that lie in the bounds, as `[x0, x1) x [y0, y1)`.
    pub open spec fn clip_spec(&self, area: Rectangle) -> (int, int, int, int) {
        (
            clamp(area.top_left.x as int, self.w() as int),
            clamp(area.top_left.y as int, self.h() as int),
            clamp(area.top_left.x + area.size.width, self.w() as int),
            clamp(area.top_left.y + area.size.height, self.h() as int),
        )
    }

    /// The place of cell `(x, y)` in the row-major order of the clipped area.
    pub open spec fn cell_index(&self, area: Rectangle, x: int, y: int) -> int {
        let c = self.clip_spec(area);
        (y - c.1) * (c.2 - c.0) + (x - c.0)
    }

    /// Whether `self` is `pre` with every in-bounds cell of `area` set to
    /// `color`.
    pub open spec fn is_filled_from(&self, pre: &PackedFramebuffer, area: Rectangle, color: u8) -> bool {
        &&& self.wf()
        &&& self.same_shape(pre)
        &&& forall|a: int, b: int|
            self.in_bounds(a, b) ==> #[trigger] self.pixel(a, b) == if area.contains(a, b) {
                color
            } else {
                pre.pixel(a, b)
            }
    }

    /// Whether `self` is `pre` with the in-bounds cells of `area`, taken in
    /// row-major order, set to the successive entries of `colors` for as long
    /// as there are any.
    pub open spec fn is_filled_contiguous_from(
        &self,
        pre: &PackedFramebuffer,
        area: Rectangle,
        colors: Seq<u8>,
    ) -> bool {
        &&& self.wf()
        &&& self.same_shape(pre)
        &&& forall|a: int, b: int|
            self.in_bounds(a, b) ==> #[trigger] self.pixel(a, b) == if area.contains(a, b)
                && self.cell_index(area, a, b) < colors.len() {
                colors[self.cell_index(area, a, b)]
            } else {
                pre.pixel(a, b)
            }
    }

    /// Whether `self` is `pre` after drawing `pixels` in order, those out of
    /// bounds dropped.
    pub open spec fn is_drawn_from(&self, pre: &PackedFramebuffer, pixels: Seq<Pixel>) -> bool {
        &&& self.wf()
        &&& self.same_shape(pre)
        &&& forall|a: int, b: int|
            self.in_bounds(a, b) ==> #[trigger] self.pixel(a, b) == drawn(
                pre.pixel(a, b),
                pixels,
                a,
                b,
            )
    }

    /// Whether `self` has the shape of `pre` and every pixel set to `color`.
    pub open spec fn is_cleared_from(&self, pre: &PackedFramebuffer, color: u8) -> bool {
        &&& self.wf()
        &&& self.same_shape(pre)
        &&& forall|a: int, b: int| self.in_bounds(a, b) ==> #[trigger] self.pixel(a, b) == color
    }

    proof fn lemma_clip(&self, area: Rectangle, a: int, b: int)
        requires
            self.in_bounds(a, b),
        ensures
            area.contains(a, b) <==> (self.clip_spec(area).0 <= a < self.clip_spec(area).2
                && self.clip_spec(area).1 <= b < self.clip_spec(area).3),
    {
    }

    /// Clips `area` to the bounds: each edge is clamped to `[0, dimension]`
    /// on its own axis, so no offset outside the buffer is ever formed.
    pub fn clip(&self, area: &Rectangle) -> (r: (usize, usize, usize, usize))
        requires
            self.wf(),
        ensures
            r.0 as int == self.clip_spec(*area).0,
            r.1 as int == self.clip_spec(*area).1,
            r.2 as int == self.clip_spec(*area).2,
            r.3 as int == self.clip_spec(*area).3,
            r.0 <= r.2 <= self.w(),
            r.1 <= r.3 <= self.h(),
    {
        let w = self.width as i64;
        let h = self.height as i64;
        let x = area.top_left.x as i64;
        let y = area.top_left.y as i64;
        let xe = x + area.size.width as i64;
        let ye = y + area.size.height as i64;
        let x0 = if x < 0 { 0 } else if x > w { w } else { x };
        let y0 = if y < 0 { 0 } else if y > h { h } else { y };
        let x1 = if xe < 0 { 0 } else if xe > w { w } else { xe };
        let y1 = if ye < 0 { 0 } else if ye > h { h } else { ye };
        (x0 as usize, y0 as usize, x1 as usize, y1 as usize)
    }

    /// Draws each pixel in order; pixels outside the bounds are dropped.
    pub fn draw_iter(&mut self, pixels: &[Pixel])
        requires
            old(self).wf(),
            forall|i: int| 0 <= i < pixels@.len() ==> old(self).codec_spec().fits(#[trigger] pixels@[i].1),
        ensures
            final(self).is_drawn_from(old(self), pixels@),
    {
        let ghost pre = *self;
        let mut i: usize = 0;
        while i < pixels.len()
            invariant
                self.wf(),
                self.same_shape(&pre),
                0 <= i <= pixels@.len(),
                forall|j: int| 0 <= j < pixels@.len() ==> pre.codec_spec().fits(#[trigger] pixels@[j].1),
                forall|a: int, b: int|
                    self.in_bounds(a, b) ==> #[trigger] self.pixel(a, b) == drawn(
                        pre.pixel(a, b),
                        pixels@.take(i as int),
                        a,
                        b,
                    ),
            decreases pixels@.len() - i,
        {
            let p = pixels[i];
            let ghost mid = *self;
            if p.0.x >= 0 && (p.0.x as i64) < (self.width as i64) && p.0.y >= 0 && (p.0.y as i64)
                < (self.height as i64) {
                self.set_pixel(p.0.x as usize, p.0.y as usize, p.1);
            }
            proof {
                let t = pixels@.take(i + 1);
                assert(t.drop_last() =~= pixels@.take(i as int));
                assert(t.last() == p);
                assert forall|a: int, b: int| self.in_bounds(a, b) implies #[trigger] self.pixel(
                    a,
                    b,
                ) == drawn(pre.pixel(a, b), t, a, b) by {
                    assert(mid.pixel(a, b) == drawn(pre.pixel(a, b), pixels@.take(i as int), a, b));
                }
            }
            i += 1;
        }
        proof {
            assert(pixels@.take(pixels@.len() as int) =~= pixels@);
        }
    }

    /// Sets every cell of `area` that lies in the bounds to `color`.
    pub fn fill_solid(&mut self, area: &Rectangle, color: u8)
        requires
            old(self).wf(),
            old(self).codec_spec().fits(color),
        ensures
            final(self).is_filled_from(old(self), *area, color),
    {
        let ghost pre = *self;
        let (x0, y0, x1, y1) = self.clip(area);
        let mut y = y0;
        while y < y1
            invariant
                self.wf(),
                self.same_shape(&pre),
                pre.codec_spec().fits(color),
                x0 <= x1 <= self.w(),
                y0 <= y <= y1 <= self.h(),
                forall|a: int, b: int|
                    self.in_bounds(a, b) ==> #[trigger] self.pixel(a, b) == if x0 <= a < x1 && y0
                        <= b < y {
                        color
                    } else {
                        pre.pixel(a, b)
                    },
            decreases y1 - y,
        {
            let mut x = x0;
            while x < x1
                invariant
                    self.wf(),
                    self.same_shape(&pre),
                    pre.codec_spec().fits(color),
                    x0 <= x <= x1 <= self.w(),
                    y0 <= y < y1 <= self.h(),
                    forall|a: int, b: int|
                        self.in_bounds(a, b) ==> #[trigger] self.pixel(a, b) == if (x0 <= a < x1
                            && y0 <= b < y) || (b == y && x0 <= a < x) {
                            color
                        } else {
                            pre.pixel(a, b)
                        },
                decreases x1 - x,
            {
                self.set_pixel(x, y, color);
                x += 1;
            }
            y += 1;
        }
        proof {
            assert forall|a: int, b: int| self.in_bounds(a, b) implies #[trigger] self.pixel(a, b)
                == if area.contains(a, b) {
                color
            } else {
                pre.pixel(a, b)
            } by {
                self.lemma_clip(*area, a, b);
            }
        }
    }

    /// Sets the cells of `area` that lie in the bounds, in row-major order,
    /// to the successive entries of `colors`. Cells past the end of `colors`
    /// are left as they are; entries past the last cell are ignored.
    pub fn fill_contiguous(&mut self, area: &Rectangle, colors: &[u8])
        requires
            old(self).wf(),
            forall|i: int| 0 <= i < colors@.len() ==> old(self).codec_spec().fits(#[trigger] colors@[i]),
        ensures
            final(self).is_filled_contiguous_from(old(self), *area, colors@),
    {
        let ghost pre = *self;
        let (x0, y0, x1, y1) = self.clip(area);
        let ghost rw = x1 - x0;
        let mut k: u64 = 0;
        let mut y = y0;
        while y < y1
            invariant
                self.wf(),
                self.same_shape(&pre),
                forall|i: int| 0 <= i < colors@.len() ==> pre.codec_spec().fits(#[trigger] colors@[i]),
                x0 as int == self.clip_spec(*area).0,
                y0 as int == self.clip_spec(*area).1,
                x1 as int == self.clip_spec(*area).2,
                y1 as int == self.clip_spec(*area).3,
                rw == x1 - x0,
                x0 <= x1 <= self.w(),
                y0 <= y <= y1 <= self.h(),
                k == (y - y0) * rw,
                forall|a: int, b: int|
                    self.in_bounds(a, b) ==> #[trigger] self.pixel(a, b) == if x0 <= a < x1 && y0
                        <= b < y && self.cell_index(*area, a, b) < colors@.len() {
                        colors@[self.cell_index(*area, a, b)]
                    } else {
                        pre.pixel(a, b)
                    },
            decreases y1 - y,
        {
            let mut x = x0;
            while x < x1
                invariant
                    self.wf(),
                    self.same_shape(&pre),
                    forall|i: int| 0 <= i < colors@.len() ==> pre.codec_spec().fits(#[trigger] colors@[i]),
                    x0 as int == self.clip_spec(*area).0,
                    y0 as int == self.clip_spec(*area).1,
                    x1 as int == self.clip_spec(*area).2,
                    y1 as int == self.clip_spec(*area).3,
                    rw == x1 - x0,
                    x0 <= x <= x1 <= self.w(),
                    y0 <= y < y1 <= self.h(),
                    k == (y - y0) * rw + (x - x0),
                    forall|a: int, b: int|
                        self.in_bounds(a, b) ==> #[trigger] self.pixel(a, b) == if ((x0 <= a < x1
                            && y0 <= b < y) || (b == y && x0 <= a < x)) && self.cell_index(
                            *area,
                            a,
                            b,
                        ) < colors@.len() {
                            colors@[self.cell_index(*area, a, b)]
                        } else {
                            pre.pixel(a, b)
                        },
                decreases x1 - x,
            {
                proof {
                    assert(k < MAX_DIM * MAX_DIM) by (nonlinear_arith)
                        requires
                            k == (y - y0) * rw + (x - x0),
                            x0 <= x < x1,
                            rw == x1 - x0,
                            x1 <= MAX_DIM,
                            y0 <= y < y1,
                            y1 <= MAX_DIM,
                    ;
                }
                if k < colors.len() as u64 {
                    self.set_pixel(x, y, colors[k as usize]);
                }
                k += 1;
                x += 1;
            }
            proof {
                assert((y - y0) * rw + rw == (y + 1 - y0) * rw) by (nonlinear_arith);
            }
            y += 1;
        }
        proof {
            assert forall|a: int, b: int| self.in_bounds(a, b) implies #[trigger] self.pixel(a, b)
                == if area.contains(a, b) && self.cell_index(*area, a, b) < colors@.len() {
                colors@[self.cell_index(*area, a, b)]
            } else {
                pre.pixel(a, b)
            } by {
                self.lemma_clip(*area, a, b);
            }
        }
    }

    /// Sets every pixel to `color`. A color whose code is zero is written by
    /// zeroing the whole buffer, since a zero byte holds the zero code at
    /// every offset.
    pub fn clear(&mut self, color: u8)
        requires
            old(self).wf(),
            old(self).codec_spec().fits(color),
        ensures
            final(self).is_cleared_from(old(self), color),
    {
        let ghost pre = *self;
        if self.to_bits(color) == 0 {
            let mut i: usize = 0;
            while i < self.buf.len()
                invariant
                    self.wf(),
                    self.same_shape(&pre),
                    self.bytes().len() == pre.bytes().len(),
                    0 <= i <= self.bytes().len(),
                    forall|j: int| 0 <= j < i ==> #[trigger] self.bytes()[j] == 0,
                decreases self.bytes().len() - i,
            {
                self.buf.set(i, 0);
                i += 1;
            }
            proof {
                assert forall|a: int, b: int| self.in_bounds(a, b) implies #[trigger] self.pixel(
                    a,
                    b,
                ) == color by {
                    self.lemma_index(a, b);
                    lemma_zero_field(self.shift(a), self.mask_spec());
                }
            }
        } else {
            let bb = self.bounding_box();
            self.fill_solid(&bb, color);
        }
    }
}

impl PackedFramebuffer {
    /// Column `(k % bpr) * ppb + j` of row `k / bpr` is stored at offset
    /// `depth * j` of byte `k`.
    proof fn lemma_cell(&self, k: int, j: int)
        requires
            self.wf(),
            0 <= k < self.bytes().len(),
            0 <= j < self.ppb(),
        ensures
            self.in_bounds((k % (self.bpr() as int)) * self.ppb() + j, k / (self.bpr() as int)),
            self.byte_index((k % (self.bpr() as int)) * self.ppb() + j, k / (self.bpr() as int))
                == k,
            self.shift((k % (self.bpr() as int)) * self.ppb() + j) == self.depth() * j,
    {
        let b = self.bpr() as int;
        let p = self.ppb() as int;
        let hh = self.h() as int;
        assert(b > 0) by (nonlinear_arith)
            requires
                0 <= k < b * hh,
                hh >= 0,
        ;
        let y = k / b;
        let q = k % b;
        let x = q * p + j;
        lemma_fundamental_div_mod(k, b);
        assert(self.w() == b * p) by (nonlinear_arith)
            requires
                self.w() % (p as nat) == 0,
                b == self.w() / (p as nat),
                p > 0,
        ;
        assert(0 <= q < b);
        assert(x < b * p) by (nonlinear_arith)
            requires
                x == q * p + j,
                0 <= q < b,
                0 <= j < p,
        ;
        assert(0 <= x) by (nonlinear_arith)
            requires
                x == q * p + j,
                0 <= q,
                0 <= j,
                p > 0,
        ;
        assert(0 <= y < hh) by (nonlinear_arith)
            requires
                k == b * y + q,
                0 <= q < b,
                0 <= k < b * hh,
        ;
        lemma_fundamental_div_mod_converse(x, p, q, j);
        assert(y * b == b * y) by (nonlinear_arith);
    }

    /// Two framebuffers of one shape whose pixels all agree hold the same
    /// bytes: every bit of the buffer belongs to some pixel.
    pub proof fn lemma_pixels_determine_bytes(f: PackedFramebuffer, g: PackedFramebuffer)
        requires
            f.wf(),
            g.wf(),
            f.same_shape(&g),
            forall|a: int, b: int| f.in_bounds(a, b) ==> #[trigger] f.pixel(a, b) == g.pixel(a, b),
        ensures
            f.bytes() == g.bytes(),
    {
        assert forall|k: int| 0 <= k < f.bytes().len() implies f.bytes()[k] == g.bytes()[k] by {
            let b = f.bpr() as int;
            let y = k / b;
            let q = k % b;
            let p = f.ppb() as int;
            let m = f.mask_spec();
            let u = f.bytes()[k];
            let v = g.bytes()[k];
            assert forall|j: int| 0 <= j < p implies #[trigger] field(u, (f.depth() * j) as u8, m) == field(
                v,
                (f.depth() * j) as u8,
                m,
            ) by {
                f.lemma_cell(k, j);
                g.lemma_cell(k, j);
                assert(f.pixel(q * p + j, y) == g.pixel(q * p + j, y));
            }
            if f.depth() == 1 {
                assert(field(u, (f.depth() * 0) as u8, m) == field(v, (f.depth() * 0) as u8, m));
                assert(field(u, (f.depth() * 1) as u8, m) == field(v, (f.depth() * 1) as u8, m));
                assert(field(u, (f.depth() * 2) as u8, m) == field(v, (f.depth() * 2) as u8, m));
                assert(field(u, (f.depth() * 3) as u8, m) == field(v, (f.depth() * 3) as u8, m));
                assert(field(u, (f.depth() * 4) as u8, m) == field(v, (f.depth() * 4) as u8, m));
                assert(field(u, (f.depth() * 5) as u8, m) == field(v, (f.depth() * 5) as u8, m));
                assert(field(u, (f.depth() * 6) as u8, m) == field(v, (f.depth() * 6) as u8, m));
                assert(field(u, (f.depth() * 7) as u8, m) == field(v, (f.depth() * 7) as u8, m));
            } else if f.depth() == 2 {
                assert(field(u, (f.depth() * 0) as u8, m) == field(v, (f.depth() * 0) as u8, m));
                assert(field(u, (f.depth() * 1) as u8, m) == field(v, (f.depth() * 1) as u8, m));
                assert(field(u, (f.depth() * 2) as u8, m) == field(v, (f.depth() * 2) as u8, m));
                assert(field(u, (f.depth() * 3) as u8, m) == field(v, (f.depth() * 3) as u8, m));
            } else if f.depth() == 4 {
                assert(field(u, (f.depth() * 0) as u8, m) == field(v, (f.depth() * 0) as u8, m));
                assert(field(u, (f.depth() * 1) as u8, m) == field(v, (f.depth() * 1) as u8, m));
            } else {
                assert(field(u, (f.depth() * 0) as u8, m) == field(v, (f.depth() * 0) as u8, m));
            }
            lemma_fields_determine_byte(u, v, m);
        }
        assert(f.bytes() =~= g.bytes());
    }

    /// Clearing to a color leaves the same bytes as filling the full bounds
    /// with it, from any starting contents of the same shape.
    pub proof fn lemma_clear_equivalence(
        pre1: PackedFramebuffer,
        cleared: PackedFramebuffer,
        pre2: PackedFramebuffer,
        filled: PackedFramebuffer,
        color: u8,
    )
        requires
            pre1.wf(),
            pre2.wf(),
            pre1.same_shape(&pre2),
            cleared.is_cleared_from(&pre1, color),
            filled.is_filled_from(&pre2, pre2.bounds(), color),
        ensures
            cleared.bytes() == filled.bytes(),
    {
        assert forall|a: int, b: int| cleared.in_bounds(a, b) implies #[trigger] cleared.pixel(
            a,
            b,
        ) == filled.pixel(a, b) by {
            assert(pre2.bounds().contains(a, b));
        }
        Self::lemma_pixels_determine_bytes(cleared, filled);
    }
}

/// The change at cell `(x, y)`: the current pixel where it differs from
/// the reference, nothing where they agree.
pub open spec fn change_at(
    reference: PackedFramebuffer,
    current: PackedFramebuffer,
    x: int,
    y: int,
) -> Seq<Pixel> {
    if reference.pixel(x, y) != current.pixel(x, y) {
        seq![Pixel(Point { x: x as i32, y: y as i32 }, current.pixel(x, y))]
    } else {
        seq![]
    }
}

/// The changes of the rows above `y` and of the columns left of `x` in row
/// `y`, in row-major order.
pub open spec fn changes_upto(
    reference: PackedFramebuffer,
    current: PackedFramebuffer,
    x: nat,
    y: nat,
) -> Seq<Pixel>
    decreases y, x,
{
    if x == 0 {
        if y == 0 {
            seq![]
        } else {
            changes_upto(reference, current, current.w(), (y - 1) as nat)
        }
    } else {
        changes_upto(reference, current, (x - 1) as nat, y) + change_at(
            reference,
            current,
            x - 1,
            y as int,
        )
    }
}

/// Every change between two planes, in row-major order.
pub open spec fn diff(reference: PackedFramebuffer, current: PackedFramebuffer) -> Seq<Pixel> {
    changes_upto(reference, current, 0, current.h())
}

/// Whether pixel `p` is a change from `reference` to `current`: an in-bounds
/// cell where the planes differ, carrying the current color.
pub open spec fn is_change(reference: PackedFramebuffer, current: PackedFramebuffer, p: Pixel) -> bool {
    &&& current.in_bounds(p.0.x as int, p.0.y as int)
    &&& reference.pixel(p.0.x as int, p.0.y as int) != current.pixel(p.0.x as int, p.0.y as int)
    &&& p.1 == current.pixel(p.0.x as int, p.0.y as int)
}

proof fn lemma_changes_upto(r: PackedFramebuffer, c: PackedFramebuffer, x: nat, y: nat, p: Pixel)
    requires
        c.wf(),
        x <= c.w(),
        y <= c.h(),
        y == c.h() ==> x == 0,
    ensures
        changes_upto(r, c, x, y).contains(p) <==> (is_change(r, c, p) && (p.0.y < y || (p.0.y
            == y && p.0.x < x))),
    decreases y, x,
{
    if x == 0 {
        if y > 0 {
            lemma_changes_upto(r, c, c.w(), (y - 1) as nat, p);
        }
    } else {
        lemma_changes_upto(r, c, (x - 1) as nat, y, p);
        let s = changes_upto(r, c, (x - 1) as nat, y);
        let t = change_at(r, c, x - 1, y as int);
        assert((s + t).contains(p) <==> s.contains(p) || t.contains(p)) by {
            if (s + t).contains(p) {
                let i = choose|i: int| 0 <= i < (s + t).len() && (s + t)[i] == p;
                if i >= s.len() {
                    assert(t[i - s.len()] == p);
                }
            }
            if s.contains(p) {
                let i = choose|i: int| 0 <= i < s.len() && s[i] == p;
                assert((s + t)[i] == p);
            }
            if t.contains(p) {
                let i = choose|i: int| 0 <= i < t.len() && t[i] == p;
                assert((s + t)[s.len() + i] == p);
            }
        }
        if t.contains(p) {
            assert(t[0] == p);
        }
        if is_change(r, c, p) && p.0.y == y && p.0.x == x - 1 {
            assert(p.0 == Point { x: (x - 1) as i32, y: y as i32 });
            assert(p == t[0]);
            assert(t.contains(p));
        }
    }
}

/// The changes that a flush sends are exactly the in-bounds cells where the
/// current plane differs from the reference, each with its current color.
pub proof fn lemma_diff_exact(reference: PackedFramebuffer, current: PackedFramebuffer, p: Pixel)
    requires
        reference.wf(),
        current.wf(),
        reference.same_shape(&current),
    ensures
        diff(reference, current).contains(p) <==> is_change(reference, current, p),
{
    lemma_changes_upto(reference, current, 0, current.h(), p);
}

/// Planes that agree on every pixel have no change between them, so a
/// second flush with no draw in between sends nothing.
pub proof fn lemma_diff_idempotent(reference: PackedFramebuffer, current: PackedFramebuffer)
    requires
        reference.wf(),
        current.wf(),
        reference.same_shape(&current),
        forall|a: int, b: int|
            current.in_bounds(a, b) ==> #[trigger] reference.pixel(a, b) == current.pixel(a, b),
    ensures
        diff(reference, current).len() == 0,
{
    let d = diff(reference, current);
    if d.len() > 0 {
        lemma_diff_exact(reference, current, d[0]);
        assert(d.contains(d[0]));
    }
}

impl PackedFramebuffer {
    /// Brings this plane, the reference, up to `new`, the current plane:
    /// every pixel that differs is copied over and listed, in row-major
    /// order, with its new color.
    pub fn apply(&mut self, new: &PackedFramebuffer) -> (r: Vec<Pixel>)
        requires
            old(self).wf(),
            new.wf(),
            old(self).same_shape(new),
        ensures
            final(self).wf(),
            final(self).same_shape(old(self)),
            forall|a: int, b: int|
                final(self).in_bounds(a, b) ==> #[trigger] final(self).pixel(a, b) == new.pixel(
                    a,
                    b,
                ),
            r@ == diff(*old(self), *new),
    {
        let ghost pre = *self;
        let width = self.width();
        let height = self.height();
        let mut out: Vec<Pixel> = Vec::new();
        let mut y: usize = 0;
        while y < height
            invariant
                self.wf(),
                self.same_shape(&pre),
                pre.same_shape(new),
                new.wf(),
                width == self.w(),
                height == self.h(),
                y <= height,
                out@ == changes_upto(pre, *new, 0, y as nat),
                forall|a: int, b: int|
                    self.in_bounds(a, b) ==> #[trigger] self.pixel(a, b) == if b < y {
                        new.pixel(a, b)
                    } else {
                        pre.pixel(a, b)
                    },
            decreases height - y,
        {
            let mut x: usize = 0;
            while x < width
                invariant
                    self.wf(),
                    self.same_shape(&pre),
                    pre.same_shape(new),
                    new.wf(),
                    width == self.w(),
                    height == self.h(),
                    y < height,
                    x <= width,
                    out@ == changes_upto(pre, *new, x as nat, y as nat),
                    forall|a: int, b: int|
                        self.in_bounds(a, b) ==> #[trigger] self.pixel(a, b) == if b < y || (b
                            == y && a < x) {
                            new.pixel(a, b)
                        } else {
                            pre.pixel(a, b)
                        },
                decreases width - x,
            {
                let color = new.get_pixel(x, y);
                if self.get_pixel(x, y) != color {
                    self.set_pixel(x, y, color);
                    out.push(Pixel(Point { x: x as i32, y: y as i32 }, color));
                }
                x += 1;
            }
            y += 1;
        }
        out
    }
}

proof fn lemma_flip_low_bit(c: u8, mask: u8)
    by (bit_vector)
    requires
        mask == 1 || mask == 3 || mask == 15 || mask == 255,
        c <= mask,
    ensures
        c ^ 1 <= mask,
        c ^ 1 != c,
{
}

impl PackedFramebuffer {
    /// Sets every pixel to a color that differs from the same pixel of
    /// `other` (its code with the low bit flipped).
    pub fn invert_from(&mut self, other: &PackedFramebuffer)
        requires
            old(self).wf(),
            other.wf(),
            old(self).same_shape(other),
        ensures
            final(self).wf(),
            final(self).same_shape(old(self)),
            forall|a: int, b: int|
                final(self).in_bounds(a, b) ==> #[trigger] final(self).pixel(a, b) != other.pixel(
                    a,
                    b,
                ),
    {
        let ghost pre = *self;
        let width = self.width();
        let height = self.height();
        let mut y: usize = 0;
        while y < height
            invariant
                self.wf(),
                self.same_shape(&pre),
                pre.same_shape(other),
                other.wf(),
                width == self.w(),
                height == self.h(),
                y <= height,
                forall|a: int, b: int|
                    self.in_bounds(a, b) && b < y ==> #[trigger] self.pixel(a, b) != other.pixel(
                        a,
                        b,
                    ),
            decreases height - y,
        {
            let mut x: usize = 0;
            while x < width
                invariant
                    self.wf(),
                    self.same_shape(&pre),
                    pre.same_shape(other),
                    other.wf(),
                    width == self.w(),
                    height == self.h(),
                    y < height,
                    x <= width,
                    forall|a: int, b: int|
                        self.in_bounds(a, b) && (b < y || (b == y && a < x)) ==> #[trigger] self.pixel(
                            a,
                            b,
                        ) != other.pixel(a, b),
                decreases width - x,
            {
                let c = other.get_pixel(x, y);
                proof {
                    lemma_flip_low_bit(c, other.mask_spec());
                }
                self.set_pixel(x, y, c ^ 1);
                x += 1;
            }
            y += 1;
        }
    }
}

} // verus!
