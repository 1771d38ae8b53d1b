//! The mapped byte region and the bounds-checked pixel view over it.
//!
//! The display memory is one exclusively owned `memmap2` mapping.  Verified
//! code never touches it directly: a handful of trusted wrappers expose it
//! as a byte sequence, and `PixelBuffer` builds the stride-aware pixel
//! operations on top of them.

use vstd::prelude::*;

use crate::device::FramebufferError;
use crate::pixel::blend_channel;
use crate::pixel::blend_channel_exec;
use crate::pixel::Color;

verus! {

#[verifier::external_type_specification]
#[verifier::external_body]
pub struct ExMmapMut(memmap2::MmapMut);

/// The bytes a mapping holds, in order.
pub uninterp spec fn surface_bytes(m: memmap2::MmapMut) -> Seq<u8>;

/// Relies on `memmap2::MmapMut`'s deref to the mapped slice: its length is
/// the length of the mapping.
#[verifier::external_body]
pub(crate) fn surface_len(m: &memmap2::MmapMut) -> (n: usize)
    ensures
        n == surface_bytes(*m).len(),
{
    m.len()
}

/// Relies on `memmap2::MmapMut`'s deref to the mapped slice: indexing reads
/// the byte at that position.
#[verifier::external_body]
fn surface_read(m: &memmap2::MmapMut, i: usize) -> (b: u8)
    requires
        i < surface_bytes(*m).len(),
    ensures
        b == surface_bytes(*m)[i as int],
{
    m[i]
}

/// Relies on `memmap2::MmapMut`'s mutable deref to the mapped slice:
/// indexed assignment stores one byte and moves nothing else.
#[verifier::external_body]
fn surface_write(m: &mut memmap2::MmapMut, i: usize, b: u8)
    requires
        i < surface_bytes(*old(m)).len(),
    ensures
        surface_bytes(*final(m)) == surface_bytes(*old(m)).update(i as int, b),
{
    m[i] = b;
}

/// Relies on `memmap2::MmapMut::map_anon`: on success the mapping has
/// exactly the requested length.
#[verifier::external_body]
pub(crate) fn surface_map_anon(len: usize) -> (r: Result<memmap2::MmapMut, FramebufferError>)
    ensures
        r matches Ok(m) ==> surface_bytes(m).len() == len,
        r matches Err(e) ==> e is DeviceError,
{
    memmap2::MmapMut::map_anon(len).map_err(
        |e| FramebufferError::DeviceError(format!("Failed to map memory: {}", e)),
    )
}

/// Byte offset of pixel (x, y) in a buffer with the given row stride.
pub open spec fn pixel_offset(stride: int, x: int, y: int) -> int {
    y * stride + x * 4
}

/// One pixel write under the compositing rule: full alpha overwrites the
/// four bytes, zero alpha writes nothing, and anything between blends each
/// channel into the background and forces the stored alpha to 255.
pub open spec fn composite_pixel(s: Seq<u8>, off: int, color: Color) -> Seq<u8>
    recommends
        0 <= off,
        off + 4 <= s.len(),
{
    if color.a == 255 {
        s.update(off, color.r).update(off + 1, color.g).update(off + 2, color.b).update(
            off + 3,
            color.a,
        )
    } else if color.a > 0 {
        s.update(off, blend_channel(color.r, s[off], color.a)).update(
            off + 1,
            blend_channel(color.g, s[off + 1], color.a),
        ).update(off + 2, blend_channel(color.b, s[off + 2], color.a)).update(off + 3, 255u8)
    } else {
        s
    }
}

/// One pixel of a fill: the color's channel bytes, with the stored alpha
/// forced to 255 (a cleared pixel always reads back opaque).
pub open spec fn fill_pixel(s: Seq<u8>, off: int, color: Color) -> Seq<u8>
    recommends
        0 <= off,
        off + 4 <= s.len(),
{
    s.update(off, color.r).update(off + 1, color.g).update(off + 2, color.b).update(
        off + 3,
        255u8,
    )
}

/// The first `n` pixels of a row filled with `color`.
pub open spec fn fill_row_upto(s: Seq<u8>, row_start: int, color: Color, n: int) -> Seq<u8>
    decreases n,
{
    if n <= 0 {
        s
    } else {
        fill_pixel(fill_row_upto(s, row_start, color, n - 1), row_start + 4 * (n - 1), color)
    }
}

/// The first `n` rows, each `width` pixels wide, filled with `color`.
pub open spec fn fill_rows_upto(
    s: Seq<u8>,
    stride: int,
    width: int,
    color: Color,
    n: int,
) -> Seq<u8>
    decreases n,
{
    if n <= 0 {
        s
    } else {
        fill_row_upto(fill_rows_upto(s, stride, width, color, n - 1), (n - 1) * stride, color, width)
    }
}

/// Whether the span of row `y` lies inside a buffer of `len` bytes.
pub open spec fn row_fits(len: int, stride: int, width: int, y: int) -> bool {
    y * stride + 4 * width <= len
}

/// How many leading rows, starting at `y`, fit the buffer; a fill stops at
/// the first row that does not.
pub open spec fn rows_that_fit(len: int, stride: int, width: int, height: int, y: int) -> int
    decreases height - y,
{
    if y >= height {
        0
    } else if row_fits(len, stride, width, y) {
        1 + rows_that_fit(len, stride, width, height, y + 1)
    } else {
        0
    }
}

/// How many rows a fill of this buffer writes before it stops: all of
/// them, or the rows before the first one whose span leaves the mapping.
pub open spec fn clear_rows(pb: PixelBuffer) -> int {
    rows_that_fit(
        pb.bytes().len() as int,
        pb.spec_stride() as int,
        pb.spec_width() as int,
        pb.spec_height() as int,
        0,
    )
}

/// A nonnegative value clipped into `u64`.
pub open spec fn sat_u64(x: int) -> u64 {
    if x > u64::MAX {
        u64::MAX as u64
    } else {
        x as u64
    }
}

/// The bounds-checked, stride-aware pixel view.  It owns the mapping for
/// the lifetime of the engine; every operation re-checks its bounds and no
/// byte outside the mapped region is ever addressed.
pub struct PixelBuffer {
    data: memmap2::MmapMut,
    width: u16,
    height: u16,
    stride: usize,
}

impl PixelBuffer {
    /// The mapped bytes.
    pub closed spec fn bytes(self) -> Seq<u8> {
        surface_bytes(self.data)
    }

    pub closed spec fn spec_width(self) -> u16 {
        self.width
    }

    pub closed spec fn spec_height(self) -> u16 {
        self.height
    }

    pub closed spec fn spec_stride(self) -> usize {
        self.stride
    }

    /// Every row the buffer claims lies inside the mapping.
    pub open spec fn wf(self) -> bool {
        &&& (self.spec_stride() as int) * (self.spec_height() as int) <= self.bytes().len()
        &&& self.bytes().len() <= usize::MAX
    }

    /// The two views share dimensions and stride.
    pub open spec fn same_shape(self, other: PixelBuffer) -> bool {
        &&& self.spec_width() == other.spec_width()
        &&& self.spec_height() == other.spec_height()
        &&& self.spec_stride() == other.spec_stride()
    }

    pub fn width(&self) -> (w: u16)
        ensures
            w == self.spec_width(),
    {
        self.width
    }

    pub fn height(&self) -> (h: u16)
        ensures
            h == self.spec_height(),
    {
        self.height
    }

    pub fn stride(&self) -> (s: usize)
        ensures
            s == self.spec_stride(),
    {
        self.stride
    }

    /// Wraps a mapping, rejecting one too short for `stride x height` rows.
    pub fn new(data: memmap2::MmapMut, width: u16, height: u16, stride: usize) -> (r: Result<
        PixelBuffer,
        FramebufferError,
    >)
        ensures
            match r {
                Ok(pb) => {
                    &&& pb.wf()
                    &&& pb.spec_width() == width
                    &&& pb.spec_height() == height
                    &&& pb.spec_stride() == stride
                    &&& pb.bytes() == surface_bytes(data)
                },
                Err(e) => {
                    &&& (stride as int) * (height as int) > surface_bytes(data).len()
                    &&& e == (FramebufferError::BufferSizeMismatch {
                        expected: sat_u64((stride as int) * (height as int)),
                        actual: sat_u64(surface_bytes(data).len() as int),
                    })
                },
            },
            r is Ok <==> (stride as int) * (height as int) <= surface_bytes(data).len(),
    {
        let len = surface_len(&data);
        proof {
            lemma_offset_small(height as int, stride as int, 0);
        }
        let required: u128 = (stride as u128) * (height as u128);
        if (len as u128) < required {
            let expected: u64 = if required > (u64::MAX as u128) {
                u64::MAX
            } else {
                required as u64
            };
            return Err(
                FramebufferError::BufferSizeMismatch { expected, actual: len as u64 },
            );
        }
        Ok(PixelBuffer { data, width, height, stride })
    }

    /// Writes one pixel.  Coordinates outside the device bounds, or a pixel
    /// whose byte span would leave the mapping, are reported and nothing is
    /// written; otherwise the compositing rule is applied at the pixel's
    /// offset.
    pub fn set_pixel(&mut self, x: u16, y: u16, color: Color) -> (r: Result<
        (),
        FramebufferError,
    >)
        requires
            old(self).wf(),
        ensures
            final(self).wf(),
            final(self).same_shape(*old(self)),
            x >= old(self).spec_width() || y >= old(self).spec_height() ==> r == Result::<
                (),
                FramebufferError,
            >::Err(FramebufferError::InvalidCoordinate { x, y }) && final(self).bytes() == old(
                self,
            ).bytes(),
            x < old(self).spec_width() && y < old(self).spec_height() && pixel_offset(
                old(self).spec_stride() as int,
                x as int,
                y as int,
            ) + 4 > old(self).bytes().len() ==> r == Result::<(), FramebufferError>::Err(
                FramebufferError::InvalidCoordinate { x, y },
            ) && final(self).bytes() == old(self).bytes(),
            x < old(self).spec_width() && y < old(self).spec_height() && pixel_offset(
                old(self).spec_stride() as int,
                x as int,
                y as int,
            ) + 4 <= old(self).bytes().len() ==> r == Result::<(), FramebufferError>::Ok(())
                && final(self).bytes() == composite_pixel(
                old(self).bytes(),
                pixel_offset(old(self).spec_stride() as int, x as int, y as int),
                color,
            ),
    {
        if x >= self.width || y >= self.height {
            return Err(FramebufferError::InvalidCoordinate { x, y });
        }
        let len = surface_len(&self.data);
        proof {
            lemma_offset_small(y as int, self.stride as int, x as int);
        }
        let off128: u128 = (y as u128) * (self.stride as u128) + (x as u128) * 4;
        if off128 + 4 > (len as u128) {
            return Err(FramebufferError::InvalidCoordinate { x, y });
        }
        let offset: usize = (y as usize) * self.stride + (x as usize) * 4;
        if color.a == 255 {
            surface_write(&mut self.data, offset, color.r);
            surface_write(&mut self.data, offset + 1, color.g);
            surface_write(&mut self.data, offset + 2, color.b);
            surface_write(&mut self.data, offset + 3, color.a);
        } else if color.a > 0 {
            let bg_r = surface_read(&self.data, offset);
            let bg_g = surface_read(&self.data, offset + 1);
            let bg_b = surface_read(&self.data, offset + 2);
            surface_write(&mut self.data, offset, blend_channel_exec(color.r, bg_r, color.a));
            surface_write(
                &mut self.data,
                offset + 1,
                blend_channel_exec(color.g, bg_g, color.a),
            );
            surface_write(
                &mut self.data,
                offset + 2,
                blend_channel_exec(color.b, bg_b, color.a),
            );
            surface_write(&mut self.data, offset + 3, 255);
        }
        Ok(())
    }

    /// Reads one pixel back as a color, bytes in memory order.
    pub fn get_pixel(&self, x: u16, y: u16) -> (r: Result<Color, FramebufferError>)
        requires
            self.wf(),
        ensures
            x >= self.spec_width() || y >= self.spec_height() ==> r == Result::<
                Color,
                FramebufferError,
            >::Err(FramebufferError::InvalidCoordinate { x, y }),
            x < self.spec_width() && y < self.spec_height() && pixel_offset(
                self.spec_stride() as int,
                x as int,
                y as int,
            ) + 4 > self.bytes().len() ==> r == Result::<Color, FramebufferError>::Err(
                FramebufferError::InvalidCoordinate { x, y },
            ),
            x < self.spec_width() && y < self.spec_height() && pixel_offset(
                self.spec_stride() as int,
                x as int,
                y as int,
            ) + 4 <= self.bytes().len() ==> {
                let off = pixel_offset(self.spec_stride() as int, x as int, y as int);
                r == Result::<Color, FramebufferError>::Ok(
                    Color {
                        r: self.bytes()[off],
                        g: self.bytes()[off + 1],
                        b: self.bytes()[off + 2],
                        a: self.bytes()[off + 3],
                    },
                )
            },
    {
        if x >= self.width || y >= self.height {
            return Err(FramebufferError::InvalidCoordinate { x, y });
        }
        let len = surface_len(&self.data);
        proof {
            lemma_offset_small(y as int, self.stride as int, x as int);
        }
        let off128: u128 = (y as u128) * (self.stride as u128) + (x as u128) * 4;
        if off128 + 4 > (len as u128) {
            return Err(FramebufferError::InvalidCoordinate { x, y });
        }
        let offset: usize = (y as usize) * self.stride + (x as usize) * 4;
        Ok(
            Color {
                r: surface_read(&self.data, offset),
                g: surface_read(&self.data, offset + 1),
                b: surface_read(&self.data, offset + 2),
                a: surface_read(&self.data, offset + 3),
            },
        )
    }

    /// Fills the visible pixels of every row with `color`, alpha forced to
    /// 255, locating each row by the stride.  If some row's span would
    /// leave the mapping, the rows before it are filled and a size
    /// mismatch is reported.
    #[verifier::loop_isolation(false)]
    pub fn clear(&mut self, color: Color) -> (r: Result<(), FramebufferError>)
        requires
            old(self).wf(),
        ensures
            final(self).wf(),
            final(self).same_shape(*old(self)),
            final(self).bytes() == fill_rows_upto(
                old(self).bytes(),
                old(self).spec_stride() as int,
                old(self).spec_width() as int,
                color,
                clear_rows(*old(self)),
            ),
            clear_rows(*old(self)) == old(self).spec_height() as int ==> r == Result::<
                (),
                FramebufferError,
            >::Ok(()),
            clear_rows(*old(self)) < old(self).spec_height() as int ==> r == Result::<
                (),
                FramebufferError,
            >::Err(
                FramebufferError::BufferSizeMismatch {
                    expected: sat_u64(
                        clear_rows(*old(self)) * (old(self).spec_stride() as int) + 4 * (
                        old(self).spec_width() as int),
                    ),
                    actual: sat_u64(old(self).bytes().len() as int),
                },
            ),
    {
        let ghost s0 = self.bytes();
        let ghost stride_g = self.stride as int;
        let ghost width_g = self.width as int;
        let ghost height_g = self.height as int;
        let len = surface_len(&self.data);
        let mut y: u16 = 0;
        while y < self.height
            invariant
                self.wf(),
                self.same_shape(*old(self)),
                self.spec_stride() == stride_g,
                self.spec_width() == width_g,
                self.spec_height() == height_g,
                len == self.bytes().len(),
                len == s0.len(),
                0 <= y as int <= height_g,
                forall|z: int| 0 <= z < y as int ==> row_fits(len as int, stride_g, width_g, z),
                self.bytes() == fill_rows_upto(s0, stride_g, width_g, color, y as int),
            decreases height_g - y as int,
        {
            proof {
                lemma_offset_small(y as int, self.stride as int, self.width as int);
            }
            let row_start128: u128 = (y as u128) * (self.stride as u128);
            let row_end128: u128 = row_start128 + (self.width as u128) * 4;
            if row_end128 > (len as u128) {
                proof {
                    lemma_rows_that_fit_stops(
                        len as int,
                        stride_g,
                        width_g,
                        height_g,
                        y as int,
                    );
                }
                let expected: u64 = if row_end128 > (u64::MAX as u128) {
                    u64::MAX
                } else {
                    row_end128 as u64
                };
                proof {
                    assert(row_end128 as int == (y as int) * stride_g + 4 * width_g);
                    assert(rows_that_fit(len as int, stride_g, width_g, height_g, 0)
                        == y as int);
                    assert(expected == sat_u64((y as int) * stride_g + 4 * width_g));
                    assert(len as u64 == sat_u64(len as int));
                }
                return Err(
                    FramebufferError::BufferSizeMismatch { expected, actual: len as u64 },
                );
            }
            proof {
                lemma_row_start_in_bounds(
                    len as int,
                    stride_g,
                    height_g,
                    y as int,
                );
            }
            let row_start: usize = (y as usize) * self.stride;
            let ghost srow = self.bytes();
            let mut x: u16 = 0;
            while x < self.width
                invariant
                    self.wf(),
                    self.same_shape(*old(self)),
                    self.spec_stride() == stride_g,
                    self.spec_width() == width_g,
                    self.spec_height() == height_g,
                    len == self.bytes().len(),
                    row_start as int == (y as int) * stride_g,
                    row_start as int + 4 * width_g <= len as int,
                    0 <= x as int <= width_g,
                    self.bytes() == fill_row_upto(srow, row_start as int, color, x as int),
                decreases width_g - x as int,
            {
                let offset: usize = row_start + (x as usize) * 4;
                surface_write(&mut self.data, offset, color.r);
                surface_write(&mut self.data, offset + 1, color.g);
                surface_write(&mut self.data, offset + 2, color.b);
                surface_write(&mut self.data, offset + 3, 255);
                x += 1;
            }
            proof {
                assert(self.bytes() == fill_rows_upto(
                    s0,
                    stride_g,
                    width_g,
                    color,
                    y as int + 1,
                ));
            }
            y += 1;
        }
        proof {
            lemma_rows_that_fit_stops(len as int, stride_g, width_g, height_g, height_g);
        }
        Ok(())
    }
}

/// If every row before `y` fits and `y` is the height or an unfitting row,
/// the fill stops after exactly `y` rows.
proof fn lemma_rows_that_fit_stops(len: int, stride: int, width: int, height: int, y: int)
    requires
        0 <= y <= height,
        forall|z: int| 0 <= z < y ==> row_fits(len, stride, width, z),
        y == height || !row_fits(len, stride, width, y),
    ensures
        rows_that_fit(len, stride, width, height, 0) == y,
{
    lemma_rows_that_fit_from(len, stride, width, height, y, 0);
}

/// Counting from any row `j` at or below the stopping row `y` yields
/// `y - j` rows.
proof fn lemma_rows_that_fit_from(len: int, stride: int, width: int, height: int, y: int, j: int)
    requires
        0 <= j <= y <= height,
        forall|z: int| 0 <= z < y ==> row_fits(len, stride, width, z),
        y == height || !row_fits(len, stride, width, y),
    ensures
        rows_that_fit(len, stride, width, height, j) == y - j,
    decreases y - j,
{
    if j == y {
    } else {
        assert(row_fits(len, stride, width, j));
        lemma_rows_that_fit_from(len, stride, width, height, y, j + 1);
    }
}

/// Law: in a well-formed buffer whose rows do not overlap, every row fits
/// the mapping, so a clear fills all of them and cannot fail.  Together
/// with the fill readback law, every in-bounds pixel then reads back as
/// the fill color.
pub proof fn lemma_clear_covers_all(pb: PixelBuffer)
    requires
        pb.wf(),
        4 * (pb.spec_width() as int) <= pb.spec_stride() as int,
    ensures
        clear_rows(pb) == pb.spec_height() as int,
{
    let len = pb.bytes().len() as int;
    let stride = pb.spec_stride() as int;
    let width = pb.spec_width() as int;
    let height = pb.spec_height() as int;
    assert forall|y: int| 0 <= y < height implies row_fits(len, stride, width, y) by {
        assert((y + 1) * stride <= height * stride) by (nonlinear_arith)
            requires
                y + 1 <= height,
                0 <= stride,
        ;
        assert((y + 1) * stride == y * stride + stride) by (nonlinear_arith);
        assert(height * stride == stride * height) by (nonlinear_arith);
    }
    lemma_rows_that_fit_stops(len, stride, width, height, height);
}

/// Law: writing an opaque pixel then reading its span back yields exactly
/// the written color, and no other byte moves.
pub proof fn lemma_composite_readback_opaque(s: Seq<u8>, off: int, color: Color)
    requires
        color.a == 255,
        0 <= off,
        off + 4 <= s.len(),
    ensures
        composite_pixel(s, off, color).len() == s.len(),
        composite_pixel(s, off, color)[off] == color.r,
        composite_pixel(s, off, color)[off + 1] == color.g,
        composite_pixel(s, off, color)[off + 2] == color.b,
        composite_pixel(s, off, color)[off + 3] == color.a,
        forall|i: int|
            0 <= i < s.len() && !(off <= i < off + 4) ==> composite_pixel(s, off, color)[i]
                == s[i],
{
}

/// Law: writing a translucent pixel then reading its span back yields the
/// exact integer blend of the written color against the prior background,
/// with the stored alpha forced to 255; no other byte moves.
pub proof fn lemma_composite_readback_blend(s: Seq<u8>, off: int, color: Color)
    requires
        0 < color.a < 255,
        0 <= off,
        off + 4 <= s.len(),
    ensures
        composite_pixel(s, off, color).len() == s.len(),
        composite_pixel(s, off, color)[off] == blend_channel(color.r, s[off], color.a),
        composite_pixel(s, off, color)[off + 1] == blend_channel(color.g, s[off + 1], color.a),
        composite_pixel(s, off, color)[off + 2] == blend_channel(color.b, s[off + 2], color.a),
        composite_pixel(s, off, color)[off + 3] == 255,
        forall|i: int|
            0 <= i < s.len() && !(off <= i < off + 4) ==> composite_pixel(s, off, color)[i]
                == s[i],
{
}

/// Law: a fully transparent write changes nothing at all, whatever the
/// destination held.
pub proof fn lemma_composite_transparent(s: Seq<u8>, off: int, color: Color)
    requires
        color.a == 0,
    ensures
        composite_pixel(s, off, color) == s,
{
}

/// A row fill touches nothing outside its span.
proof fn lemma_fill_row_untouched(s: Seq<u8>, row_start: int, color: Color, n: int)
    requires
        0 <= row_start,
        row_start + 4 * n <= s.len(),
    ensures
        fill_row_upto(s, row_start, color, n).len() == s.len(),
        forall|i: int|
            0 <= i < s.len() && !(row_start <= i < row_start + 4 * n) ==> #[trigger] fill_row_upto(
                s,
                row_start,
                color,
                n,
            )[i] == s[i],
    decreases n,
{
    if n > 0 {
        lemma_fill_row_untouched(s, row_start, color, n - 1);
    }
}

/// Pixel `p` of a filled row reads back as the fill color, byte for byte.
proof fn lemma_fill_row_pixel(s: Seq<u8>, row_start: int, color: Color, n: int, p: int)
    requires
        0 <= row_start,
        0 <= p < n,
        row_start + 4 * n <= s.len(),
    ensures
        fill_row_upto(s, row_start, color, n).len() == s.len(),
        fill_row_upto(s, row_start, color, n)[row_start + 4 * p] == color.r,
        fill_row_upto(s, row_start, color, n)[row_start + 4 * p + 1] == color.g,
        fill_row_upto(s, row_start, color, n)[row_start + 4 * p + 2] == color.b,
        fill_row_upto(s, row_start, color, n)[row_start + 4 * p + 3] == 255,
    decreases n,
{
    lemma_fill_row_untouched(s, row_start, color, n);
    if p < n - 1 {
        lemma_fill_row_pixel(s, row_start, color, n - 1, p);
    } else {
        lemma_fill_row_untouched(s, row_start, color, n - 1);
    }
}

/// The length a fill leaves behind is the length it started with.
proof fn lemma_fill_rows_len(s: Seq<u8>, stride: int, width: int, color: Color, n: int)
    requires
        0 <= 4 * width <= stride,
        0 <= n,
        n * stride <= s.len(),
    ensures
        fill_rows_upto(s, stride, width, color, n).len() == s.len(),
    decreases n,
{
    if n > 0 {
        assert((n - 1) * stride <= n * stride && 0 <= (n - 1) * stride) by (nonlinear_arith)
            requires
                0 <= n - 1,
                0 <= stride,
        ;
        lemma_fill_rows_len(s, stride, width, color, n - 1);
        assert((n - 1) * stride + stride == n * stride) by (nonlinear_arith);
        lemma_fill_row_untouched(
            fill_rows_upto(s, stride, width, color, n - 1),
            (n - 1) * stride,
            color,
            width,
        );
    }
}

/// Law: after `n` rows are filled, every pixel of those rows reads back as
/// the fill color with alpha 255, provided rows do not overlap (the row
/// span fits the stride) and the filled region lies inside the buffer.
/// This is exactly the full-clear readback rule.
pub proof fn lemma_fill_rows_readback(
    s: Seq<u8>,
    stride: int,
    width: int,
    color: Color,
    n: int,
    x: int,
    y: int,
)
    requires
        0 <= 4 * width <= stride,
        0 <= y < n,
        0 <= x < width,
        n * stride <= s.len(),
    ensures
        fill_rows_upto(s, stride, width, color, n).len() == s.len(),
        fill_rows_upto(s, stride, width, color, n)[y * stride + 4 * x] == color.r,
        fill_rows_upto(s, stride, width, color, n)[y * stride + 4 * x + 1] == color.g,
        fill_rows_upto(s, stride, width, color, n)[y * stride + 4 * x + 2] == color.b,
        fill_rows_upto(s, stride, width, color, n)[y * stride + 4 * x + 3] == 255,
    decreases n,
{
    lemma_fill_rows_len(s, stride, width, color, n);
    let prev = fill_rows_upto(s, stride, width, color, n - 1);
    assert(0 <= (n - 1) * stride && (n - 1) * stride <= n * stride) by (nonlinear_arith)
        requires
            0 <= n - 1,
            0 <= stride,
    ;
    lemma_fill_rows_len(s, stride, width, color, n - 1);
    assert((n - 1) * stride + stride == n * stride) by (nonlinear_arith);
    assert((n - 1) * stride + 4 * width <= s.len());
    lemma_fill_row_untouched(prev, (n - 1) * stride, color, width);
    if y == n - 1 {
        lemma_fill_row_pixel(prev, (n - 1) * stride, color, width, x);
    } else {
        lemma_fill_rows_readback(s, stride, width, color, n - 1, x, y);
        assert((y + 1) * stride <= (n - 1) * stride) by (nonlinear_arith)
            requires
                y + 1 <= n - 1,
                0 <= stride,
    ;
        assert((y + 1) * stride == y * stride + stride) by (nonlinear_arith);
        assert(y * stride + 4 * x + 3 < (n - 1) * stride);
    }
}

/// Offsets computed from a 16-bit coordinate pair and a machine-word stride
/// stay far below the 128-bit range.
proof fn lemma_offset_small(y: int, stride: int, x: int)
    requires
        0 <= y < 0x10000,
        0 <= stride <= 0xFFFF_FFFF_FFFF_FFFF,
        0 <= x < 0x10000,
    ensures
        0 <= y * stride + x * 4 + 4 < 0x1_0000_0000_0000_0000_0000,
{
    assert(0 <= y * stride <= 0xFFFF * 0xFFFF_FFFF_FFFF_FFFF) by (nonlinear_arith)
        requires
            0 <= y < 0x10000,
            0 <= stride <= 0xFFFF_FFFF_FFFF_FFFF,
    ;
}

/// A row that the well-formedness bound covers starts inside the mapping.
proof fn lemma_row_start_in_bounds(len: int, stride: int, height: int, y: int)
    requires
        0 <= y < height,
        stride * height <= len,
        0 <= stride,
    ensures
        y * stride <= len - stride,
        y * stride >= 0,
{
    assert(y * stride >= 0) by (nonlinear_arith)
        requires
            0 <= y,
            0 <= stride,
    ;
    assert((y + 1) * stride <= height * stride) by (nonlinear_arith)
        requires
            y + 1 <= height,
            0 <= stride,
    ;
    assert(height * stride == stride * height) by (nonlinear_arith);
    assert((y + 1) * stride == y * stride + stride) by (nonlinear_arith);
}

} // verus!
