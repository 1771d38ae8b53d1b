//! The engine facade: one mapped surface, one font registry, one glyph
//! cache, and the text renderer on top of them.
//!
//! Sizes are carried in hundredths of a pixel (the size bucket resolution),
//! and the horizontal layout cursor runs in the same unit, so the whole
//! layout is plain integer arithmetic.

use vstd::prelude::*;

use crate::device::capability_error;
use crate::device::DeviceInfo;
use crate::device::FramebufferError;
use crate::font::glyph_key;
use crate::font::FontId;
use crate::font::FontRegistry;
use crate::font::Glyph;
use crate::font::GlyphCache;
use crate::pixel::Color;
use crate::pixel::Point;
use crate::surface::clear_rows;
use crate::surface::composite_pixel;
use crate::surface::fill_rows_upto;
use crate::surface::pixel_offset;
use crate::surface::sat_u64;
use crate::surface::surface_bytes;
use crate::surface::surface_len;
use crate::surface::surface_map_anon;
use crate::surface::PixelBuffer;

verus! {

/// The horizontal cursor never runs past this many hundredths of a pixel;
/// advances beyond it saturate.  Everything so far off screen is clipped
/// anyway, and the bound keeps the arithmetic inside `i64`.
pub open spec fn clamp_cursor(c: int) -> int {
    if c > 1_000_000_000_000_000 {
        1_000_000_000_000_000
    } else {
        c
    }
}

/// Rounding from hundredths of a pixel to whole pixels, halves away from
/// zero.
pub open spec fn round_centis(c: int) -> int {
    if c >= 0 {
        (c + 50) / 100
    } else {
        -(((-c) + 50) / 100)
    }
}

/// A space advances the cursor by three tenths of the size.
pub open spec fn space_advance(size_centis: u32) -> int {
    (size_centis as int) * 3 / 10
}

/// The tallest ascent over the remaining characters, folded with `acc`;
/// spaces contribute nothing.
pub open spec fn max_ascent_from(
    cache: Map<u64, Glyph>,
    font_id: FontId,
    size_centis: u32,
    chars: Seq<char>,
    i: int,
    acc: int,
) -> int
    decreases chars.len() - i,
{
    if i < 0 || i >= chars.len() {
        acc
    } else if chars[i] == ' ' {
        max_ascent_from(cache, font_id, size_centis, chars, i + 1, acc)
    } else {
        let a = cache[glyph_key(font_id, chars[i], size_centis)].ascent();
        max_ascent_from(cache, font_id, size_centis, chars, i + 1, if a > acc {
            a
        } else {
            acc
        })
    }
}

/// The shared baseline ascent of a string: the tallest glyph ascent among
/// its non-space characters, at least zero.
pub open spec fn max_ascent_of(
    cache: Map<u64, Glyph>,
    font_id: FontId,
    size_centis: u32,
    chars: Seq<char>,
) -> int {
    max_ascent_from(cache, font_id, size_centis, chars, 0, 0)
}

/// The first non-space character with no cached glyph, if any; rendering
/// fails on it before any pixel is touched.
pub open spec fn first_missing_glyph(
    cache: Map<u64, Glyph>,
    font_id: FontId,
    size_centis: u32,
    chars: Seq<char>,
) -> Option<char>
    decreases chars.len(),
{
    if chars.len() == 0 {
        None
    } else if chars[0] != ' ' && !cache.contains_key(glyph_key(font_id, chars[0], size_centis)) {
        Some(chars[0])
    } else {
        first_missing_glyph(cache, font_id, size_centis, chars.drop_first())
    }
}

/// One bitmap cell of a glyph blit: a destination pixel outside the device
/// bounds is silently clipped, zero coverage writes nothing, and otherwise
/// the coverage value composites the text color at the pixel's offset.
pub open spec fn blit_cell(
    s: Seq<u8>,
    g: Glyph,
    gx: int,
    gy: int,
    color: Color,
    width: int,
    height: int,
    stride: int,
    row: int,
    col: int,
) -> Seq<u8> {
    let px = gx + col;
    let py = gy + row;
    let cov = g.bitmap@[row * (g.width as int) + col];
    if 0 <= px < width && 0 <= py < height && cov > 0 {
        composite_pixel(
            s,
            pixel_offset(stride, px, py),
            Color { r: color.r, g: color.g, b: color.b, a: cov },
        )
    } else {
        s
    }
}

/// The first `ncols` cells of bitmap row `row` blitted.
pub open spec fn blit_row_upto(
    s: Seq<u8>,
    g: Glyph,
    gx: int,
    gy: int,
    color: Color,
    width: int,
    height: int,
    stride: int,
    row: int,
    ncols: int,
) -> Seq<u8>
    decreases ncols,
{
    if ncols <= 0 {
        s
    } else {
        blit_cell(
            blit_row_upto(s, g, gx, gy, color, width, height, stride, row, ncols - 1),
            g,
            gx,
            gy,
            color,
            width,
            height,
            stride,
            row,
            ncols - 1,
        )
    }
}

/// The first `nrows` bitmap rows blitted.
pub open spec fn blit_rows_upto(
    s: Seq<u8>,
    g: Glyph,
    gx: int,
    gy: int,
    color: Color,
    width: int,
    height: int,
    stride: int,
    nrows: int,
) -> Seq<u8>
    decreases nrows,
{
    if nrows <= 0 {
        s
    } else {
        blit_row_upto(
            blit_rows_upto(s, g, gx, gy, color, width, height, stride, nrows - 1),
            g,
            gx,
            gy,
            color,
            width,
            height,
            stride,
            nrows - 1,
            g.width as int,
        )
    }
}

/// A whole glyph blitted with its bitmap origin at (`gx`, `gy`).
pub open spec fn blit_glyph(
    s: Seq<u8>,
    g: Glyph,
    gx: int,
    gy: int,
    color: Color,
    width: int,
    height: int,
    stride: int,
) -> Seq<u8> {
    blit_rows_upto(s, g, gx, gy, color, width, height, stride, g.height as int)
}

/// The layout and blit pass over the remaining characters.  A space only
/// advances the cursor.  A glyph is drawn with its horizontal origin at the
/// rounded cursor plus bitmap offset and its vertical origin on the shared
/// baseline, by the two-term ascent alignment; then the cursor advances by
/// the glyph's advance width.
pub open spec fn render_chars(
    s: Seq<u8>,
    chars: Seq<char>,
    cache: Map<u64, Glyph>,
    font_id: FontId,
    size_centis: u32,
    cursor: int,
    baseline: int,
    max_ascent: int,
    color: Color,
    width: int,
    height: int,
    stride: int,
) -> Seq<u8>
    decreases chars.len(),
{
    if chars.len() == 0 {
        s
    } else if chars[0] == ' ' {
        render_chars(
            s,
            chars.drop_first(),
            cache,
            font_id,
            size_centis,
            clamp_cursor(cursor + space_advance(size_centis)),
            baseline,
            max_ascent,
            color,
            width,
            height,
            stride,
        )
    } else {
        let g = cache[glyph_key(font_id, chars[0], size_centis)];
        let gx = round_centis(cursor + (g.xmin as int) * 100);
        let gy = baseline - max_ascent + (max_ascent - g.ascent());
        render_chars(
            blit_glyph(s, g, gx, gy, color, width, height, stride),
            chars.drop_first(),
            cache,
            font_id,
            size_centis,
            clamp_cursor(cursor + g.advance_centis as int),
            baseline,
            max_ascent,
            color,
            width,
            height,
            stride,
        )
    }
}

/// What a whole text call paints: the layout pass starting at the given
/// position, on the shared baseline of the whole string.
pub open spec fn render_text(
    s: Seq<u8>,
    chars: Seq<char>,
    cache: Map<u64, Glyph>,
    font_id: FontId,
    size_centis: u32,
    position: Point,
    color: Color,
    width: int,
    height: int,
    stride: int,
) -> Seq<u8> {
    render_chars(
        s,
        chars,
        cache,
        font_id,
        size_centis,
        (position.x as int) * 100,
        position.y as int,
        max_ascent_of(cache, font_id, size_centis, chars),
        color,
        width,
        height,
        stride,
    )
}

/// Adds a nonnegative advance to the cursor, clamping at the layout bound.
fn add_clamped(cursor: i64, adv: i64) -> (r: i64)
    requires
        0 <= cursor <= 1_000_000_000_000_000,
        0 <= adv <= 500_000_000_000,
    ensures
        r as int == clamp_cursor(cursor as int + adv as int),
        0 <= r <= 1_000_000_000_000_000,
{
    let sum = cursor + adv;
    if sum > 1_000_000_000_000_000 {
        1_000_000_000_000_000
    } else {
        sum
    }
}

/// Rounds hundredths of a pixel to whole pixels, halves away from zero.
fn round_centis_exec(c: i64) -> (r: i64)
    requires
        -4_000_000_000_000_000 <= c <= 4_000_000_000_000_000,
    ensures
        r as int == round_centis(c as int),
        c >= 0 ==> 0 <= r <= c + 50,
        c < 0 ==> c - 50 <= r <= 0,
{
    if c >= 0 {
        let q = ((c as u64 + 50) / 100) as i64;
        proof {
            assert((c + 50) / 100 <= c + 50) by (nonlinear_arith)
                requires
                    c + 50 >= 0,
            ;
        }
        q
    } else {
        let m = -c;
        let q = ((m as u64 + 50) / 100) as i64;
        proof {
            assert((m + 50) / 100 <= m + 50) by (nonlinear_arith)
                requires
                    m + 50 >= 0,
            ;
        }
        -q
    }
}

/// If every character before `i` needs no glyph or has one, and the
/// character at `i` needs one and has none, it is the first missing one.
proof fn lemma_first_missing_at(
    cache: Map<u64, Glyph>,
    font_id: FontId,
    size_centis: u32,
    chars: Seq<char>,
    i: int,
)
    requires
        0 <= i < chars.len(),
        forall|j: int|
            0 <= j < i ==> (chars[j] == ' ' || cache.contains_key(
                #[trigger] glyph_key(font_id, chars[j], size_centis),
            )),
        chars[i] != ' ',
        !cache.contains_key(glyph_key(font_id, chars[i], size_centis)),
    ensures
        first_missing_glyph(cache, font_id, size_centis, chars) == Some(chars[i]),
    decreases i,
{
    if i > 0 {
        assert(chars[0] == ' ' || cache.contains_key(glyph_key(font_id, chars[0], size_centis)));
        let rest = chars.drop_first();
        assert forall|j: int|
            0 <= j < i - 1 implies (rest[j] == ' ' || cache.contains_key(
            #[trigger] glyph_key(font_id, rest[j], size_centis),
        )) by {
            assert(rest[j] == chars[j + 1]);
        }
        lemma_first_missing_at(cache, font_id, size_centis, rest, i - 1);
    }
}

/// Law: once every non-space character of a string has a cached glyph,
/// no glyph is missing, so a repeated text call rasterizes nothing and
/// cannot fail for want of a glyph.
pub proof fn lemma_first_missing_none(
    cache: Map<u64, Glyph>,
    font_id: FontId,
    size_centis: u32,
    chars: Seq<char>,
)
    requires
        forall|j: int|
            0 <= j < chars.len() ==> (chars[j] == ' ' || cache.contains_key(
                #[trigger] glyph_key(font_id, chars[j], size_centis),
            )),
    ensures
        first_missing_glyph(cache, font_id, size_centis, chars) is None,
    decreases chars.len(),
{
    if chars.len() > 0 {
        let rest = chars.drop_first();
        assert forall|j: int|
            0 <= j < rest.len() implies (rest[j] == ' ' || cache.contains_key(
            #[trigger] glyph_key(font_id, rest[j], size_centis),
        )) by {
            assert(rest[j] == chars[j + 1]);
        }
        lemma_first_missing_none(cache, font_id, size_centis, rest);
    }
}

/// In a buffer whose rows do not overlap and all fit, every in-bounds
/// pixel's byte span lies inside the mapping.
proof fn lemma_pixel_span_fits(stride: int, width: int, height: int, len: int, px: int, py: int)
    requires
        0 <= px < width,
        0 <= py < height,
        4 * width <= stride,
        stride * height <= len,
    ensures
        0 <= py * stride,
        py * stride + px * 4 + 4 <= len,
{
    assert(0 <= py * stride) by (nonlinear_arith)
        requires
            0 <= py,
            0 <= stride,
    ;
    assert(px * 4 + 4 <= 4 * width) by (nonlinear_arith)
        requires
            px < width,
    ;
    assert((py + 1) * stride <= height * stride) by (nonlinear_arith)
        requires
            py + 1 <= height,
            0 <= stride,
    ;
    assert((py + 1) * stride == py * stride + stride) by (nonlinear_arith);
    assert(height * stride == stride * height) by (nonlinear_arith);
}

/// The linear index of a bitmap cell stays below the bitmap length.
proof fn lemma_bitmap_index(gw: int, gh: int, row: int, col: int)
    requires
        0 <= row < gh,
        0 <= col < gw,
    ensures
        0 <= row * gw + col < gh * gw,
        gh * gw == gw * gh,
{
    assert(row * gw + col < gh * gw) by (nonlinear_arith)
        requires
            0 <= row < gh,
            0 <= col < gw,
    ;
    assert(0 <= row * gw) by (nonlinear_arith)
        requires
            0 <= row,
            0 <= gw,
    ;
    assert(gh * gw == gw * gh) by (nonlinear_arith);
}

/// Blits one glyph bitmap into the pixel buffer with its origin at
/// (`gx`, `gy`), clipping to the device bounds and compositing each covered
/// cell with the coverage value as alpha.  Success always means the whole
/// glyph was blitted; in a buffer whose rows do not overlap it cannot
/// fail, and where they do, the first pixel whose byte span leaves the
/// mapping is reported as an invalid coordinate.
#[verifier::loop_isolation(false)]
fn blit_glyph_into(pixels: &mut PixelBuffer, g: &Glyph, gx: i64, gy: i64, color: Color) -> (r:
    Result<(), FramebufferError>)
    requires
        old(pixels).wf(),
        g.wf(),
        -2_000_000_000_000_000 <= gx <= 2_000_000_000_000_000,
        -2_000_000_000_000_000 <= gy <= 2_000_000_000_000_000,
    ensures
        final(pixels).wf(),
        final(pixels).same_shape(*old(pixels)),
        r is Ok ==> final(pixels).bytes() == blit_glyph(
            old(pixels).bytes(),
            *g,
            gx as int,
            gy as int,
            color,
            old(pixels).spec_width() as int,
            old(pixels).spec_height() as int,
            old(pixels).spec_stride() as int,
        ),
        4 * (old(pixels).spec_width() as int) <= old(pixels).spec_stride() as int ==> r is Ok,
        r matches Err(e) ==> e is InvalidCoordinate,
{
    let ghost s0 = pixels.bytes();
    let ghost w = pixels.spec_width() as int;
    let ghost h = pixels.spec_height() as int;
    let ghost st = pixels.spec_stride() as int;
    let ghost aligned = 4 * w <= st;
    let width = pixels.width();
    let height = pixels.height();
    let gw = g.width;
    let gh = g.height;
    let bitmap_len = g.bitmap.len();
    proof {
        assert(bitmap_len == gw * gh) by (nonlinear_arith)
            requires
                g.bitmap@.len() == (g.width as int) * (g.height as int),
                bitmap_len == g.bitmap@.len(),
                gw == g.width,
                gh == g.height,
        ;
    }
    let mut row: usize = 0;
    while row < gh
        invariant
            pixels.wf(),
            pixels.same_shape(*old(pixels)),
            0 <= row <= gh,
            pixels.bytes() == blit_rows_upto(
                s0,
                *g,
                gx as int,
                gy as int,
                color,
                w,
                h,
                st,
                row as int,
            ),
        decreases gh - row,
    {
        let ghost srow = pixels.bytes();
        let mut col: usize = 0;
        while col < gw
            invariant
                pixels.wf(),
                pixels.same_shape(*old(pixels)),
                0 <= col <= gw,
                pixels.bytes() == blit_row_upto(
                    srow,
                    *g,
                    gx as int,
                    gy as int,
                    color,
                    w,
                    h,
                    st,
                    row as int,
                    col as int,
                ),
            decreases gw - col,
        {
            let px: i64 = gx + col as i64;
            let py: i64 = gy + row as i64;
            let ghost pre = pixels.bytes();
            if px >= 0 && px < width as i64 && py >= 0 && py < height as i64 {
                proof {
                    lemma_bitmap_index(gw as int, gh as int, row as int, col as int);
                    assert(row * gw + col < bitmap_len);
                }
                let idx: usize = row * gw + col;
                let cov = g.bitmap[idx];
                if cov > 0 {
                    proof {
                        if aligned {
                            lemma_pixel_span_fits(st, w, h, pixels.bytes().len() as int, px as int, py as int);
                        }
                    }
                    match pixels.set_pixel(
                        px as u16,
                        py as u16,
                        Color { r: color.r, g: color.g, b: color.b, a: cov },
                    ) {
                        Ok(()) => {},
                        Err(e) => {
                            proof {
                                assert(!aligned);
                            }
                            return Err(e);
                        },
                    }
                }
            }
            proof {
                assert(pixels.bytes() == blit_cell(
                    pre,
                    *g,
                    gx as int,
                    gy as int,
                    color,
                    w,
                    h,
                    st,
                    row as int,
                    col as int,
                ));
            }
            col += 1;
        }
        row += 1;
    }
    Ok(())
}

/// Law: a leading space draws nothing and only advances the cursor by
/// three tenths of the size: laying the string out equals laying out the
/// rest of it from the advanced cursor, over the same buffer.
pub proof fn lemma_space_advances_cursor(
    s: Seq<u8>,
    chars: Seq<char>,
    cache: Map<u64, Glyph>,
    font_id: FontId,
    size_centis: u32,
    cursor: int,
    baseline: int,
    max_ascent: int,
    color: Color,
    width: int,
    height: int,
    stride: int,
)
    requires
        chars.len() > 0,
        chars[0] == ' ',
    ensures
        render_chars(
            s,
            chars,
            cache,
            font_id,
            size_centis,
            cursor,
            baseline,
            max_ascent,
            color,
            width,
            height,
            stride,
        ) == render_chars(
            s,
            chars.drop_first(),
            cache,
            font_id,
            size_centis,
            clamp_cursor(cursor + space_advance(size_centis)),
            baseline,
            max_ascent,
            color,
            width,
            height,
            stride,
        ),
{
}

/// Law: text of spaces alone paints nothing: the layout pass hands the
/// buffer back untouched, whatever the cursor, cache and geometry.
pub proof fn lemma_spaces_paint_nothing(
    s: Seq<u8>,
    chars: Seq<char>,
    cache: Map<u64, Glyph>,
    font_id: FontId,
    size_centis: u32,
    cursor: int,
    baseline: int,
    max_ascent: int,
    color: Color,
    width: int,
    height: int,
    stride: int,
)
    requires
        forall|j: int| 0 <= j < chars.len() ==> chars[j] == ' ',
    ensures
        render_chars(
            s,
            chars,
            cache,
            font_id,
            size_centis,
            cursor,
            baseline,
            max_ascent,
            color,
            width,
            height,
            stride,
        ) == s,
    decreases chars.len(),
{
    if chars.len() > 0 {
        let rest = chars.drop_first();
        assert forall|j: int| 0 <= j < rest.len() implies rest[j] == ' ' by {
            assert(rest[j] == chars[j + 1]);
        }
        lemma_spaces_paint_nothing(
            s,
            rest,
            cache,
            font_id,
            size_centis,
            clamp_cursor(cursor + space_advance(size_centis)),
            baseline,
            max_ascent,
            color,
            width,
            height,
            stride,
        );
    }
}

/// Law: on a well-formed engine whose rows do not overlap, a clear covers
/// every row, so `clear_screen` succeeds and fills the whole screen.
pub proof fn lemma_clear_screen_succeeds(fb: Framebuffer)
    requires
        fb.wf(),
        fb.row_aligned(),
    ensures
        clear_rows(fb.spec_pixels()) == fb.spec_height() as int,
{
    crate::surface::lemma_clear_covers_all(fb.spec_pixels());
}

/// Law: what a text call paints is a function of the prior bytes, the
/// string, the cache and the geometry alone, so rendering the same string
/// twice over the same state yields bit-identical output.
pub proof fn lemma_render_deterministic(
    s1: Seq<u8>,
    s2: Seq<u8>,
    chars: Seq<char>,
    cache: Map<u64, Glyph>,
    font_id: FontId,
    size_centis: u32,
    position: Point,
    color: Color,
    width: int,
    height: int,
    stride: int,
)
    requires
        s1 == s2,
    ensures
        render_text(s1, chars, cache, font_id, size_centis, position, color, width, height, stride)
            == render_text(
            s2,
            chars,
            cache,
            font_id,
            size_centis,
            position,
            color,
            width,
            height,
            stride,
        ),
{
}

/// The rendering engine: the mapped pixel buffer, the loaded font slots
/// and the glyph cache, behind one facade.  Every operation returns an
/// explicit result and none corrupts the engine on failure.
pub struct Framebuffer {
    pixels: PixelBuffer,
    device_info: DeviceInfo,
    fonts: FontRegistry,
    glyph_cache: GlyphCache,
}

impl Framebuffer {
    /// The mapped bytes.
    pub closed spec fn bytes(self) -> Seq<u8> {
        self.pixels.bytes()
    }

    /// The glyph cache contents.
    pub closed spec fn cache(self) -> Map<u64, Glyph> {
        self.glyph_cache.view()
    }

    /// Whether a font slot holds a loaded font.
    pub closed spec fn font_loaded(self, font_id: FontId) -> bool {
        self.fonts.is_loaded(font_id)
    }

    pub closed spec fn spec_device_info(self) -> DeviceInfo {
        self.device_info
    }

    pub closed spec fn spec_width(self) -> u16 {
        self.pixels.spec_width()
    }

    pub closed spec fn spec_height(self) -> u16 {
        self.pixels.spec_height()
    }

    pub closed spec fn spec_stride(self) -> usize {
        self.pixels.spec_stride()
    }

    /// The pixel view inside the facade.
    pub closed spec fn spec_pixels(self) -> PixelBuffer {
        self.pixels
    }

    /// The buffer is well formed, the cached glyphs are well formed, and
    /// the view dimensions are the probed ones.  The equalities tie the
    /// facade's geometry and bytes to the inner pixel view, so a caller
    /// can move between the two in contracts such as `clear_screen`'s.
    pub open spec fn wf(self) -> bool {
        &&& self.spec_pixels().wf()
        &&& self.glyph_cache_wf()
        &&& self.spec_width() == self.spec_device_info().width
        &&& self.spec_height() == self.spec_device_info().height
        &&& self.spec_stride() == self.spec_device_info().line_length as usize
        &&& self.spec_pixels().spec_width() == self.spec_width()
        &&& self.spec_pixels().spec_height() == self.spec_height()
        &&& self.spec_pixels().spec_stride() == self.spec_stride()
        &&& self.spec_pixels().bytes() == self.bytes()
    }

    pub closed spec fn glyph_cache_wf(self) -> bool {
        self.glyph_cache.wf()
    }

    /// Rows do not overlap: a full row of pixels fits inside the stride.
    pub open spec fn row_aligned(self) -> bool {
        4 * (self.spec_width() as int) <= self.spec_stride() as int
    }

    /// The two engines agree on geometry.
    pub open spec fn same_config(self, other: Framebuffer) -> bool {
        &&& self.spec_width() == other.spec_width()
        &&& self.spec_height() == other.spec_height()
        &&& self.spec_stride() == other.spec_stride()
        &&& self.spec_device_info() == other.spec_device_info()
    }

    /// Wraps an already mapped surface whose geometry has been probed.
    /// The geometry must be the fixed design target and the mapping must
    /// have exactly the probed buffer length; both are rejected before the
    /// surface is ever addressed.
    pub fn from_surface(surface: memmap2::MmapMut, info: DeviceInfo) -> (r: Result<
        Framebuffer,
        FramebufferError,
    >)
        ensures
            !info.valid() ==> r == Result::<Framebuffer, FramebufferError>::Err(
                capability_error(info),
            ),
            info.valid() && surface_bytes(surface).len() != info.buffer_size ==> r == Result::<
                Framebuffer,
                FramebufferError,
            >::Err(
                FramebufferError::BufferSizeMismatch {
                    expected: info.buffer_size as u64,
                    actual: sat_u64(surface_bytes(surface).len() as int),
                },
            ),
            r matches Ok(fb) ==> {
                &&& info.valid()
                &&& fb.wf()
                &&& fb.spec_device_info() == info
                &&& fb.bytes() == surface_bytes(surface)
                &&& fb.cache() == Map::<u64, Glyph>::empty()
                &&& forall|id: FontId| !fb.font_loaded(id)
            },
            r is Ok <==> info.valid() && surface_bytes(surface).len() == info.buffer_size,
    {
        if let Err(e) = info.validate() {
            return Err(e);
        }
        let len = surface_len(&surface);
        if len != info.buffer_size {
            return Err(
                FramebufferError::BufferSizeMismatch {
                    expected: info.buffer_size as u64,
                    actual: len as u64,
                },
            );
        }
        let stride: usize = info.line_length as usize;
        match PixelBuffer::new(surface, info.width, info.height, stride) {
            Ok(pixels) => Ok(
                Framebuffer {
                    pixels,
                    device_info: info,
                    fonts: FontRegistry::new(),
                    glyph_cache: GlyphCache::new(),
                },
            ),
            Err(e) => {
                proof {
                    assert(false);
                }
                Err(e)
            },
        }
    }

    /// Builds an engine over a fresh anonymous mapping of the probed buffer
    /// length: the same geometry checks, no device needed.
    pub fn new_offscreen(info: DeviceInfo) -> (r: Result<Framebuffer, FramebufferError>)
        ensures
            !info.valid() ==> r == Result::<Framebuffer, FramebufferError>::Err(
                capability_error(info),
            ),
            r matches Ok(fb) ==> {
                &&& info.valid()
                &&& fb.wf()
                &&& fb.spec_device_info() == info
                &&& fb.bytes().len() == info.buffer_size
                &&& fb.cache() == Map::<u64, Glyph>::empty()
                &&& forall|id: FontId| !fb.font_loaded(id)
            },
            info.valid() ==> (r matches Err(e) ==> e is DeviceError),
    {
        if let Err(e) = info.validate() {
            return Err(e);
        }
        let surface = match surface_map_anon(info.buffer_size) {
            Ok(m) => m,
            Err(e) => {
                return Err(e);
            },
        };
        match Framebuffer::from_surface(surface, info) {
            Ok(fb) => Ok(fb),
            Err(e) => {
                proof {
                    assert(false);
                }
                Err(e)
            },
        }
    }

    /// Marks a font slot as loaded.  The caller reads and parses the font
    /// resource; rendering only consults the slot.
    pub fn register_font(&mut self, font_id: FontId)
        requires
            old(self).wf(),
        ensures
            final(self).wf(),
            final(self).same_config(*old(self)),
            final(self).bytes() == old(self).bytes(),
            final(self).cache() == old(self).cache(),
            forall|id: FontId| final(self).font_loaded(id) <==> (old(self).font_loaded(id) || id
                == font_id),
    {
        self.fonts.mark_loaded(font_id);
    }

    /// Whether a font slot holds a loaded font.
    pub fn has_font(&self, font_id: FontId) -> (b: bool)
        ensures
            b == self.font_loaded(font_id),
    {
        self.fonts.contains(font_id)
    }

    /// Whether a glyph for this slot, character and size bucket is cached.
    pub fn glyph_cached(&self, font_id: FontId, ch: char, size_centis: u32) -> (b: bool)
        ensures
            b == self.cache().contains_key(glyph_key(font_id, ch, size_centis)),
    {
        self.glyph_cache.contains(font_id, ch, size_centis)
    }

    /// Stores a rasterized glyph in the cache, replacing any previous one
    /// for the same key.  A bitmap that does not match its dimensions is
    /// rejected.
    pub fn insert_glyph(&mut self, font_id: FontId, ch: char, size_centis: u32, glyph: Glyph) -> (
    ok: bool)
        requires
            old(self).wf(),
        ensures
            final(self).wf(),
            final(self).same_config(*old(self)),
            final(self).bytes() == old(self).bytes(),
            forall|id: FontId| final(self).font_loaded(id) == old(self).font_loaded(id),
            ok == glyph.wf(),
            ok ==> final(self).cache() == old(self).cache().insert(
                glyph_key(font_id, ch, size_centis),
                glyph,
            ),
            !ok ==> final(self).cache() == old(self).cache(),
    {
        self.glyph_cache.insert(font_id, ch, size_centis, glyph)
    }

    /// The characters of `text` that have no cached glyph at this size, in
    /// first-appearance order, each once; spaces need no glyph.
    #[verifier::loop_isolation(false)]
    pub fn glyphs_to_load(&self, text: &str, font_id: FontId, size_centis: u32) -> (missing: Vec<
        char,
    >)
        ensures
            forall|c: char|
                missing@.contains(c) <==> (text@.contains(c) && c != ' ' && !self.cache()
                    .contains_key(glyph_key(font_id, c, size_centis))),
            missing@.no_duplicates(),
    {
        let n = text.unicode_len();
        let mut missing: Vec<char> = Vec::new();
        let mut i: usize = 0;
        while i < n
            invariant
                n == text@.len(),
                0 <= i <= n,
                forall|c: char|
                    #[trigger] missing@.contains(c) <==> ((exists|j: int|
                        0 <= j < i && text@[j] == c) && c != ' ' && !self.cache().contains_key(
                        glyph_key(font_id, c, size_centis),
                    )),
                missing@.no_duplicates(),
            decreases n - i,
        {
            let ghost pre = missing@;
            let c = text.get_char(i);
            if c != ' ' && !self.glyph_cache.contains(font_id, c, size_centis) {
                let mut seen = false;
                let mut k: usize = 0;
                while k < missing.len()
                    invariant
                        0 <= k <= missing@.len(),
                        missing@ == pre,
                        seen <==> (exists|j: int| 0 <= j < k && missing@[j] == c),
                    decreases missing@.len() - k,
                {
                    if missing[k] == c {
                        seen = true;
                    }
                    k += 1;
                }
                if !seen {
                    missing.push(c);
                    proof {
                        assert forall|a: int, b: int|
                            0 <= a < b < missing@.len() implies missing@[a] != missing@[b] by {
                            if b < pre.len() {
                                assert(pre[a] == missing@[a] && pre[b] == missing@[b]);
                            } else {
                                assert(missing@[b] == c);
                                assert(!pre.contains(c));
                                assert(pre[a] == missing@[a]);
                            }
                        }
                        assert(missing@.no_duplicates());
                        assert forall|c2: char| #[trigger] missing@.contains(c2) implies (
                        pre.contains(c2) || c2 == c) by {
                            let j = choose|j: int|
                                0 <= j < missing@.len() && missing@[j] == c2;
                            if j < pre.len() {
                                assert(pre[j] == c2);
                            }
                        }
                        assert forall|c2: char| (pre.contains(c2) || c2 == c) implies (
                        #[trigger] missing@.contains(c2)) by {
                            if pre.contains(c2) {
                                let j = choose|j: int| 0 <= j < pre.len() && pre[j] == c2;
                                assert(missing@[j] == c2);
                            } else {
                                assert(missing@[pre.len() as int] == c2);
                            }
                        }
                    }
                }
            }
            proof {
                assert forall|c2: char| #[trigger] missing@.contains(c2) implies ((exists|j: int|
                    0 <= j < i + 1 && text@[j] == c2) && c2 != ' ' && !self.cache().contains_key(
                    glyph_key(font_id, c2, size_centis),
                )) by {
                    if pre.contains(c2) {
                        assert((exists|j: int| 0 <= j < i && text@[j] == c2));
                    } else {
                        assert(c2 == c);
                        assert(text@[i as int] == c2);
                    }
                }
                assert forall|c2: char| ((exists|j: int| 0 <= j < i + 1 && text@[j] == c2) && c2
                    != ' ' && !self.cache().contains_key(
                    glyph_key(font_id, c2, size_centis),
                )) implies #[trigger] missing@.contains(c2) by {
                    let j = choose|j: int| 0 <= j < i + 1 && text@[j] == c2;
                    if j < i {
                        assert(pre.contains(c2));
                    } else {
                        assert(c2 == text@[i as int]);
                    }
                }
            }
            i += 1;
        }
        proof {
            assert forall|c: char|
                #[trigger] missing@.contains(c) <==> (text@.contains(c) && c != ' ' && !self
                    .cache().contains_key(glyph_key(font_id, c, size_centis))) by {
                if text@.contains(c) {
                    let j = choose|j: int| 0 <= j < text@.len() && text@[j] == c;
                    assert(0 <= j < n);
                }
            }
        }
        missing
    }

    /// Writes one pixel through the compositing rule, bounds checked.
    pub fn set_pixel(&mut self, x: u16, y: u16, color: Color) -> (r: Result<(), FramebufferError>)
        requires
            old(self).wf(),
        ensures
            final(self).wf(),
            final(self).same_config(*old(self)),
            final(self).cache() == old(self).cache(),
            forall|id: FontId| final(self).font_loaded(id) == old(self).font_loaded(id),
            x >= old(self).spec_width() || y >= old(self).spec_height() ==> r == Result::<
                (),
                FramebufferError,
            >::Err(FramebufferError::InvalidCoordinate { x, y }) && final(self).bytes() == old(
                self,
            ).bytes(),
            x < old(self).spec_width() && y < old(self).spec_height() && pixel_offset(
                old(self).spec_stride() as int,
                x as int,
                y as int,
            ) + 4 > old(self).bytes().len() ==> r == Result::<(), FramebufferError>::Err(
                FramebufferError::InvalidCoordinate { x, y },
            ) && final(self).bytes() == old(self).bytes(),
            x < old(self).spec_width() && y < old(self).spec_height() && pixel_offset(
                old(self).spec_stride() as int,
                x as int,
                y as int,
            ) + 4 <= old(self).bytes().len() ==> r == Result::<(), FramebufferError>::Ok(())
                && final(self).bytes() == composite_pixel(
                old(self).bytes(),
                pixel_offset(old(self).spec_stride() as int, x as int, y as int),
                color,
            ),
    {
        self.pixels.set_pixel(x, y, color)
    }

    /// Reads one pixel back, bounds checked.
    pub fn get_pixel(&self, x: u16, y: u16) -> (r: Result<Color, FramebufferError>)
        requires
            self.wf(),
        ensures
            x >= self.spec_width() || y >= self.spec_height() ==> r == Result::<
                Color,
                FramebufferError,
            >::Err(FramebufferError::InvalidCoordinate { x, y }),
            x < self.spec_width() && y < self.spec_height() && pixel_offset(
                self.spec_stride() as int,
                x as int,
                y as int,
            ) + 4 <= self.bytes().len() ==> {
                let off = pixel_offset(self.spec_stride() as int, x as int, y as int);
                r == Result::<Color, FramebufferError>::Ok(
                    Color {
                        r: self.bytes()[off],
                        g: self.bytes()[off + 1],
                        b: self.bytes()[off + 2],
                        a: self.bytes()[off + 3],
                    },
                )
            },
    {
        self.pixels.get_pixel(x, y)
    }

    /// Fills every in-bounds pixel of every row with the color's channel
    /// bytes, the stored alpha forced to 255.
    pub fn clear_screen(&mut self, color: Color) -> (r: Result<(), FramebufferError>)
        requires
            old(self).wf(),
        ensures
            final(self).wf(),
            final(self).same_config(*old(self)),
            final(self).cache() == old(self).cache(),
            forall|id: FontId| final(self).font_loaded(id) == old(self).font_loaded(id),
            final(self).bytes() == fill_rows_upto(
                old(self).bytes(),
                old(self).spec_stride() as int,
                old(self).spec_width() as int,
                color,
                clear_rows(old(self).spec_pixels()),
            ),
            clear_rows(old(self).spec_pixels()) == old(self).spec_height() as int ==> r
                == Result::<(), FramebufferError>::Ok(()),
            clear_rows(old(self).spec_pixels()) < old(self).spec_height() as int ==> r
                == Result::<(), FramebufferError>::Err(
                FramebufferError::BufferSizeMismatch {
                    expected: sat_u64(
                        clear_rows(old(self).spec_pixels()) * (old(self).spec_stride() as int) + 4
                            * (old(self).spec_width() as int),
                    ),
                    actual: sat_u64(old(self).bytes().len() as int),
                },
            ),
    {
        self.pixels.clear(color)
    }

    /// Renders `text` at `position` with the font bound to `font_id`, the
    /// size given in hundredths of a pixel, and the text color.  Fails with
    /// `FontNotLoaded` if the slot is empty and with `GlyphNotCached` if
    /// some needed glyph has not been cached, both before any pixel is
    /// touched.  Otherwise the string is laid out on a shared baseline and
    /// each glyph is composited into the buffer, clipped at the device
    /// bounds; success always means the whole string was rendered.  On a
    /// device whose rows do not overlap the call then cannot fail; where
    /// they do, the first pixel whose byte span leaves the mapping aborts
    /// the call as an invalid coordinate.
    #[verifier::loop_isolation(false)]
    pub fn write_text(
        &mut self,
        text: &str,
        position: Point,
        size_centis: u32,
        color: Color,
        font_id: FontId,
    ) -> (r: Result<(), FramebufferError>)
        requires
            old(self).wf(),
        ensures
            final(self).wf(),
            final(self).same_config(*old(self)),
            final(self).cache() == old(self).cache(),
            forall|id: FontId| final(self).font_loaded(id) == old(self).font_loaded(id),
            !old(self).font_loaded(font_id) ==> r == Result::<(), FramebufferError>::Err(
                FramebufferError::FontNotLoaded(font_id),
            ) && final(self).bytes() == old(self).bytes(),
            r matches Err(e) ==> (e is FontNotLoaded ==> !old(self).font_loaded(font_id)),
            old(self).font_loaded(font_id) ==> (first_missing_glyph(
                old(self).cache(),
                font_id,
                size_centis,
                text@,
            ) matches Some(c) ==> r == Result::<(), FramebufferError>::Err(
                FramebufferError::GlyphNotCached(c),
            ) && final(self).bytes() == old(self).bytes()),
            old(self).font_loaded(font_id) && first_missing_glyph(
                old(self).cache(),
                font_id,
                size_centis,
                text@,
            ) is None && r == Result::<(), FramebufferError>::Ok(()) ==> final(self).bytes()
                == render_text(
                old(self).bytes(),
                text@,
                old(self).cache(),
                font_id,
                size_centis,
                position,
                color,
                old(self).spec_width() as int,
                old(self).spec_height() as int,
                old(self).spec_stride() as int,
            ),
            old(self).font_loaded(font_id) && first_missing_glyph(
                old(self).cache(),
                font_id,
                size_centis,
                text@,
            ) is None && old(self).row_aligned() ==> r == Result::<(), FramebufferError>::Ok(()),
            old(self).font_loaded(font_id) && first_missing_glyph(
                old(self).cache(),
                font_id,
                size_centis,
                text@,
            ) is None ==> (r matches Err(e) ==> e is InvalidCoordinate),
    {
        if !self.fonts.contains(font_id) {
            return Err(FramebufferError::FontNotLoaded(font_id));
        }
        let ghost chars = text@;
        let ghost cache0 = self.cache();
        let ghost w = self.spec_width() as int;
        let ghost h = self.spec_height() as int;
        let ghost st = self.spec_stride() as int;
        let ghost aligned = old(self).row_aligned();
        let n = text.unicode_len();

        let mut max_ascent: i64 = 0;
        let mut i: usize = 0;
        while i < n
            invariant
                0 <= i <= n,
                forall|j: int|
                    0 <= j < i ==> (chars[j] == ' ' || cache0.contains_key(
                        #[trigger] glyph_key(font_id, chars[j], size_centis),
                    )),
                max_ascent_of(cache0, font_id, size_centis, chars) == max_ascent_from(
                    cache0,
                    font_id,
                    size_centis,
                    chars,
                    i as int,
                    max_ascent as int,
                ),
                0 <= max_ascent <= 0x1_8000_0000,
            decreases n - i,
        {
            let c = text.get_char(i);
            if c != ' ' {
                match self.glyph_cache.lookup(font_id, c, size_centis) {
                    Some(g) => {
                        proof {
                            assert(self.cache()[glyph_key(font_id, c, size_centis)].wf());
                        }
                        let ascent: i64 = (g.height as i64) + (g.ymin as i64);
                        if ascent > max_ascent {
                            max_ascent = ascent;
                        }
                    },
                    None => {
                        proof {
                            lemma_first_missing_at(
                                cache0,
                                font_id,
                                size_centis,
                                chars,
                                i as int,
                            );
                        }
                        return Err(FramebufferError::GlyphNotCached(c));
                    },
                }
            }
            i += 1;
        }
        proof {
            lemma_first_missing_none(cache0, font_id, size_centis, chars);
        }
        let ghost s0 = self.bytes();
        let ghost masc = max_ascent as int;
        let baseline: i64 = position.y as i64;
        let mut cursor: i64 = (position.x as i64) * 100;
        proof {
            assert(chars.skip(0) =~= chars);
        }
        let mut i: usize = 0;
        while i < n
            invariant
                self.wf(),
                self.same_config(*old(self)),
                self.cache() == cache0,
                forall|id: FontId| self.font_loaded(id) == old(self).font_loaded(id),
                0 <= i <= n,
                0 <= cursor <= 1_000_000_000_000_000,
                render_chars(
                    s0,
                    chars,
                    cache0,
                    font_id,
                    size_centis,
                    (position.x as int) * 100,
                    baseline as int,
                    masc,
                    color,
                    w,
                    h,
                    st,
                ) == render_chars(
                    self.bytes(),
                    chars.skip(i as int),
                    cache0,
                    font_id,
                    size_centis,
                    cursor as int,
                    baseline as int,
                    masc,
                    color,
                    w,
                    h,
                    st,
                ),
            decreases n - i,
        {
            let c = text.get_char(i);
            let ghost pre = self.bytes();
            proof {
                assert(chars.skip(i as int)[0] == chars[i as int]);
                assert(chars.skip(i as int).drop_first() =~= chars.skip(i as int + 1));
            }
            if c == ' ' {
                let adv: i64 = ((size_centis as u64) * 3 / 10) as i64;
                cursor = add_clamped(cursor, adv);
            } else {
                match self.glyph_cache.lookup(font_id, c, size_centis) {
                    Some(g) => {
                        proof {
                            assert(self.cache()[glyph_key(font_id, c, size_centis)].wf());
                        }
                        let gx: i64 = round_centis_exec(cursor + (g.xmin as i64) * 100);
                        let char_ascent: i64 = (g.height as i64) + (g.ymin as i64);
                        let gy: i64 = baseline - max_ascent + (max_ascent - char_ascent);
                        let blit_result = blit_glyph_into(&mut self.pixels, g, gx, gy, color);
                        match blit_result {
                            Ok(()) => {
                                proof {
                                    assert(blit_result is Ok);
                                    assert(self.bytes() == blit_glyph(
                                        pre,
                                        cache0[glyph_key(font_id, c, size_centis)],
                                        gx as int,
                                        gy as int,
                                        color,
                                        w,
                                        h,
                                        st,
                                    ));
                                }
                            },
                            Err(e) => {
                                proof {
                                    assert(!aligned);
                                }
                                return Err(e);
                            },
                        }
                        cursor = add_clamped(cursor, g.advance_centis as i64);
                    },
                    None => {
                        proof {
                            assert(false);
                        }
                        return Err(FramebufferError::GlyphNotCached(c));
                    },
                }
            }
            i += 1;
        }
        proof {
            assert(chars.skip(n as int) =~= Seq::<char>::empty());
        }
        Ok(())
    }

    /// Reserved for future buffering; every write already reaches the
    /// device, so this does nothing and cannot fail.
    pub fn flush(&self) -> (r: Result<(), FramebufferError>)
        ensures
            r == Result::<(), FramebufferError>::Ok(()),
    {
        Ok(())
    }

    /// The geometry the engine was built with.
    pub fn device_info(&self) -> (info: &DeviceInfo)
        ensures
            *info == self.spec_device_info(),
    {
        &self.device_info
    }
}


} // verus!
