//! Font slots, rasterized glyphs, and the glyph cache.
//!
//! A glyph is a coverage bitmap together with its placement metrics.  The
//! cache memoizes glyphs by font slot, character and size bucket; entries
//! are inserted lazily and never evicted.

use vstd::prelude::*;
use std::collections::HashMap;

verus! {

broadcast use vstd::std_specs::hash::group_hash_axioms;

/// Logical identifier of a font slot.  Loading a font binds it to a slot;
/// one font per slot, and loading again replaces the previous binding.
#[derive(Debug, Clone, Copy, PartialEq, Eq, Hash, Structural)]
pub enum FontId {
    Regular,
}

impl FontId {
    /// The font resource read for this slot when the caller gives no path.
    pub fn default_path(&self) -> (path: &'static str)
        ensures
            path@ == "fonts/DidactGothic-Regular.ttf"@,
    {
        match self {
            FontId::Regular => "fonts/DidactGothic-Regular.ttf",
        }
    }

    /// Index of the slot inside a packed cache key; stays below 2^10.
    pub open spec fn spec_index(self) -> u64 {
        match self {
            FontId::Regular => 0,
        }
    }

    pub fn index(&self) -> (i: u64)
        ensures
            i == self.spec_index(),
            i < 1024,
    {
        match self {
            FontId::Regular => 0,
        }
    }
}

/// A rasterized glyph: coverage bitmap plus placement metrics.  Sizes and
/// advances are held in plain integers; the advance is in hundredths of a
/// pixel, matching the size bucket resolution.
#[derive(Debug)]
pub struct Glyph {
    /// Bitmap width in pixels.
    pub width: usize,
    /// Bitmap height in pixels.
    pub height: usize,
    /// Horizontal offset of the bitmap from the cursor, in pixels.
    pub xmin: i32,
    /// Vertical offset of the bitmap bottom from the baseline, in pixels.
    pub ymin: i32,
    /// Advance width in hundredths of a pixel.
    pub advance_centis: u32,
    /// Row-major coverage values, one byte per bitmap pixel.
    pub bitmap: Vec<u8>,
}

impl Glyph {
    /// The bitmap holds exactly one coverage byte per pixel, and the
    /// dimensions fit 32 bits, far beyond any size a display could show.
    pub open spec fn wf(self) -> bool {
        &&& self.bitmap@.len() == (self.width as int) * (self.height as int)
        &&& self.width <= 0xFFFF_FFFF
        &&& self.height <= 0xFFFF_FFFF
    }

    /// Ascent of this glyph above the baseline.
    pub open spec fn ascent(self) -> int {
        self.height as int + self.ymin as int
    }
}

/// The packed cache key: font slot, character and size bucket share one
/// 64-bit word.  The character takes 21 bits, the size bucket 32, the slot
/// the bits above them.
pub open spec fn glyph_key(font_id: FontId, ch: char, size_centis: u32) -> u64 {
    (font_id.spec_index() * 0x20_0000_0000_0000 + (ch as u64) * 0x1_0000_0000
        + size_centis as u64) as u64
}

/// Packing is injective: distinct (slot, character, bucket) triples give
/// distinct keys.
pub proof fn lemma_glyph_key_injective(
    f1: FontId,
    c1: char,
    s1: u32,
    f2: FontId,
    c2: char,
    s2: u32,
)
    requires
        glyph_key(f1, c1, s1) == glyph_key(f2, c2, s2),
    ensures
        f1 == f2 && c1 == c2 && s1 == s2,
{
    let a1 = f1.spec_index() as int * 0x20_0000_0000_0000 + (c1 as int) * 0x1_0000_0000
        + s1 as int;
    let a2 = f2.spec_index() as int * 0x20_0000_0000_0000 + (c2 as int) * 0x1_0000_0000
        + s2 as int;
    assert((c1 as int) < 0x110000);
    assert((c2 as int) < 0x110000);
    assert(f1.spec_index() == 0 && f2.spec_index() == 0);
    assert(a1 < 0x20_0000_0000_0000 && a2 < 0x20_0000_0000_0000) by (nonlinear_arith)
        requires
            f1.spec_index() == 0,
            f2.spec_index() == 0,
            (c1 as int) < 0x110000,
            (c2 as int) < 0x110000,
            (s1 as int) < 0x1_0000_0000,
            (s2 as int) < 0x1_0000_0000,
            a1 == f1.spec_index() as int * 0x20_0000_0000_0000 + (c1 as int) * 0x1_0000_0000
                + s1 as int,
            a2 == f2.spec_index() as int * 0x20_0000_0000_0000 + (c2 as int) * 0x1_0000_0000
                + s2 as int;
    assert(a1 == a2);
    assert((c1 as int) * 0x1_0000_0000 + s1 as int == (c2 as int) * 0x1_0000_0000 + s2 as int);
    assert((c1 as int) == (c2 as int) && (s1 as int) == (s2 as int)) by (nonlinear_arith)
        requires
            (c1 as int) * 0x1_0000_0000 + s1 as int == (c2 as int) * 0x1_0000_0000 + s2 as int,
            0 <= (s1 as int) < 0x1_0000_0000,
            0 <= (s2 as int) < 0x1_0000_0000,
            0 <= c1 as int,
            0 <= c2 as int;
    assert(c1 == c2) by {
        assert((c1 as int) == (c2 as int));
    }
}

/// Computes the packed key in executable code.
pub fn glyph_key_exec(font_id: FontId, ch: char, size_centis: u32) -> (k: u64)
    ensures
        k == glyph_key(font_id, ch, size_centis),
{
    let slot = font_id.index();
    let c = ch as u64;
    proof {
        assert(c < 0x110000);
        assert(slot * 0x20_0000_0000_0000 + c * 0x1_0000_0000 + (size_centis as u64)
            < 0x8000_0000_0000_0000) by (nonlinear_arith)
            requires
                slot < 1024,
                c < 0x110000,
                (size_centis as u64) < 0x1_0000_0000;
    }
    slot * 0x20_0000_0000_0000 + c * 0x1_0000_0000 + (size_centis as u64)
}

/// The glyph cache: a table from packed key to rasterized glyph.  It grows
/// for the lifetime of the engine; the practical character and size domain
/// is small and fixed, so no eviction is needed.
#[derive(Debug)]
pub struct GlyphCache {
    entries: HashMap<u64, Glyph>,
}

impl GlyphCache {
    /// The cache contents, keyed by packed key.
    pub closed spec fn view(self) -> Map<u64, Glyph> {
        self.entries@
    }

    /// Every cached glyph is well formed.
    pub open spec fn wf(self) -> bool {
        forall|k: u64| self.view().contains_key(k) ==> (#[trigger] self.view()[k]).wf()
    }

    pub fn new() -> (cache: GlyphCache)
        ensures
            cache.view() == Map::<u64, Glyph>::empty(),
            cache.wf(),
    {
        GlyphCache { entries: HashMap::new() }
    }

    /// Whether a glyph for this slot, character and size bucket is cached.
    pub fn contains(&self, font_id: FontId, ch: char, size_centis: u32) -> (b: bool)
        ensures
            b == self.view().contains_key(glyph_key(font_id, ch, size_centis)),
    {
        let k = glyph_key_exec(font_id, ch, size_centis);
        self.entries.contains_key(&k)
    }

    /// The cached glyph for this slot, character and size bucket, if any.
    pub fn lookup(&self, font_id: FontId, ch: char, size_centis: u32) -> (g: Option<&Glyph>)
        ensures
            match g {
                Some(glyph) => self.view().contains_key(glyph_key(font_id, ch, size_centis))
                    && *glyph == self.view()[glyph_key(font_id, ch, size_centis)],
                None => !self.view().contains_key(glyph_key(font_id, ch, size_centis)),
            },
    {
        let k = glyph_key_exec(font_id, ch, size_centis);
        self.entries.get(&k)
    }

    /// Stores a glyph for this slot, character and size bucket, replacing any
    /// previous entry.  A bitmap that does not match its stated dimensions is
    /// rejected and the cache is left unchanged.
    pub fn insert(&mut self, font_id: FontId, ch: char, size_centis: u32, glyph: Glyph) -> (ok:
        bool)
        requires
            old(self).wf(),
        ensures
            final(self).wf(),
            ok == glyph.wf(),
            ok ==> final(self).view() == old(self).view().insert(
                glyph_key(font_id, ch, size_centis),
                glyph,
            ),
            !ok ==> final(self).view() == old(self).view(),
    {
        let len = glyph.bitmap.len();
        let wf = glyph.width <= 0xFFFF_FFFF && glyph.height <= 0xFFFF_FFFF && match glyph
            .width
            .checked_mul(glyph.height) {
            Some(count) => len == count,
            None => false,
        };
        proof {
            assert(wf == glyph.wf());
        }
        if wf {
            let k = glyph_key_exec(font_id, ch, size_centis);
            self.entries.insert(k, glyph);
            proof {
                assert forall|k2: u64| self.entries@.contains_key(k2) implies (
                #[trigger] self.entries@[k2]).wf() by {
                    if k2 != k {
                        assert(old(self).view().contains_key(k2));
                        assert((old(self).view()[k2]).wf());
                        assert(self.entries@[k2] == old(self).view()[k2]);
                    }
                }
            }
            true
        } else {
            false
        }
    }
}

/// Records which font slots currently hold a loaded font.  The font data
/// itself lives with the caller that parses font resources; rendering only
/// needs to know whether a slot is bound.
#[derive(Debug)]
pub struct FontRegistry {
    loaded: Vec<FontId>,
}

impl FontRegistry {
    /// Whether a slot holds a loaded font.
    pub closed spec fn is_loaded(self, font_id: FontId) -> bool {
        self.loaded@.contains(font_id)
    }

    pub fn new() -> (reg: FontRegistry)
        ensures
            forall|id: FontId| !reg.is_loaded(id),
    {
        let reg = FontRegistry { loaded: Vec::new() };
        proof {
            assert(forall|id: FontId| !reg.loaded@.contains(id));
        }
        reg
    }

    pub fn contains(&self, font_id: FontId) -> (b: bool)
        ensures
            b == self.is_loaded(font_id),
    {
        let mut i: usize = 0;
        while i < self.loaded.len()
            invariant
                0 <= i <= self.loaded@.len(),
                forall|j: int| 0 <= j < i ==> self.loaded@[j] != font_id,
            decreases self.loaded@.len() - i,
        {
            if self.loaded[i] == font_id {
                return true;
            }
            i += 1;
        }
        false
    }

    /// Marks a slot as holding a loaded font; marking twice is harmless.
    pub fn mark_loaded(&mut self, font_id: FontId)
        ensures
            forall|id: FontId| final(self).is_loaded(id) <==> (old(self).is_loaded(id) || id
                == font_id),
    {
        let already = self.contains(font_id);
        if !already {
            let ghost prior = self.loaded@;
            self.loaded.push(font_id);
            proof {
                assert forall|id: FontId| self.loaded@.contains(id) implies (prior.contains(id)
                    || id == font_id) by {
                    let j = choose|j: int|
                        0 <= j < self.loaded@.len() && self.loaded@[j] == id;
                    if j < prior.len() {
                        assert(prior[j] == id);
                    }
                }
                assert forall|id: FontId| (prior.contains(id) || id == font_id) implies self
                    .loaded@.contains(id) by {
                    if id == font_id {
                        assert(self.loaded@[prior.len() as int] == id);
                    } else {
                        let j = choose|j: int| 0 <= j < prior.len() && prior[j] == id;
                        assert(self.loaded@[j] == id);
                    }
                }
            }
        }
    }
}

} // verus!
