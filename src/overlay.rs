//! Text overlay geometry: one quad per glyph, drawn as triangle strips split
//! by primitive restart.
use vstd::prelude::*;

use crate::font::{Font, GLYPH_WIDTH};

verus! {

/// The index that ends a triangle strip.
pub const PRIMITIVE_RESTART: u16 = 0xffff;

/// Most glyphs one batch holds: the last one's indices stay below
/// `PRIMITIVE_RESTART`.
pub const MAX_GLYPHS: usize = 16383;

/// A glyph's screen rectangle in pixels, and its code in the atlas.
#[derive(Clone, Copy, Debug, PartialEq, Eq)]
pub struct GlyphQuad {
    pub x1: u64,
    pub x2: u64,
    pub y1: u64,
    pub y2: u64,
    pub code: u32,
}

/// Glyph `i` of a string placed at `(x, y)`, `scale` times the font size.
pub open spec fn glyph_quad(x: u32, y: u32, scale: u32, height: u32, i: int, c: char) -> GlyphQuad {
    GlyphQuad {
        x1: (x + i * GLYPH_WIDTH * scale) as u64,
        x2: (x + (i + 1) * GLYPH_WIDTH * scale) as u64,
        y1: y as u64,
        y2: (y + height * scale) as u64,
        code: c as u32,
    }
}

/// The indices of `n` quads: `4g, 4g+1, 4g+2, 4g+3` then a restart, for each
/// quad `g`.
pub open spec fn strip_indices(n: nat) -> Seq<u16> {
    Seq::new(
        5 * n,
        |k: int|
            if k % 5 == 4 {
                PRIMITIVE_RESTART
            } else {
                (4 * (k / 5) + k % 5) as u16
            },
    )
}

/// Geometry of the text to show: the batch being built, and how many
/// indices the batch last loaded holds.
pub struct TextOverlay {
    pub height: u32,
    pub length: u32,
    pub quads: Vec<GlyphQuad>,
    pub indices: Vec<u16>,
    pub loaded: usize,
}

impl TextOverlay {
    pub open spec fn wf(&self) -> bool {
        &&& self.quads@.len() <= MAX_GLYPHS
        &&& self.indices@ == strip_indices(self.quads@.len())
    }

    /// An overlay for `font`, with no text yet.
    pub fn new(font: &Font) -> (r: TextOverlay)
        ensures
            r.wf(),
            r.height == font.height,
            r.length == font.length,
            r.quads@.len() == 0,
            r.loaded == 0,
    {
        let r = TextOverlay {
            height: font.height,
            length: font.length,
            quads: Vec::new(),
            indices: Vec::new(),
            loaded: 0,
        };
        proof {
            assert(r.indices@ =~= strip_indices(0));
        }
        r
    }

    /// Size of the glyph atlas in pixels: one column of `length` glyphs.
    pub fn atlas_size(&self) -> (r: (u32, u64))
        ensures
            r.0 == GLYPH_WIDTH,
            r.1 == self.length * self.height,
    {
        assert(self.length as u64 * self.height as u64 <= 0xffff_fffe_0000_0001u64)
            by (nonlinear_arith)
            requires
                self.length <= 0xffff_ffffu32,
                self.height <= 0xffff_ffffu32,
        ;
        (GLYPH_WIDTH, self.length as u64 * self.height as u64)
    }

    /// The rows of the atlas that glyph `code` occupies: from `code * height`
    /// up to the next glyph's first row.
    pub fn glyph_band(&self, code: u32) -> (r: (u64, u64))
        ensures
            r.0 == code * self.height,
            r.1 == (code + 1) * self.height,
    {
        assert((code as u64 + 1) * self.height as u64 <= 0x1_0000_0000u64 * 0xffff_ffffu64)
            by (nonlinear_arith)
            requires
                code <= 0xffff_ffffu32,
                self.height <= 0xffff_ffffu32,
        ;
        assert(code as u64 * self.height as u64 <= (code as u64 + 1) * self.height as u64)
            by (nonlinear_arith);
        (code as u64 * self.height as u64, (code as u64 + 1) * self.height as u64)
    }

    /// Adds the glyphs of `text` at `(x, y)`, `scale` times the font size,
    /// as far as the batch has room.
    pub fn add_text(&mut self, x: u32, y: u32, scale: u32, text: &[char])
        requires
            old(self).wf(),
        ensures
            final(self).wf(),
            final(self).height == old(self).height,
            final(self).length == old(self).length,
            final(self).loaded == old(self).loaded,
            ({
                let room = MAX_GLYPHS - old(self).quads@.len();
                let added = if text@.len() < room { text@.len() } else { room as nat };
                final(self).quads@ == old(self).quads@ + Seq::new(
                    added,
                    |i: int| glyph_quad(x, y, scale, old(self).height, i, text@[i]),
                )
            }),
    {
        let ghost before = self.quads@;
        let base = self.quads.len();
        let mut i: usize = 0;
        assert(self.height as u64 * scale as u64 <= 0xffff_fffe_0000_0001u64) by (nonlinear_arith)
            requires
                self.height <= 0xffff_ffffu32,
                scale <= 0xffff_ffffu32,
        ;
        let y2: u64 = y as u64 + self.height as u64 * scale as u64;
        while i < text.len() && self.quads.len() < MAX_GLYPHS
            invariant
                before == old(self).quads@,
                base == before.len(),
                base <= MAX_GLYPHS,
                i <= text@.len(),
                self.quads@.len() == base + i,
                self.quads@.len() <= MAX_GLYPHS,
                self.height == old(self).height,
                self.length == old(self).length,
                self.loaded == old(self).loaded,
                y2 == y + self.height * scale,
                self.quads@ == before + Seq::new(
                    i as nat,
                    |k: int| glyph_quad(x, y, scale, old(self).height, k, text@[k]),
                ),
                self.indices@ == strip_indices(self.quads@.len()),
            decreases text@.len() - i,
        {
            let g = self.quads.len();
            let w: u64 = 8 * scale as u64;
            proof {
                assert((i as int) * w <= 16383 * 8 * 0xffff_ffff && (i + 1) * w <= 16384 * 8
                    * 0xffff_ffff) by (nonlinear_arith)
                    requires
                        i < 16383,
                        w == 8 * scale,
                        scale <= 0xffff_ffffu32,
                ;
                assert((i as int) * w == (i as int) * 8 * scale && (i + 1) * w == ((i + 1) as int)
                    * 8 * scale) by (nonlinear_arith)
                    requires
                        w == 8 * scale,
                ;
            }
            let x1: u64 = x as u64 + i as u64 * w;
            let x2: u64 = x as u64 + (i as u64 + 1) * w;
            let q = GlyphQuad { x1, x2, y1: y as u64, y2, code: text[i] as u32 };
            self.quads.push(q);
            let first: u16 = (4 * g) as u16;
            self.indices.push(first);
            self.indices.push(first + 1);
            self.indices.push(first + 2);
            self.indices.push(first + 3);
            self.indices.push(PRIMITIVE_RESTART);
            proof {
                assert(self.quads@ =~= before + Seq::new(
                    (i + 1) as nat,
                    |k: int| glyph_quad(x, y, scale, old(self).height, k, text@[k]),
                ));
                assert forall|k: int| 0 <= k < 5 * (g + 1) implies #[trigger] self.indices@[k]
                    == strip_indices((g + 1) as nat)[k] by {
                    if k >= 5 * g {
                        assert(k / 5 == g && k % 5 == k - 5 * g);
                    } else {
                        assert(self.indices@[k] == strip_indices(g as nat)[k]);
                    }
                }
                assert(self.indices@ =~= strip_indices((g + 1) as nat));
            }
            i = i + 1;
        }
    }

    /// Hands out the batch built so far for upload, and starts a new one.
    pub fn load_text(&mut self) -> (r: (Vec<GlyphQuad>, Vec<u16>))
        requires
            old(self).wf(),
        ensures
            final(self).wf(),
            r.0@ == old(self).quads@,
            r.1@ == old(self).indices@,
            final(self).quads@.len() == 0,
            final(self).loaded == old(self).indices@.len(),
            final(self).height == old(self).height,
            final(self).length == old(self).length,
    {
        let mut quads: Vec<GlyphQuad> = Vec::new();
        let mut indices: Vec<u16> = Vec::new();
        std::mem::swap(&mut quads, &mut self.quads);
        std::mem::swap(&mut indices, &mut self.indices);
        self.loaded = indices.len();
        proof {
            assert(self.indices@ =~= strip_indices(0));
        }
        (quads, indices)
    }

    /// Whether the loaded batch has any glyph to draw.
    pub fn has_text(&self) -> (r: bool)
        ensures
            r == (self.loaded > 0),
    {
        self.loaded > 0
    }
}

} // verus!
