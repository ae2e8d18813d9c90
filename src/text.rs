use vstd::prelude::*;
use crate::canvas::{Canvas, CanvasView, blend_all};
use crate::color::Color;

verus! {

/// What a glyph mask holds: where its box lies relative to the pen origin
/// of the line, and its ink coverage (0 to 255) in row-major order.
pub ghost struct GlyphView {
    pub left: int,
    pub top: int,
    pub width: nat,
    pub height: nat,
    pub coverage: Seq<u8>,
}

/// The rasterized ink of one glyph, placed relative to a line whose pen
/// starts at `x = 0` with its baseline at the font's ascent.
pub struct GlyphMask {
    left: i32,
    top: i32,
    width: u32,
    height: u32,
    coverage: Vec<u8>,
}

impl View for GlyphMask {
    type V = GlyphView;

    closed spec fn view(&self) -> GlyphView {
        GlyphView {
            left: self.left as int,
            top: self.top as int,
            width: self.width as nat,
            height: self.height as nat,
            coverage: self.coverage@,
        }
    }
}

impl GlyphMask {
    #[verifier::type_invariant]
    spec fn inv(&self) -> bool {
        self.coverage@.len() == self.width * self.height
    }

    /// A mask whose box has its top-left corner at `(left, top)`; `None`
    /// unless `coverage` holds exactly `width * height` values.
    pub fn new(left: i32, top: i32, width: u32, height: u32, coverage: Vec<u8>) -> (r: Option<GlyphMask>)
        ensures
            r is Some <==> coverage@.len() == width * height,
            r matches Some(g) ==> g@ == (GlyphView {
                left: left as int,
                top: top as int,
                width: width as nat,
                height: height as nat,
                coverage: coverage@,
            }),
    {
        assert(width as int * height as int <= 0xffff_ffff * 0xffff_ffff) by (nonlinear_arith)
            requires
                width <= 0xffff_ffff,
                height <= 0xffff_ffff,
        ;
        if width as u64 * height as u64 == coverage.len() as u64 {
            Some(GlyphMask { left, top, width, height, coverage })
        } else {
            None
        }
    }

    pub fn left(&self) -> (r: i32)
        ensures
            r == self@.left,
    {
        self.left
    }

    pub fn top(&self) -> (r: i32)
        ensures
            r == self@.top,
    {
        self.top
    }

    pub fn width(&self) -> (r: u32)
        ensures
            r == self@.width,
            self@.coverage.len() == self@.width * self@.height,
            self@.coverage.len() <= usize::MAX,
    {
        proof {
            use_type_invariant(self);
        }
        // A vector's length always fits in `usize`.
        let _ = self.coverage.len();
        self.width
    }

    pub fn height(&self) -> (r: u32)
        ensures
            r == self@.height,
            self@.coverage.len() == self@.width * self@.height,
    {
        proof {
            use_type_invariant(self);
        }
        self.height
    }

    /// The coverage at row-major position `i` of the box.
    pub fn coverage_at(&self, i: usize) -> (r: u8)
        requires
            i < self@.coverage.len(),
        ensures
            r == self@.coverage[i as int],
    {
        self.coverage[i]
    }
}

/// The alpha of a pixel with ink coverage `coverage` drawn with a fill of
/// alpha `alpha`: `coverage · alpha / 255`, rounded down.
pub open spec fn ink_alpha(coverage: u8, alpha: u8) -> u8 {
    (coverage as int * alpha as int / 255) as u8
}

/// The pixels one glyph composites when its line's pen origin is at
/// `(ox, oy)`, in row-major order over its box.
pub open spec fn glyph_plots(g: GlyphView, ox: int, oy: int, fill: Color) -> Seq<(int, int, Color)> {
    Seq::new(
        g.width * g.height,
        |i: int|
            (
                ox + g.left + i % (g.width as int),
                oy + g.top + i / (g.width as int),
                Color { a: ink_alpha(g.coverage[i], fill.a), ..fill },
            ),
    )
}

/// The pixels a run of glyphs composites, glyph after glyph.
pub open spec fn run_plots(glyphs: Seq<GlyphView>, ox: int, oy: int, fill: Color) -> Seq<(int, int, Color)>
    decreases glyphs.len(),
{
    if glyphs.len() == 0 {
        Seq::empty()
    } else {
        run_plots(glyphs.drop_last(), ox, oy, fill) + glyph_plots(glyphs.last(), ox, oy, fill)
    }
}

pub open spec fn glyph_views(glyphs: Seq<GlyphMask>) -> Seq<GlyphView> {
    glyphs.map_values(|g: GlyphMask| g@)
}

/// The canvas after drawing a run of glyphs so that the first glyph's left
/// edge falls on `x` and the line's top on `y`.
pub open spec fn text_drawn(before: CanvasView, glyphs: Seq<GlyphView>, x: int, y: int, fill: Color) -> CanvasView {
    if fill.a == 0 || glyphs.len() == 0 {
        before
    } else {
        blend_all(before, run_plots(glyphs, x - glyphs[0].left, y, fill))
    }
}

/// Composites `fill`, scaled by each glyph's coverage, over the pixels of a
/// laid-out run of glyphs. The first glyph's left edge lands on `top_left.0`
/// and the line's top on `top_left.1`. An empty run, or a transparent fill,
/// changes nothing.
pub fn draw_text_mut(image: &mut Canvas, top_left: (i32, i32), glyphs: &Vec<GlyphMask>, fill: Color)
    ensures
        final(image)@ == text_drawn(old(image)@, glyph_views(glyphs@), top_left.0 as int, top_left.1 as int, fill),
        glyphs@.len() == 0 ==> final(image)@ == old(image)@,
        fill.a == 0 ==> final(image)@ == old(image)@,
{
    if fill.a == 0 || glyphs.len() == 0 {
        return;
    }
    let width = image.width();
    let height = image.height();
    let ghost before = image@;
    let ghost views = glyph_views(glyphs@);
    let ox: i64 = top_left.0 as i64 - glyphs[0].left() as i64;
    let oy: i64 = top_left.1 as i64;
    let mut k: usize = 0;
    while k < glyphs.len()
        invariant
            0 <= k <= glyphs@.len(),
            views == glyph_views(glyphs@),
            width == before.width,
            height == before.height,
            image@.same_size(before),
            image@.wf(),
            -0x1_0000_0000 <= ox <= 0x1_0000_0000,
            -0x8000_0000 <= oy < 0x8000_0000,
            image@ == blend_all(before, run_plots(views.take(k as int), ox as int, oy as int, fill)),
        decreases glyphs@.len() - k,
    {
        let g = &glyphs[k];
        let gw = g.width();
        let gh = g.height();
        let gx0: i64 = ox + g.left() as i64;
        let gy0: i64 = oy + g.top() as i64;
        let ghost gv = g@;
        let ghost done_before = run_plots(views.take(k as int), ox as int, oy as int, fill);
        let ghost plots = glyph_plots(gv, ox as int, oy as int, fill);
        proof {
            assert(views[k as int] == gv);
        }
        let mut row: u32 = 0;
        while row < gh
            invariant
                0 <= row <= gh,
                gw == gv.width,
                gh == gv.height,
                gv.coverage.len() == gv.width * gv.height,
                gv.coverage.len() <= usize::MAX,
                gv == g@,
                gx0 == ox + gv.left,
                gy0 == oy + gv.top,
                width == before.width,
                height == before.height,
                image@.same_size(before),
                image@.wf(),
                -0x1_0000_0000 <= ox <= 0x1_0000_0000,
                -0x8000_0000 <= oy < 0x8000_0000,
                plots == glyph_plots(gv, ox as int, oy as int, fill),
                image@ == blend_all(before, done_before + plots.take(row * gw)),
            decreases gh - row,
        {
            let mut col: u32 = 0;
            while col < gw
                invariant
                    0 <= row < gh,
                    0 <= col <= gw,
                    gw == gv.width,
                    gh == gv.height,
                    gv.coverage.len() == gv.width * gv.height,
                    gv.coverage.len() <= usize::MAX,
                    gv == g@,
                    gx0 == ox + gv.left,
                    gy0 == oy + gv.top,
                    width == before.width,
                    height == before.height,
                    image@.same_size(before),
                    image@.wf(),
                    -0x1_0000_0000 <= ox <= 0x1_0000_0000,
                    -0x8000_0000 <= oy < 0x8000_0000,
                    plots == glyph_plots(gv, ox as int, oy as int, fill),
                    image@ == blend_all(before, done_before + plots.take(row * gw + col)),
                decreases gw - col,
            {
                let ghost i: int = row * gw + col;
                proof {
                    assert(0 <= i < gw * gh) by (nonlinear_arith)
                        requires
                            i == row * gw + col,
                            col < gw,
                            row < gh,
                    ;
                    vstd::arithmetic::div_mod::lemma_fundamental_div_mod_converse(i, gw as int, row as int, col as int);
                                    }
                assert(row * gw <= i);
                let idx: usize = row as usize * gw as usize + col as usize;
                let cov = g.coverage_at(idx);
                assert(cov as int * fill.a as int / 255 <= 255) by (nonlinear_arith)
                    requires
                        cov <= 255,
                        fill.a <= 255,
                ;
                let alpha: u8 = (cov as u32 * fill.a as u32 / 255) as u8;
                let px: i64 = gx0 + col as i64;
                let py: i64 = gy0 + row as i64;
                let ink = Color { a: alpha, ..fill };
                if 0 <= px && px < width as i64 && 0 <= py && py < height as i64 {
                    image.blend_pixel_unchecked(px as u32, py as u32, ink);
                }
                proof {
                    let s = done_before + plots.take(i);
                    assert(plots[i] == (px as int, py as int, ink));
                    assert((done_before + plots.take(i + 1)).drop_last() =~= s);
                    assert((done_before + plots.take(i + 1)).last() == plots[i]);
                }
                col += 1;
            }
            proof {
                assert(row * gw + gw == (row + 1) * gw) by (nonlinear_arith);
            }
            row += 1;
        }
        proof {
            assert(plots.take(gh * gw) =~= plots) by {
                assert(gh * gw == gw * gh) by (nonlinear_arith);
            }
            assert(views.take(k as int + 1).drop_last() =~= views.take(k as int));
            assert(views.take(k as int + 1).last() == gv);
        }
        k += 1;
    }
    proof {
        assert(views.take(glyphs@.len() as int) =~= views);
    }
}

/// The width and height of a laid-out line of glyphs: from the first
/// glyph's left edge to the last glyph's right edge (zero if that span is
/// negative, and at most `u32::MAX`), and `line_height`. A run without glyphs measures `(0, 0)`.
pub fn measure_line(glyphs: &Vec<GlyphMask>, line_height: u32) -> (r: (u32, u32))
    ensures
        glyphs@.len() == 0 ==> r == (0u32, 0u32),
        glyphs@.len() > 0 ==> {
            let first = glyphs@[0]@;
            let last = glyphs@.last()@;
            let span = last.left + last.width - first.left;
            r == ((if span <= 0 {
                0
            } else if span > u32::MAX {
                u32::MAX as int
            } else {
                span
            }) as u32, line_height)
        },
{
    if glyphs.len() == 0 {
        return (0, 0);
    }
    let first = &glyphs[0];
    let last = &glyphs[glyphs.len() - 1];
    let span: i64 = last.left() as i64 + last.width() as i64 - first.left() as i64;
    let w: u32 = if span <= 0 {
        0
    } else if span > u32::MAX as i64 {
        u32::MAX
    } else {
        span as u32
    };
    (w, line_height)
}

} // verus!
