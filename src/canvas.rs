use vstd::prelude::*;
use crate::color::{Color, composite, blend_color};

verus! {

/// What a canvas holds: its size and its pixels in row-major order.
pub ghost struct CanvasView {
    pub width: nat,
    pub height: nat,
    pub pixels: Seq<Color>,
}

impl CanvasView {
    /// One pixel per position of the grid, and a byte buffer of the whole
    /// canvas fits in memory.
    pub open spec fn wf(self) -> bool {
        &&& self.pixels.len() == self.width * self.height
        &&& self.width * self.height * 4 <= usize::MAX
    }

    pub open spec fn in_bounds(self, x: int, y: int) -> bool {
        0 <= x < self.width && 0 <= y < self.height
    }

    pub open spec fn pixel(self, x: int, y: int) -> Color {
        self.pixels[y * self.width + x]
    }

    pub open spec fn same_size(self, other: CanvasView) -> bool {
        self.width == other.width && self.height == other.height
    }

    /// `c` composited over the pixel at `(x, y)`; nothing changes when the
    /// position is off the canvas.
    pub open spec fn blend_at(self, x: int, y: int, c: Color) -> CanvasView {
        if self.in_bounds(x, y) {
            CanvasView {
                pixels: self.pixels.update(y * self.width + x, composite(self.pixel(x, y), c)),
                ..self
            }
        } else {
            self
        }
    }
}

/// `c` composited in turn at each position of `plots`, in order.
pub open spec fn blend_all(m: CanvasView, plots: Seq<(int, int, Color)>) -> CanvasView
    decreases plots.len(),
{
    if plots.len() == 0 {
        m
    } else {
        let p = plots.last();
        blend_all(m, plots.drop_last()).blend_at(p.0, p.1, p.2)
    }
}

/// The four bytes `r, g, b, a` of each color in turn.
pub open spec fn rgba_bytes(pixels: Seq<Color>) -> Seq<u8> {
    Seq::new(
        pixels.len() * 4,
        |i: int|
            {
                let c = pixels[i / 4];
                if i % 4 == 0 {
                    c.r
                } else if i % 4 == 1 {
                    c.g
                } else if i % 4 == 2 {
                    c.b
                } else {
                    c.a
                }
            },
    )
}

/// The colors read from consecutive groups of four bytes `r, g, b, a`.
pub open spec fn colors_of(bytes: Seq<u8>) -> Seq<Color> {
    Seq::new(
        bytes.len() / 4,
        |i: int| Color { r: bytes[4 * i], g: bytes[4 * i + 1], b: bytes[4 * i + 2], a: bytes[4 * i + 3] },
    )
}

/// The canvas of the given size whose pixels are read from RGBA bytes.
pub open spec fn canvas_of_bytes(width: nat, height: nat, bytes: Seq<u8>) -> CanvasView {
    CanvasView { width, height, pixels: colors_of(bytes) }
}

proof fn lemma_index_in_range(width: int, height: int, x: int, y: int)
    requires
        0 <= x < width,
        0 <= y < height,
    ensures
        0 <= y * width + x < width * height,
{
    assert(0 <= y * width + x < width * height) by (nonlinear_arith)
        requires
            0 <= x < width,
            0 <= y < height,
    ;
}

proof fn lemma_index_injective(width: int, x: int, y: int, x2: int, y2: int)
    requires
        0 <= x < width,
        0 <= x2 < width,
        0 <= y,
        0 <= y2,
        y * width + x == y2 * width + x2,
    ensures
        x == x2 && y == y2,
{
    if y < y2 {
        assert(y * width + x < y2 * width + x2) by (nonlinear_arith)
            requires
                0 <= x < width,
                0 <= x2,
                y < y2,
        ;
    } else if y2 < y {
        assert(y2 * width + x2 < y * width + x) by (nonlinear_arith)
            requires
                0 <= x2 < width,
                0 <= x,
                y2 < y,
        ;
    }
}

/// Two well-formed canvases of one size that agree on every pixel are equal.
pub proof fn lemma_view_ext(a: CanvasView, b: CanvasView)
    requires
        a.wf(),
        b.wf(),
        a.same_size(b),
        forall|x: int, y: int| a.in_bounds(x, y) ==> #[trigger] a.pixel(x, y) == b.pixel(x, y),
    ensures
        a == b,
{
    assert forall|i: int| 0 <= i < a.pixels.len() implies a.pixels[i] == b.pixels[i] by {
        let w = a.width as int;
        assert(w > 0) by (nonlinear_arith)
            requires
                0 <= i < a.width * a.height,
                w == a.width,
        ;
        let x = i % w;
        let y = i / w;
        assert(i == y * w + x) by (nonlinear_arith)
            requires
                w > 0,
                x == i % w,
                y == i / w,
        ;
        assert(0 <= x < w);
        assert(0 <= y < a.height) by (nonlinear_arith)
            requires
                w > 0,
                0 <= i < w * a.height,
                i == y * w + x,
                0 <= x < w,
        ;
        assert(a.pixel(x, y) == b.pixel(x, y));
    }
    assert(a.pixels =~= b.pixels);
}

/// A fixed-size RGBA raster. Its size is set on creation and never changes.
pub struct Canvas {
    width: u32,
    height: u32,
    pixels: Vec<Color>,
}

impl View for Canvas {
    type V = CanvasView;

    closed spec fn view(&self) -> CanvasView {
        CanvasView { width: self.width as nat, height: self.height as nat, pixels: self.pixels@ }
    }
}

impl Canvas {
    #[verifier::type_invariant]
    spec fn inv(&self) -> bool {
        self@.wf()
    }

    /// A canvas of the given size with every pixel set to `background`.
    pub fn new(width: u32, height: u32, background: Color) -> (c: Canvas)
        requires
            width * height * 4 <= usize::MAX,
        ensures
            c@.width == width,
            c@.height == height,
            c@.wf(),
            forall|x: int, y: int| c@.in_bounds(x, y) ==> #[trigger] c@.pixel(x, y) == background,
    {
        let n: usize = width as usize * height as usize;
        let mut pixels: Vec<Color> = Vec::with_capacity(n);
        let mut i: usize = 0;
        while i < n
            invariant
                i <= n,
                pixels@.len() == i,
                forall|j: int| 0 <= j < i ==> #[trigger] pixels@[j] == background,
            decreases n - i,
        {
            pixels.push(background);
            i += 1;
        }
        let c = Canvas { width, height, pixels };
        assert forall|x: int, y: int| c@.in_bounds(x, y) implies #[trigger] c@.pixel(x, y) == background by {
            lemma_index_in_range(width as int, height as int, x, y);
        }
        c
    }

    pub fn width(&self) -> (r: u32)
        ensures
            r == self@.width,
            self@.wf(),
    {
        proof {
            use_type_invariant(self);
        }
        self.width
    }

    pub fn height(&self) -> (r: u32)
        ensures
            r == self@.height,
            self@.wf(),
    {
        proof {
            use_type_invariant(self);
        }
        self.height
    }

    /// The pixel at `(x, y)`, or `None` outside the canvas.
    pub fn get_pixel(&self, x: u32, y: u32) -> (r: Option<Color>)
        ensures
            r == if self@.in_bounds(x as int, y as int) {
                Some(self@.pixel(x as int, y as int))
            } else {
                None::<Color>
            },
    {
        proof {
            use_type_invariant(self);
        }
        if x < self.width && y < self.height {
            Some(self.pixel_unchecked(x, y))
        } else {
            None
        }
    }

    /// An independent copy of this canvas.
    pub fn snapshot(&self) -> (r: Canvas)
        ensures
            r@ == self@,
    {
        proof {
            use_type_invariant(self);
        }
        let n = self.pixels.len();
        let mut pixels: Vec<Color> = Vec::with_capacity(n);
        let mut i: usize = 0;
        while i < n
            invariant
                i <= n,
                n == self.pixels@.len(),
                pixels@ == self.pixels@.take(i as int),
            decreases n - i,
        {
            pixels.push(self.pixels[i]);
            i += 1;
            proof {
                assert(pixels@ =~= self.pixels@.take(i as int));
            }
        }
        proof {
            assert(pixels@ =~= self.pixels@);
        }
        Canvas { width: self.width, height: self.height, pixels }
    }

    /// The pixels as consecutive `r, g, b, a` bytes, row by row.
    pub fn to_rgba_bytes(&self) -> (r: Vec<u8>)
        ensures
            r@ == rgba_bytes(self@.pixels),
            r@.len() == self@.width * self@.height * 4,
    {
        proof {
            use_type_invariant(self);
        }
        let n = self.pixels.len();
        let mut bytes: Vec<u8> = Vec::with_capacity(n * 4);
        let mut i: usize = 0;
        while i < n
            invariant
                i <= n,
                n == self.pixels@.len(),
                n * 4 <= usize::MAX,
                bytes@ == rgba_bytes(self.pixels@).take(4 * i as int),
            decreases n - i,
        {
            let c = self.pixels[i];
            bytes.push(c.r);
            bytes.push(c.g);
            bytes.push(c.b);
            bytes.push(c.a);
            proof {
                let all = rgba_bytes(self.pixels@);
                assert forall|j: int| 4 * i <= j < 4 * i + 4 implies all[j] == bytes@[j] by {
                    assert(j / 4 == i as int);
                }
            }
            i += 1;
            proof {
                assert(bytes@ =~= rgba_bytes(self.pixels@).take(4 * i as int));
            }
        }
        proof {
            assert(bytes@ =~= rgba_bytes(self.pixels@));
        }
        bytes
    }

    /// A canvas of the given size read from `r, g, b, a` bytes, row by row;
    /// `None` unless there are exactly four bytes per pixel.
    pub fn from_rgba_bytes(width: u32, height: u32, bytes: &Vec<u8>) -> (r: Option<Canvas>)
        ensures
            r is Some <==> bytes@.len() == width * height * 4,
            r matches Some(c) ==> c@ == canvas_of_bytes(width as nat, height as nat, bytes@),
    {
        assert(width as int * height as int <= 0xffff_ffff * 0xffff_ffff) by (nonlinear_arith)
            requires
                width <= 0xffff_ffff,
                height <= 0xffff_ffff,
        ;
        let len = bytes.len();
        if len % 4 != 0 || (len / 4) as u128 != width as u128 * height as u128 {
            return None;
        }
        let n = len / 4;
        let mut pixels: Vec<Color> = Vec::with_capacity(n);
        let mut i: usize = 0;
        while i < n
            invariant
                i <= n,
                n * 4 == bytes@.len(),
                n * 4 == len,
                pixels@ == colors_of(bytes@).take(i as int),
            decreases n - i,
        {
            let k = 4 * i;
            pixels.push(Color { r: bytes[k], g: bytes[k + 1], b: bytes[k + 2], a: bytes[k + 3] });
            i += 1;
            proof {
                assert(pixels@ =~= colors_of(bytes@).take(i as int));
            }
        }
        proof {
            assert(pixels@ =~= colors_of(bytes@));
        }
        Some(Canvas { width, height, pixels })
    }

    /// Reads a pixel whose position the caller has already clipped.
    pub(crate) fn pixel_unchecked(&self, x: u32, y: u32) -> (r: Color)
        requires
            self@.in_bounds(x as int, y as int),
        ensures
            r == self@.pixel(x as int, y as int),
    {
        proof {
            use_type_invariant(self);
            lemma_index_in_range(self.width as int, self.height as int, x as int, y as int);
        }
        self.pixels[y as usize * self.width as usize + x as usize]
    }

    /// Writes a pixel whose position the caller has already clipped.
    pub(crate) fn put_pixel_unchecked(&mut self, x: u32, y: u32, c: Color)
        requires
            old(self)@.in_bounds(x as int, y as int),
        ensures
            final(self)@.same_size(old(self)@),
            final(self)@.wf(),
            forall|px: int, py: int|
                final(self)@.in_bounds(px, py) ==> #[trigger] final(self)@.pixel(px, py) == if px
                    == x && py == y {
                    c
                } else {
                    old(self)@.pixel(px, py)
                },
    {
        proof {
            use_type_invariant(&*self);
            lemma_index_in_range(self.width as int, self.height as int, x as int, y as int);
        }
        let idx = y as usize * self.width as usize + x as usize;
        let mut taken = Canvas { width: 0, height: 0, pixels: Vec::new() };
        std::mem::swap(self, &mut taken);
        let Canvas { width, height, mut pixels } = taken;
        pixels.set(idx, c);
        *self = Canvas { width, height, pixels };
        proof {
            let w = self.width as int;
            let h = self.height as int;
            assert forall|px: int, py: int| self@.in_bounds(px, py) implies #[trigger] self@.pixel(px, py)
                == if px == x && py == y {
                c
            } else {
                old(self)@.pixel(px, py)
            } by {
                lemma_index_in_range(w, h, px, py);
                if py * w + px == idx {
                    lemma_index_injective(w, px, py, x as int, y as int);
                }
            }
        }
    }

    /// Composites `c` over the pixel at an already clipped position; an
    /// opaque `c` is written directly.
    pub(crate) fn blend_pixel_unchecked(&mut self, x: u32, y: u32, c: Color)
        requires
            old(self)@.in_bounds(x as int, y as int),
        ensures
            final(self)@ == old(self)@.blend_at(x as int, y as int, c),
            final(self)@.same_size(old(self)@),
            final(self)@.wf(),
            forall|px: int, py: int|
                final(self)@.in_bounds(px, py) ==> #[trigger] final(self)@.pixel(px, py) == if px
                    == x && py == y {
                    composite(old(self)@.pixel(px, py), c)
                } else {
                    old(self)@.pixel(px, py)
                },
    {
        let ghost expected = old(self)@.blend_at(x as int, y as int, c);
        proof {
            use_type_invariant(&*self);
            lemma_index_in_range(self.width as int, self.height as int, x as int, y as int);
        }
        if c.a == 255 {
            self.put_pixel_unchecked(x, y, c);
        } else {
            let back = self.pixel_unchecked(x, y);
            self.put_pixel_unchecked(x, y, blend_color(back, c));
        }
        proof {
            assert forall|px: int, py: int| self@.in_bounds(px, py) implies #[trigger] self@.pixel(px, py)
                == expected.pixel(px, py) by {
                lemma_index_in_range(self@.width as int, self@.height as int, px, py);
                if py * self@.width + px == y * self@.width + x {
                    lemma_index_injective(self@.width as int, px, py, x as int, y as int);
                }
            }
            lemma_view_ext(self@, expected);
        }
    }
}

} // verus!
