//! The renderer's integer parts: colors, the pixel buffer a CPU backend
//! draws into, coverage masks, and the per-font glyph cache.

use vstd::prelude::*;

verus! {

/// An RGBA color, 8 bits per channel, straight (not premultiplied) alpha.
#[derive(Debug, Clone, Copy, PartialEq, Eq, Structural)]
pub struct Color {
    pub r: u8,
    pub g: u8,
    pub b: u8,
    pub a: u8,
}

/// Fully transparent black: what a fresh pixmap holds.
pub open spec fn transparent() -> Color {
    Color { r: 0, g: 0, b: 0, a: 0 }
}

impl Color {
    /// Fully transparent black.
    pub fn transparent() -> (c: Color)
        ensures
            c == transparent(),
    {
        Color { r: 0, g: 0, b: 0, a: 0 }
    }

    /// Opaque black.
    pub fn black() -> (c: Color)
        ensures
            c == (Color { r: 0, g: 0, b: 0, a: 255 }),
    {
        Color { r: 0, g: 0, b: 0, a: 255 }
    }

    /// Opaque white.
    pub fn white() -> (c: Color)
        ensures
            c == (Color { r: 255, g: 255, b: 255, a: 255 }),
    {
        Color { r: 255, g: 255, b: 255, a: 255 }
    }

    /// A color from its four channels.
    pub fn rgba(r: u8, g: u8, b: u8, a: u8) -> (c: Color)
        ensures
            c == (Color { r, g, b, a }),
    {
        Color { r, g, b, a }
    }

    /// An opaque color.
    pub fn rgb(r: u8, g: u8, b: u8) -> (c: Color)
        ensures
            c == (Color { r, g, b, a: 255 }),
    {
        Color { r, g, b, a: 255 }
    }
}

/// How a polygon's interior is decided.
#[derive(Debug, Clone, Copy, PartialEq, Eq, Structural)]
pub enum FillRule {
    /// Inside where the winding number is non-zero.
    NonZero,
    /// Inside where the winding number is odd.
    EvenOdd,
}

/// An 8-bit coverage mask to composite at a device position: the rendered
/// form of one glyph.
pub struct CoverageMask<'a> {
    /// Device x of the mask's left edge.
    pub x: i32,
    /// Device y of the mask's top edge.
    pub y: i32,
    /// Mask width in pixels.
    pub width: u32,
    /// Mask height in pixels.
    pub height: u32,
    /// `width * height` coverage bytes, row-major.
    pub data: &'a [u8],
}

/// Whether a point of the given winding number lies inside under `rule`.
pub open spec fn winding_inside(rule: FillRule, winding: int) -> bool {
    match rule {
        FillRule::NonZero => winding != 0,
        FillRule::EvenOdd => winding % 2 != 0,
    }
}

impl FillRule {
    /// Whether a point of the given winding number lies inside.
    pub fn contains(self, winding: i32) -> (b: bool)
        ensures
            b == winding_inside(self, winding as int),
    {
        match self {
            FillRule::NonZero => winding != 0,
            FillRule::EvenOdd => winding % 2 != 0,
        }
    }
}

/// Where the mask cell at (`row`, `col`) lands on a `width` by `height`
/// target, with its coverage, if it lands inside with non-zero coverage.
pub open spec fn landed(m: CoverageMask, width: u32, height: u32, row: int, col: int) -> Option<
    (u32, u32, u8),
> {
    let px = m.x + col;
    let py = m.y + row;
    let c = m.data@[row * m.width + col];
    if 0 <= px < width && 0 <= py < height && c != 0 {
        Some((px as u32, py as u32, c))
    } else {
        None
    }
}

/// The cells of mask row `row`, among its first `n` columns, that land.
pub open spec fn row_cells(m: CoverageMask, width: u32, height: u32, row: int, n: int) -> Seq<
    (u32, u32, u8),
>
    decreases n,
{
    if n <= 0 {
        Seq::empty()
    } else {
        let prev = row_cells(m, width, height, row, n - 1);
        match landed(m, width, height, row, n - 1) {
            Some(c) => prev.push(c),
            None => prev,
        }
    }
}

/// The cells of the first `rows` mask rows that land, row by row.
pub open spec fn mask_cells(m: CoverageMask, width: u32, height: u32, rows: int) -> Seq<
    (u32, u32, u8),
>
    decreases rows,
{
    if rows <= 0 {
        Seq::empty()
    } else {
        mask_cells(m, width, height, rows - 1) + row_cells(m, width, height, rows - 1, m.width as int)
    }
}

/// Every cell of `m` that lands on a `width` by `height` target with
/// non-zero coverage, in row-major order; none if the mask holds fewer
/// coverage bytes than its size says.
pub open spec fn placed(m: CoverageMask, width: u32, height: u32) -> Seq<(u32, u32, u8)> {
    if m.data@.len() < m.width * m.height {
        Seq::empty()
    } else {
        mask_cells(m, width, height, m.height as int)
    }
}

proof fn lemma_row_cells_stall(m: CoverageMask, width: u32, height: u32, row: int, k: int, n: int)
    requires
        0 <= k <= n,
        forall|j: int| k <= j < n ==> landed(m, width, height, row, j) is None,
    ensures
        row_cells(m, width, height, row, n) == row_cells(m, width, height, row, k),
    decreases n - k,
{
    if k < n {
        lemma_row_cells_stall(m, width, height, row, k, n - 1);
    }
}

proof fn lemma_mask_cells_stall(m: CoverageMask, width: u32, height: u32, k: int, n: int)
    requires
        0 <= k <= n,
        forall|r: int| k <= r < n ==> row_cells(m, width, height, r, m.width as int) =~= Seq::<
            (u32, u32, u8),
        >::empty(),
    ensures
        mask_cells(m, width, height, n) == mask_cells(m, width, height, k),
    decreases n - k,
{
    if k < n {
        lemma_mask_cells_stall(m, width, height, k, n - 1);
        assert(mask_cells(m, width, height, n - 1) + row_cells(m, width, height, n - 1, m.width as int)
            =~= mask_cells(m, width, height, n - 1));
    }
}

proof fn lemma_cell_index(row: int, col: int, w: int, h: int)
    requires
        0 <= row < h,
        0 <= col < w,
    ensures
        0 <= row * w + col < w * h,
        row * w + col + 1 <= w * h,
{
    assert(0 <= row * w + col < w * h) by (nonlinear_arith)
        requires
            0 <= row < h,
            0 <= col < w,
    ;
}

/// The pixels a coverage mask covers on a `width` by `height` target: each
/// cell that lands inside the target with non-zero coverage, as its device
/// position and coverage, in row-major order. A mask holding fewer
/// coverage bytes than its size says covers nothing.
pub fn mask_targets(mask: &CoverageMask, width: u32, height: u32) -> (r: Vec<(u32, u32, u8)>)
    ensures
        r@ == placed(*mask, width, height),
{
    let mut out: Vec<(u32, u32, u8)> = Vec::new();
    let mw = mask.width;
    let mh = mask.height;
    assert((mw as u64) * (mh as u64) <= u64::MAX) by (nonlinear_arith)
        requires
            mw <= u32::MAX,
            mh <= u32::MAX,
    ;
    let n = mask.data.len();
    if (n as u64) < (mw as u64) * (mh as u64) {
        return out;
    }
    assert(mask.data@.len() >= mw * mh);
    let mut row: u32 = 0;
    while row < mh
        invariant_except_break
            row <= mh,
            mw == mask.width,
            mh == mask.height,
            mask.data@.len() >= mw * mh,
            n == mask.data@.len(),
            out@ == mask_cells(*mask, width, height, row as int),
        ensures
            out@ == mask_cells(*mask, width, height, mh as int),
        decreases mh - row,
    {
        let py: i64 = mask.y as i64 + row as i64;
        if py >= height as i64 {
            proof {
                assert forall|r: int| row <= r < mh implies row_cells(
                    *mask,
                    width,
                    height,
                    r,
                    mw as int,
                ) =~= Seq::<(u32, u32, u8)>::empty() by {
                    assert forall|j: int| 0 <= j < mw implies landed(*mask, width, height, r, j) is None by {}
                    lemma_row_cells_stall(*mask, width, height, r, 0, mw as int);
                }
                lemma_mask_cells_stall(*mask, width, height, row as int, mh as int);
            }
            break;
        }
        let ghost before = out@;
        let mut col: u32 = 0;
        while col < mw
            invariant_except_break
                col <= mw,
                row < mh,
                mw == mask.width,
                mh == mask.height,
                mask.data@.len() >= mw * mh,
                n == mask.data@.len(),
                py == mask.y + row,
                py < height,
                out@ == before + row_cells(*mask, width, height, row as int, col as int),
            ensures
                out@ == before + row_cells(*mask, width, height, row as int, mw as int),
            decreases mw - col,
        {
            let px: i64 = mask.x as i64 + col as i64;
            if px >= width as i64 {
                proof {
                    assert forall|j: int| col <= j < mw implies landed(*mask, width, height, row as int, j) is None by {}
                    lemma_row_cells_stall(*mask, width, height, row as int, col as int, mw as int);
                }
                break;
            }
            proof {
                lemma_cell_index(row as int, col as int, mw as int, mh as int);
                assert(row * mw + col < n);
                assert(row * mw <= row * mw + col);
            }
            let base: usize = row as usize * mw as usize;
            let idx: usize = base + col as usize;
            let c = mask.data[idx];
            if px >= 0 && py >= 0 && c != 0 {
                out.push((px as u32, py as u32, c));
                assert(out@ =~= before + row_cells(*mask, width, height, row as int, col + 1));
            } else {
                assert(out@ =~= before + row_cells(*mask, width, height, row as int, col + 1));
            }
            col = col + 1;
        }
        row = row + 1;
    }
    out
}

/// A row-major RGBA pixel buffer.
#[derive(Debug, Clone)]
pub struct Pixmap {
    width: u32,
    height: u32,
    data: Vec<Color>,
}

/// The mathematical form of a [`Pixmap`].
pub struct PixmapView {
    pub width: u32,
    pub height: u32,
    pub data: Seq<Color>,
}

impl View for Pixmap {
    type V = PixmapView;

    closed spec fn view(&self) -> PixmapView {
        PixmapView { width: self.width, height: self.height, data: self.data@ }
    }
}

/// The index of pixel `(x, y)` in a row-major buffer `width` wide.
pub open spec fn at(width: u32, x: u32, y: u32) -> int {
    y * width + x
}

proof fn lemma_index_in_bounds(w: u32, h: u32, x: u32, y: u32)
    requires
        x < w,
        y < h,
    ensures
        0 <= at(w, x, y) < w * h,
{
    assert(y * w + x < w * h) by (nonlinear_arith)
        requires
            x < w,
            y < h,
    ;
    assert(0 <= y * w) by (nonlinear_arith);
}

/// A pixmap holds exactly one pixel per position.
pub open spec fn sized(p: PixmapView) -> bool {
    p.data.len() == p.width * p.height
}

impl Pixmap {
    /// A transparent pixmap of the given size.
    pub fn new(width: u32, height: u32) -> (p: Pixmap)
        requires
            width * height <= usize::MAX,
        ensures
            sized(p@),
            p@.width == width,
            p@.height == height,
            p@.data == Seq::new((width * height) as nat, |i: int| transparent()),
    {
        let len = width as usize * height as usize;
        let data = vec![Color::transparent(); len];
        let p = Pixmap { width, height, data };
        assert(p@.data =~= Seq::new((width * height) as nat, |i: int| transparent()));
        p
    }

    pub fn width(&self) -> (w: u32)
        ensures
            w == self@.width,
    {
        self.width
    }

    pub fn height(&self) -> (h: u32)
        ensures
            h == self@.height,
    {
        self.height
    }

    /// The pixels, row-major.
    pub fn data(&self) -> (d: &[Color])
        ensures
            d@ == self@.data,
    {
        self.data.as_slice()
    }

    /// The pixel at `(x, y)`, which must lie inside the pixmap.
    pub fn pixel(&self, x: u32, y: u32) -> (c: Color)
        requires
            sized(self@),
            x < self@.width,
            y < self@.height,
        ensures
            c == self@.data[at(self@.width, x, y)],
    {
        let n = self.data.len();
        proof {
            lemma_index_in_bounds(self.width, self.height, x, y);
            assert(y * self.width <= y * self.width + x);
        }
        let i = y as usize * self.width as usize + x as usize;
        self.data[i]
    }

    /// Set the pixel at `(x, y)`, which must lie inside the pixmap.
    pub fn set_pixel(&mut self, x: u32, y: u32, color: Color)
        requires
            sized(old(self)@),
            x < old(self)@.width,
            y < old(self)@.height,
        ensures
            sized(final(self)@),
            final(self)@.width == old(self)@.width,
            final(self)@.height == old(self)@.height,
            final(self)@.data == old(self)@.data.update(at(old(self)@.width, x, y), color),
    {
        let n = self.data.len();
        proof {
            lemma_index_in_bounds(self.width, self.height, x, y);
            assert(y * self.width <= y * self.width + x);
        }
        let i = y as usize * self.width as usize + x as usize;
        self.data[i] = color;
    }

    /// Fill every pixel with `color`.
    pub fn clear(&mut self, color: Color)
        ensures
            sized(old(self)@) ==> sized(final(self)@),
            final(self)@.width == old(self)@.width,
            final(self)@.height == old(self)@.height,
            final(self)@.data == Seq::new(old(self)@.data.len(), |i: int| color),
    {
        let n = self.data.len();
        let mut i: usize = 0;
        while i < n
            invariant
                n == self.data@.len(),
                n == old(self)@.data.len(),
                self.width == old(self)@.width,
                self.height == old(self)@.height,
                i <= n,
                forall|j: int| 0 <= j < i ==> self.data@[j] == color,
            decreases n - i,
        {
            self.data[i] = color;
            i = i + 1;
        }
        assert(self@.data =~= Seq::new(old(self)@.data.len(), |i: int| color));
    }
}

proof fn lemma_at_distinct(w: u32, x: u32, y: u32, x2: u32, y2: u32)
    requires
        x < w,
        x2 < w,
        x != x2 || y != y2,
    ensures
        at(w, x, y) != at(w, x2, y2),
{
    if y < y2 {
        assert(y * w + x < y2 * w + x2) by (nonlinear_arith)
            requires
                x < w,
                y < y2,
        ;
    } else if y2 < y {
        assert(y2 * w + x2 < y * w + x) by (nonlinear_arith)
            requires
                x2 < w,
                y2 < y,
        ;
    }
}

/// A pixel reads back what was last set there; setting one pixel leaves
/// every other pixel as it was.
pub proof fn lemma_pixel_reads_back(p: PixmapView, x: u32, y: u32, color: Color, x2: u32, y2: u32)
    requires
        sized(p),
        x < p.width,
        y < p.height,
        x2 < p.width,
        y2 < p.height,
    ensures
        p.data.update(at(p.width, x, y), color)[at(p.width, x2, y2)] == (if x == x2 && y == y2 {
            color
        } else {
            p.data[at(p.width, x2, y2)]
        }),
{
    lemma_index_in_bounds(p.width, p.height, x, y);
    lemma_index_in_bounds(p.width, p.height, x2, y2);
    if x != x2 || y != y2 {
        lemma_at_distinct(p.width, x, y, x2, y2);
    }
}

/// A software renderer's state: the pixmap it draws into.
pub struct CpuBackend {
    target: Pixmap,
}

impl CpuBackend {
    /// A backend over a fresh transparent pixmap of the given size.
    pub fn new(width: u32, height: u32) -> (b: CpuBackend)
        requires
            width * height <= usize::MAX,
        ensures
            b.pixmap_view().width == width,
            b.pixmap_view().height == height,
            b.pixmap_view().data == Seq::new((width * height) as nat, |i: int| transparent()),
    {
        CpuBackend { target: Pixmap::new(width, height) }
    }

    /// The render target, as mathematics.
    pub closed spec fn pixmap_view(&self) -> PixmapView {
        self.target@
    }

    /// A backend over an existing pixmap.
    pub fn from_pixmap(target: Pixmap) -> (b: CpuBackend)
        ensures
            b.pixmap_view() == target@,
    {
        CpuBackend { target }
    }

    /// The render target.
    pub fn pixmap(&self) -> (p: &Pixmap)
        ensures
            p@ == self.pixmap_view(),
    {
        &self.target
    }

    /// The render target, to draw into.
    pub fn pixmap_mut(&mut self) -> (p: &mut Pixmap)
        ensures
            p@ == old(self).pixmap_view(),
            final(self).pixmap_view() == final(p)@,
    {
        &mut self.target
    }

    /// Consume the backend, yielding its render target.
    pub fn into_pixmap(self) -> (p: Pixmap)
        ensures
            p@ == self.pixmap_view(),
    {
        self.target
    }
}

/// A rasterized glyph held in the cache.
pub struct CachedGlyph {
    pub width: u32,
    pub height: u32,
    pub left: i32,
    pub top: i32,
    pub coverage: Vec<u8>,
}

/// A per-font cache of rasterized glyph masks, keyed by pixel size (its
/// bit pattern) and glyph index. Each key is cached at most once.
pub struct GlyphCache {
    glyphs: Vec<((u32, u32), CachedGlyph)>,
}

impl GlyphCache {
    /// The cached keys, in the order they were cached.
    pub closed spec fn keys(&self) -> Seq<(u32, u32)> {
        self.glyphs@.map_values(|e: ((u32, u32), CachedGlyph)| e.0)
    }

    #[verifier::type_invariant]
    closed spec fn distinct(self) -> bool {
        self.keys().no_duplicates()
    }

    /// An empty cache.
    pub fn new() -> (c: GlyphCache)
        ensures
            c.keys() == Seq::<(u32, u32)>::empty(),
    {
        let c = GlyphCache { glyphs: Vec::new() };
        assert(c.keys() =~= Seq::<(u32, u32)>::empty());
        c
    }

    /// How many distinct glyphs are cached.
    pub fn len(&self) -> (n: usize)
        ensures
            n == self.keys().len(),
            n == self.keys().to_set().len(),
    {
        proof {
            use_type_invariant(self);
            self.keys().unique_seq_to_set();
        }
        self.glyphs.len()
    }

    /// Whether the cache holds no glyphs.
    pub fn is_empty(&self) -> (b: bool)
        ensures
            b == (self.keys().len() == 0),
    {
        self.glyphs.len() == 0
    }

    /// The position of `key` among the cached glyphs, if cached.
    pub fn find(&self, key: (u32, u32)) -> (r: Option<usize>)
        ensures
            match r {
                Some(i) => i < self.keys().len() && self.keys()[i as int] == key,
                None => !self.keys().contains(key),
            },
    {
        let mut i: usize = 0;
        while i < self.glyphs.len()
            invariant
                i <= self.glyphs@.len(),
                forall|j: int| 0 <= j < i ==> #[trigger] self.keys()[j] != key,
            decreases self.glyphs@.len() - i,
        {
            assert(self.keys()[i as int] == self.glyphs@[i as int].0);
            if self.glyphs[i].0.0 == key.0 && self.glyphs[i].0.1 == key.1 {
                return Some(i);
            }
            i = i + 1;
        }
        None
    }

    /// The glyph cached at position `i`.
    pub closed spec fn cached(&self, i: int) -> CachedGlyph {
        self.glyphs@[i].1
    }

    /// The cached glyph at a position [`find`](Self::find) returned.
    pub fn glyph(&self, i: usize) -> (g: &CachedGlyph)
        requires
            i < self.keys().len(),
        ensures
            *g == self.cached(i as int),
    {
        &self.glyphs[i].1
    }

    /// Cache `glyph` under `key`, which must not be cached yet; returns its
    /// position.
    pub fn insert(&mut self, key: (u32, u32), glyph: CachedGlyph) -> (i: usize)
        requires
            !old(self).keys().contains(key),
        ensures
            final(self).keys() == old(self).keys().push(key),
            i == old(self).keys().len(),
            final(self).cached(i as int) == glyph,
            forall|j: int| 0 <= j < i ==> final(self).cached(j) == old(self).cached(j),
    {
        let i = self.glyphs.len();
        let ghost before = self.keys();
        proof {
            use_type_invariant(&*self);
        }
        let mut glyphs: Vec<((u32, u32), CachedGlyph)> = Vec::new();
        std::mem::swap(&mut glyphs, &mut self.glyphs);
        glyphs.push((key, glyph));
        assert(glyphs@.map_values(|e: ((u32, u32), CachedGlyph)| e.0) =~= before.push(key));
        self.glyphs = glyphs;
        i
    }
}

} // verus!
