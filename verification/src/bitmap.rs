use vstd::prelude::*;
use crate::pixel_map::lemma_flat_index;

verus! {

/// A rectangular grid of raw cell values stored row-major: `0` is background,
/// `1` is colored fill, `2` is outline. The cell at `(x, y)` lives at flat
/// index `y * width + x`, origin top-left.
pub struct Bitmap {
    pub width: usize,
    pub height: usize,
    pub data: Vec<u8>,
}

impl View for Bitmap {
    type V = Seq<u8>;

    open spec fn view(&self) -> Seq<u8> {
        self.data@
    }
}

/// Number of in-bounds orthogonal (axis-adjacent) neighbors of `(x, y)` that
/// hold `1`, in a `w`-by-`h` grid stored row-major in `s`. Off-grid
/// positions are absent: they are neither counted nor wrapped around.
pub open spec fn neighbor_count(s: Seq<u8>, w: int, h: int, x: int, y: int) -> int {
    (if x > 0 && s[y * w + (x - 1)] == 1 {
        1int
    } else {
        0int
    }) + (if y > 0 && s[(y - 1) * w + x] == 1 {
        1int
    } else {
        0int
    }) + (if x < w - 1 && s[y * w + (x + 1)] == 1 {
        1int
    } else {
        0int
    }) + (if y < h - 1 && s[(y + 1) * w + x] == 1 {
        1int
    } else {
        0int
    })
}

/// One step of the automaton rule at a single cell, read entirely from the
/// pre-evolution grid: a background cell with at most one live neighbor
/// becomes live, a live cell with exactly two or three live neighbors stays
/// live, and every other cell becomes background.
pub open spec fn next_cell(s: Seq<u8>, w: int, h: int, x: int, y: int) -> u8 {
    let cell: u8 = s[y * w + x];
    let n: int = neighbor_count(s, w, h, x, y);
    if (cell == 0 && n <= 1) || (cell == 1 && (n == 2 || n == 3)) {
        1
    } else {
        0
    }
}

/// The grid produced by one simultaneous evolution pass over `s`.
pub open spec fn evolved(s: Seq<u8>, w: int, h: int) -> Seq<u8> {
    Seq::new((w * h) as nat, |i: int| next_cell(s, w, h, i % w, i / w))
}

/// The evolved grid has one cell per coordinate pair, and the cell at
/// `(x, y)` follows the automaton rule applied to the input grid.
pub proof fn lemma_evolved_index(s: Seq<u8>, w: int, h: int, x: int, y: int)
    requires
        0 <= x < w,
        0 <= y < h,
    ensures
        evolved(s, w, h).len() == w * h,
        evolved(s, w, h)[y * w + x] == next_cell(s, w, h, x, y),
{
    lemma_flat_index(w, h, x, y);
}

/// Edge behavior of neighbor counting: at most four neighbors anywhere, at
/// most three for a cell on a border, at most two for a corner cell.
pub proof fn lemma_neighbor_count_bounds(s: Seq<u8>, w: int, h: int, x: int, y: int)
    requires
        0 <= x < w,
        0 <= y < h,
    ensures
        0 <= neighbor_count(s, w, h, x, y) <= 4,
        (x == 0 || x == w - 1) && (y == 0 || y == h - 1) ==> neighbor_count(s, w, h, x, y) <= 2,
        x == 0 || x == w - 1 || y == 0 || y == h - 1 ==> neighbor_count(s, w, h, x, y) <= 3,
{
}

/// Counts the live (`1`) cells among the at most four in-bounds orthogonal
/// neighbors of `(x, y)`.
pub fn count_neighbors(state: &Bitmap, x: usize, y: usize) -> (r: u16)
    requires
        state.wf(),
        x < state.width,
        y < state.height,
    ensures
        r as int == neighbor_count(state@, state.width as int, state.height as int, x as int, y as int),
{
    let mut count: u16 = 0;
    if x > 0 && state.get(x - 1, y) == 1 {
        count += 1;
    }
    if y > 0 && state.get(x, y - 1) == 1 {
        count += 1;
    }
    if x < state.width - 1 && state.get(x + 1, y) == 1 {
        count += 1;
    }
    if y < state.height - 1 && state.get(x, y + 1) == 1 {
        count += 1;
    }
    count
}

/// One simultaneous evolution pass: every output cell is computed from the
/// immutable input snapshot, so the update order cannot contaminate the
/// neighbor counts.
pub fn evolve(state: Bitmap) -> (r: Bitmap)
    requires
        state.wf(),
    ensures
        r.width == state.width,
        r.height == state.height,
        r.wf(),
        r@ == evolved(state@, state.width as int, state.height as int),
{
    let w: usize = state.width;
    let h: usize = state.height;
    let ghost target = evolved(state@, w as int, h as int);
    let mut data: Vec<u8> = Vec::new();
    let mut y: usize = 0;
    while y < h
        invariant
            state.wf(),
            state.width == w,
            state.height == h,
            y <= h,
            target == evolved(state@, w as int, h as int),
            target.len() == w * h,
            data@.len() == y * w,
            data@ == target.take((y * w) as int),
        decreases h - y,
    {
        let mut x: usize = 0;
        while x < w
            invariant
                state.wf(),
                state.width == w,
                state.height == h,
                y < h,
                x <= w,
                target == evolved(state@, w as int, h as int),
                target.len() == w * h,
                data@.len() == y * w + x,
                data@ == target.take((y * w + x) as int),
            decreases w - x,
        {
            let cell: u8 = state.get(x, y);
            let n: u16 = count_neighbors(&state, x, y);
            let next: u8 = if (cell == 0 && n <= 1) || (cell == 1 && (n == 2 || n == 3)) {
                1
            } else {
                0
            };
            proof {
                lemma_flat_index(w as int, h as int, x as int, y as int);
                lemma_evolved_index(state@, w as int, h as int, x as int, y as int);
                assert(next == target[(y * w + x) as int]);
                assert(target.take((y * w + x + 1) as int) =~= target.take(
                    (y * w + x) as int,
                ).push(target[(y * w + x) as int]));
            }
            data.push(next);
            x = x + 1;
        }
        proof {
            assert((y + 1) * w == y * w + w) by (nonlinear_arith);
        }
        y = y + 1;
    }
    proof {
        assert(h * w == w * h) by (nonlinear_arith);
        assert(data@ =~= target);
    }
    Bitmap { width: w, height: h, data }
}

/// A cell of the grown 5-by-10 grid: the embedded 4-by-8 grid shifted one
/// row down, with background padding in row 0, row 9 and column 4. The left
/// edge stays unpadded: it becomes the mirror seam.
pub open spec fn grown_cell(s: Seq<u8>, x: int, y: int) -> u8 {
    if 1 <= y <= 8 && 0 <= x < 4 {
        s[(y - 1) * 4 + x]
    } else {
        0
    }
}

/// The 5-by-10 grid that embeds the evolved 4-by-8 grid with background
/// padding on top, right and bottom only.
pub open spec fn grown(s: Seq<u8>) -> Seq<u8> {
    Seq::new(50, |i: int| grown_cell(s, i % 5, i / 5))
}

/// The grown grid reads back cell-wise through flat indices.
pub proof fn lemma_grown_index(s: Seq<u8>, x: int, y: int)
    requires
        0 <= x < 5,
        0 <= y < 10,
    ensures
        grown(s).len() == 50,
        grown(s)[y * 5 + x] == grown_cell(s, x, y),
{
    lemma_flat_index(5, 10, x, y);
}

/// Padding: rows 0 and 9 of the grown grid are all background, and so is
/// column 4 of every row.
pub proof fn lemma_grow_padding(s: Seq<u8>, x: int, y: int)
    requires
        0 <= x < 5,
        0 <= y < 10,
    ensures
        y == 0 ==> grown(s)[y * 5 + x] == 0,
        y == 9 ==> grown(s)[y * 5 + x] == 0,
        x == 4 ==> grown(s)[y * 5 + x] == 0,
{
    lemma_grown_index(s, x, y);
}

/// Embeds an evolved 4-by-8 grid into a fresh 5-by-10 grid, padding the top,
/// right and bottom with background and leaving the left edge, the future
/// mirror seam, unpadded. This transform is deliberately fixed to the
/// 4-by-8 to 5-by-10 geometry; it is not a generic border routine.
pub fn grow(state: Bitmap) -> (r: Bitmap)
    requires
        state.wf(),
        state.width == 4,
        state.height == 8,
    ensures
        r.width == 5,
        r.height == 10,
        r.wf(),
        r@ == grown(state@),
{
    let ghost target = grown(state@);
    let mut data: Vec<u8> = Vec::new();
    let mut y: usize = 0;
    while y < 10
        invariant
            state.wf(),
            state.width == 4,
            state.height == 8,
            y <= 10,
            target == grown(state@),
            target.len() == 50,
            data@.len() == y * 5,
            data@ == target.take((y * 5) as int),
        decreases 10 - y,
    {
        let mut x: usize = 0;
        while x < 5
            invariant
                state.wf(),
                state.width == 4,
                state.height == 8,
                y < 10,
                x <= 5,
                target == grown(state@),
                target.len() == 50,
                data@.len() == y * 5 + x,
                data@ == target.take((y * 5 + x) as int),
            decreases 5 - x,
        {
            let cell: u8 = if 1 <= y && y <= 8 && x < 4 {
                state.get(x, y - 1)
            } else {
                0
            };
            proof {
                lemma_grown_index(state@, x as int, y as int);
                assert(cell == target[(y * 5 + x) as int]);
                assert(target.take((y * 5 + x + 1) as int) =~= target.take(
                    (y * 5 + x) as int,
                ).push(target[(y * 5 + x) as int]));
            }
            data.push(cell);
            x = x + 1;
        }
        y = y + 1;
    }
    proof {
        assert(data@ =~= target);
    }
    Bitmap { width: 5, height: 10, data }
}

/// A cell after outline classification: a background cell with at least one
/// in-bounds live neighbor becomes `2`; every other cell keeps its value.
pub open spec fn outlined_cell(s: Seq<u8>, w: int, h: int, x: int, y: int) -> u8 {
    if s[y * w + x] == 0 && neighbor_count(s, w, h, x, y) > 0 {
        2
    } else {
        s[y * w + x]
    }
}

/// The grid produced by classifying outlines against the stable snapshot `s`.
pub open spec fn outlined(s: Seq<u8>, w: int, h: int) -> Seq<u8> {
    Seq::new((w * h) as nat, |i: int| outlined_cell(s, w, h, i % w, i / w))
}

/// The classified grid reads back cell-wise through flat indices.
pub proof fn lemma_outlined_index(s: Seq<u8>, w: int, h: int, x: int, y: int)
    requires
        0 <= x < w,
        0 <= y < h,
    ensures
        outlined(s, w, h).len() == w * h,
        outlined(s, w, h)[y * w + x] == outlined_cell(s, w, h, x, y),
{
    lemma_flat_index(w, h, x, y);
}

/// Outline placement: in a grid that holds no outline cell yet, a cell is
/// `2` after classification iff it was `0` with at least one in-bounds live
/// neighbor, and live cells are never reclassified.
pub proof fn lemma_outline_placement(s: Seq<u8>, w: int, h: int, x: int, y: int)
    requires
        0 <= x < w,
        0 <= y < h,
        s.len() == w * h,
        forall|i: int| 0 <= i < s.len() ==> s[i] != 2,
    ensures
        outlined(s, w, h)[y * w + x] == 2 <==> (s[y * w + x] == 0 && neighbor_count(
            s,
            w,
            h,
            x,
            y,
        ) > 0),
        s[y * w + x] == 1 ==> outlined(s, w, h)[y * w + x] == 1,
{
    lemma_flat_index(w, h, x, y);
    lemma_outlined_index(s, w, h, x, y);
    assert(s[y * w + x] != 2);
}

/// Rewrites every background cell that touches the silhouette into an
/// outline cell, reading all neighbor counts from the unmodified input
/// snapshot so that the rewrite order cannot influence the result.
pub fn classify_outline(state: Bitmap) -> (r: Bitmap)
    requires
        state.wf(),
    ensures
        r.width == state.width,
        r.height == state.height,
        r.wf(),
        r@ == outlined(state@, state.width as int, state.height as int),
{
    let w: usize = state.width;
    let h: usize = state.height;
    let ghost target = outlined(state@, w as int, h as int);
    let mut data: Vec<u8> = Vec::new();
    let mut y: usize = 0;
    while y < h
        invariant
            state.wf(),
            state.width == w,
            state.height == h,
            y <= h,
            target == outlined(state@, w as int, h as int),
            target.len() == w * h,
            data@.len() == y * w,
            data@ == target.take((y * w) as int),
        decreases h - y,
    {
        let mut x: usize = 0;
        while x < w
            invariant
                state.wf(),
                state.width == w,
                state.height == h,
                y < h,
                x <= w,
                target == outlined(state@, w as int, h as int),
                target.len() == w * h,
                data@.len() == y * w + x,
                data@ == target.take((y * w + x) as int),
            decreases w - x,
        {
            let cell: u8 = state.get(x, y);
            let next: u8 = if cell == 0 && count_neighbors(&state, x, y) > 0 {
                2
            } else {
                cell
            };
            proof {
                lemma_flat_index(w as int, h as int, x as int, y as int);
                lemma_outlined_index(state@, w as int, h as int, x as int, y as int);
                assert(next == target[(y * w + x) as int]);
                assert(target.take((y * w + x + 1) as int) =~= target.take(
                    (y * w + x) as int,
                ).push(target[(y * w + x) as int]));
            }
            data.push(next);
            x = x + 1;
        }
        proof {
            assert((y + 1) * w == y * w + w) by (nonlinear_arith);
        }
        y = y + 1;
    }
    proof {
        assert(h * w == w * h) by (nonlinear_arith);
        assert(data@ =~= target);
    }
    Bitmap { width: w, height: h, data }
}

/// A cell of the mirrored grid: each output row is the reversal of the input
/// row followed by the input row itself, so the seam sits between columns
/// `w - 1` and `w`.
pub open spec fn mirrored_cell(s: Seq<u8>, w: int, x: int, y: int) -> u8 {
    if x < w {
        s[y * w + (w - 1 - x)]
    } else {
        s[y * w + (x - w)]
    }
}

/// The grid of doubled width produced by mirroring `s` across its left edge.
pub open spec fn mirrored(s: Seq<u8>, w: int, h: int) -> Seq<u8> {
    Seq::new((2 * w * h) as nat, |i: int| mirrored_cell(s, w, i % (2 * w), i / (2 * w)))
}

/// The mirrored grid reads back cell-wise through flat indices.
pub proof fn lemma_mirrored_index(s: Seq<u8>, w: int, h: int, x: int, y: int)
    requires
        1 <= w,
        0 <= x < 2 * w,
        0 <= y < h,
    ensures
        mirrored(s, w, h).len() == 2 * w * h,
        mirrored(s, w, h)[y * (2 * w) + x] == mirrored_cell(s, w, x, y),
{
    lemma_flat_index(2 * w, h, x, y);
    assert((2 * w) * h == 2 * w * h) by (nonlinear_arith);
}

/// Mirror symmetry: every row of the mirrored grid is a palindrome, with
/// cell `x` equal to cell `2w - 1 - x`.
pub proof fn lemma_mirror_symmetry(s: Seq<u8>, w: int, h: int, x: int, y: int)
    requires
        1 <= w,
        0 <= x < 2 * w,
        0 <= y < h,
    ensures
        mirrored(s, w, h)[y * (2 * w) + x] == mirrored(s, w, h)[y * (2 * w) + (2 * w - 1 - x)],
{
    lemma_mirrored_index(s, w, h, x, y);
    lemma_mirrored_index(s, w, h, 2 * w - 1 - x, y);
}

/// Mirroring a grid whose rows are already palindromic reproduces it: the
/// left half of the output equals the input in place, and the right half
/// holds the same cells again. For non-palindromic rows the output differs
/// from the input, so mirroring is not idempotent in general.
pub proof fn lemma_mirror_palindromic(s: Seq<u8>, w: int, h: int, x: int, y: int)
    requires
        1 <= w,
        0 <= x < w,
        0 <= y < h,
        forall|a: int, b: int|
            0 <= a < w && 0 <= b < h ==> #[trigger] s[b * w + a] == s[b * w + (w - 1 - a)],
    ensures
        mirrored(s, w, h)[y * (2 * w) + x] == s[y * w + x],
        mirrored(s, w, h)[y * (2 * w) + (x + w)] == s[y * w + x],
{
    lemma_mirrored_index(s, w, h, x, y);
    lemma_mirrored_index(s, w, h, x + w, y);
    assert(s[y * w + x] == s[y * w + (w - 1 - x)]);
}

/// Doubles the grid's width by writing, for every input row, the reversed
/// row followed by the original row.
pub fn mirror(state: Bitmap) -> (r: Bitmap)
    requires
        state.wf(),
        2 * state.width <= usize::MAX,
        2 * state.width * state.height <= usize::MAX,
    ensures
        r.width == 2 * state.width,
        r.height == state.height,
        r.wf(),
        r@ == mirrored(state@, state.width as int, state.height as int),
{
    let w: usize = state.width;
    let h: usize = state.height;
    let w2: usize = 2 * w;
    let ghost target = mirrored(state@, w as int, h as int);
    let mut data: Vec<u8> = Vec::new();
    let mut y: usize = 0;
    while y < h
        invariant
            state.wf(),
            state.width == w,
            state.height == h,
            w2 == 2 * w,
            y <= h,
            target == mirrored(state@, w as int, h as int),
            target.len() == 2 * w * h,
            data@.len() == y * w2,
            data@ == target.take((y * w2) as int),
        decreases h - y,
    {
        let mut x: usize = 0;
        while x < w2
            invariant
                state.wf(),
                state.width == w,
                state.height == h,
                w2 == 2 * w,
                y < h,
                x <= w2,
                target == mirrored(state@, w as int, h as int),
                target.len() == 2 * w * h,
                data@.len() == y * w2 + x,
                data@ == target.take((y * w2 + x) as int),
            decreases w2 - x,
        {
            let cell: u8 = if x < w {
                state.get(w - 1 - x, y)
            } else {
                state.get(x - w, y)
            };
            proof {
                lemma_flat_index(w2 as int, h as int, x as int, y as int);
                lemma_mirrored_index(state@, w as int, h as int, x as int, y as int);
                assert(cell == target[(y * w2 + x) as int]);
                assert(target.take((y * w2 + x + 1) as int) =~= target.take(
                    (y * w2 + x) as int,
                ).push(target[(y * w2 + x) as int]));
            }
            data.push(cell);
            x = x + 1;
        }
        proof {
            assert((y + 1) * w2 == y * w2 + w2) by (nonlinear_arith);
        }
        y = y + 1;
    }
    proof {
        assert(h * w2 == 2 * w * h) by (nonlinear_arith)
            requires
                w2 == 2 * w,
        ;
        assert(data@ =~= target);
    }
    Bitmap { width: w2, height: h, data }
}

/// A well-formed seed grid: the 4-by-8 layout, every cell `0` or `1`.
pub open spec fn valid_seed(s: Seq<u8>) -> bool {
    &&& s.len() == 32
    &&& forall|i: int| 0 <= i < s.len() ==> s[i] <= 1
}

/// The deterministic part of the pipeline as one function of the seed grid:
/// two evolutions, growth, outline classification, and mirroring.
pub open spec fn sprite_of(s: Seq<u8>) -> Seq<u8> {
    mirrored(outlined(grown(evolved(evolved(s, 4, 8), 4, 8)), 5, 10), 5, 10)
}

/// Every stage after seeding is a pure function of its input grid: equal
/// views give equal outputs, so a sprite is fully determined by its seed.
pub proof fn lemma_stages_deterministic(a: Seq<u8>, b: Seq<u8>, w: int, h: int)
    requires
        a == b,
    ensures
        evolved(a, w, h) == evolved(b, w, h),
        grown(a) == grown(b),
        outlined(a, w, h) == outlined(b, w, h),
        mirrored(a, w, h) == mirrored(b, w, h),
        sprite_of(a) == sprite_of(b),
{
}

/// Every cell of a generated sprite is one of the three valid values:
/// background `0`, fill `1`, or outline `2`.
pub proof fn lemma_sprite_cells(s: Seq<u8>, x: int, y: int)
    requires
        0 <= x < 10,
        0 <= y < 10,
    ensures
        sprite_of(s)[y * 10 + x] <= 2,
{
    let e2 = evolved(evolved(s, 4, 8), 4, 8);
    let g = grown(e2);
    let o = outlined(g, 5, 10);
    lemma_mirrored_index(o, 5, 10, x, y);
    let x2: int = if x < 5 {
        4 - x
    } else {
        x - 5
    };
    assert(sprite_of(s)[y * 10 + x] == o[y * 5 + x2]);
    lemma_outlined_index(g, 5, 10, x2, y);
    lemma_grown_index(e2, x2, y);
    if 1 <= y <= 8 && x2 < 4 {
        let j: int = (y - 1) * 4 + x2;
        assert(e2[j] <= 1);
    }
    assert(g[y * 5 + x2] <= 1);
}

impl Bitmap {
    /// The flat data holds exactly one cell for each coordinate pair.
    pub open spec fn wf(&self) -> bool {
        self@.len() == self.width * self.height
    }

    /// A fresh all-zero (background) grid of the given size.
    pub fn new(width: usize, height: usize) -> (r: Bitmap)
        requires
            width * height <= usize::MAX,
        ensures
            r.width == width,
            r.height == height,
            r.wf(),
            forall|i: int| 0 <= i < r@.len() ==> r@[i] == 0,
    {
        let total: usize = width * height;
        let mut data: Vec<u8> = Vec::new();
        let mut k: usize = 0;
        while k < total
            invariant
                k <= total,
                data@.len() == k,
                forall|i: int| 0 <= i < k ==> data@[i] == 0,
            decreases total - k,
        {
            data.push(0);
            k = k + 1;
        }
        Bitmap { width, height, data }
    }

    /// Fills a grid of the given size with independent uniform binary
    /// draws: each cell is `1` or `0` with equal probability. This is the
    /// only nondeterministic stage of the pipeline.
    pub fn generate(width: usize, height: usize) -> (r: Bitmap)
        requires
            width * height <= usize::MAX,
        ensures
            r.width == width,
            r.height == height,
            r.wf(),
            forall|i: int| 0 <= i < r@.len() ==> r@[i] <= 1,
    {
        let total: usize = width * height;
        let mut data: Vec<u8> = Vec::new();
        let mut k: usize = 0;
        while k < total
            invariant
                k <= total,
                data@.len() == k,
                forall|i: int| 0 <= i < k ==> data@[i] <= 1,
            decreases total - k,
        {
            data.push(crate::rng::random_binary());
            k = k + 1;
        }
        Bitmap { width, height, data }
    }

    /// Bounds-checked read of the cell at `(x, y)`.
    pub fn get(&self, x: usize, y: usize) -> (r: u8)
        requires
            self.wf(),
            x < self.width,
            y < self.height,
        ensures
            r == self@[y * self.width + x],
    {
        let _len: usize = self.data.len();
        proof {
            lemma_flat_index(self.width as int, self.height as int, x as int, y as int);
        }
        self.data[y * self.width + x]
    }

    /// Bounds-checked mutable access to the cell at `(x, y)`: the grid's
    /// shape is unchanged, and only that cell takes whatever value the
    /// caller writes through the reference.
    pub fn get_mut(&mut self, x: usize, y: usize) -> (element: &mut u8)
        requires
            old(self).wf(),
            x < old(self).width,
            y < old(self).height,
        ensures
            *element == old(self)@[y * old(self).width + x],
            final(self).width == old(self).width,
            final(self).height == old(self).height,
            final(self).wf(),
            final(self)@ == old(self)@.update(y * old(self).width + x, *final(element)),
    {
        proof {
            lemma_flat_index(self.width as int, self.height as int, x as int, y as int);
        }
        let _len: usize = self.data.len();
        let i: usize = y * self.width + x;
        &mut self.data[i]
    }

    /// Bounds-checked write of the cell at `(x, y)`.
    pub fn set(&mut self, x: usize, y: usize, value: u8)
        requires
            old(self).wf(),
            x < old(self).width,
            y < old(self).height,
        ensures
            final(self).width == old(self).width,
            final(self).height == old(self).height,
            final(self).wf(),
            final(self)@ == old(self)@.update(y * old(self).width + x, value),
    {
        proof {
            lemma_flat_index(self.width as int, self.height as int, x as int, y as int);
        }
        let _len: usize = self.data.len();
        let i: usize = y * self.width + x;
        self.data[i] = value;
    }
}

/// Runs the whole pipeline: a random 4-by-8 seed, two automaton evolutions,
/// growth to 5-by-10 with padding, outline classification, and mirroring
/// into the final left-right symmetric 10-by-10 sprite.
pub fn generate_sprite_bitmap() -> (r: Bitmap)
    ensures
        r.width == 10,
        r.height == 10,
        r.wf(),
        exists|s: Seq<u8>| valid_seed(s) && r@ == #[trigger] sprite_of(s),
        forall|x: int, y: int|
            0 <= x < 10 && 0 <= y < 10 ==> #[trigger] r@[y * 10 + x] == r@[y * 10 + (9 - x)],
        forall|x: int, y: int| 0 <= x < 10 && 0 <= y < 10 ==> #[trigger] r@[y * 10 + x] <= 2,
{
    let seed = Bitmap::generate(4, 8);
    let ghost s0 = seed@;
    let once = evolve(seed);
    let twice = evolve(once);
    let grown_map = grow(twice);
    let outlined_map = classify_outline(grown_map);
    let ghost o0 = outlined_map@;
    let result = mirror(outlined_map);
    proof {
        assert(valid_seed(s0));
        assert(result@ == sprite_of(s0));
        assert forall|x: int, y: int| 0 <= x < 10 && 0 <= y < 10 implies #[trigger] result@[y * 10
            + x] == result@[y * 10 + (9 - x)] by {
            lemma_mirror_symmetry(o0, 5, 10, x, y);
        }
        assert forall|x: int, y: int| 0 <= x < 10 && 0 <= y < 10 implies #[trigger] result@[y * 10
            + x] <= 2 by {
            lemma_sprite_cells(s0, x, y);
        }
    }
    result
}

} // verus!
