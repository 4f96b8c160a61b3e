use vstd::prelude::*;
use vstd::arithmetic::div_mod::lemma_fundamental_div_mod_converse;

verus! {

/// The three states a sprite cell can take. The raw automaton stage only
/// produces `Background` and `Color`; `Outline` appears after growth.
#[derive(Clone, Copy, PartialEq, Eq, Structural, Debug)]
pub enum PixelType {
    Background,
    Color,
    Outline,
}

/// A rectangular grid of cells stored row-major: the cell at `(x, y)` lives
/// at flat index `y * width + x`, origin top-left.
pub struct PixelMap {
    pub width: usize,
    pub height: usize,
    pub data: Vec<PixelType>,
}

impl View for PixelMap {
    type V = Seq<PixelType>;

    open spec fn view(&self) -> Seq<PixelType> {
        self.data@
    }
}

/// The flat index of an in-bounds cell decomposes back into its coordinates
/// and lies below the grid's area.
pub proof fn lemma_flat_index(w: int, h: int, x: int, y: int)
    requires
        0 <= x < w,
        0 <= y < h,
    ensures
        0 <= y * w + x < w * h,
        (y * w + x) % w == x,
        (y * w + x) / w == y,
{
    assert(0 <= y * w + x < w * h) by (nonlinear_arith)
        requires
            0 <= x < w,
            0 <= y < h,
    ;
    lemma_fundamental_div_mod_converse(y * w + x, w, y, x);
}

/// Number of in-bounds orthogonal (axis-adjacent) neighbors of `(x, y)` that
/// are `Color`, in a `w`-by-`h` grid stored row-major in `s`. Off-grid
/// positions are absent: they are neither counted nor wrapped around.
pub open spec fn neighbor_count(s: Seq<PixelType>, w: int, h: int, x: int, y: int) -> int {
    (if x > 0 && s[y * w + (x - 1)] == PixelType::Color {
        1int
    } else {
        0int
    }) + (if y > 0 && s[(y - 1) * w + x] == PixelType::Color {
        1int
    } else {
        0int
    }) + (if x < w - 1 && s[y * w + (x + 1)] == PixelType::Color {
        1int
    } else {
        0int
    }) + (if y < h - 1 && s[(y + 1) * w + x] == PixelType::Color {
        1int
    } else {
        0int
    })
}

/// One step of the automaton rule at a single cell, read entirely from the
/// pre-evolution grid: a `Background` cell with at most one `Color` neighbor
/// becomes `Color`, a `Color` cell with exactly two or three `Color`
/// neighbors stays `Color`, and every other cell becomes `Background`.
pub open spec fn next_cell(s: Seq<PixelType>, w: int, h: int, x: int, y: int) -> PixelType {
    let cell: PixelType = s[y * w + x];
    let n: int = neighbor_count(s, w, h, x, y);
    if (cell == PixelType::Background && n <= 1) || (cell == PixelType::Color && (n == 2 || n
        == 3)) {
        PixelType::Color
    } else {
        PixelType::Background
    }
}

/// The grid produced by one simultaneous evolution pass over `s`.
pub open spec fn evolved(s: Seq<PixelType>, w: int, h: int) -> Seq<PixelType> {
    Seq::new((w * h) as nat, |i: int| next_cell(s, w, h, i % w, i / w))
}

/// The evolved grid has one cell per coordinate pair, and the cell at
/// `(x, y)` follows the automaton rule applied to the input grid.
pub proof fn lemma_evolved_index(s: Seq<PixelType>, w: int, h: int, x: int, y: int)
    requires
        0 <= x < w,
        0 <= y < h,
    ensures
        evolved(s, w, h).len() == w * h,
        evolved(s, w, h)[y * w + x] == next_cell(s, w, h, x, y),
{
    lemma_flat_index(w, h, x, y);
}

/// Edge behavior of neighbor counting: at most four neighbors anywhere, at
/// most three for a cell on a border, at most two for a corner cell.
pub proof fn lemma_neighbor_count_bounds(s: Seq<PixelType>, w: int, h: int, x: int, y: int)
    requires
        0 <= x < w,
        0 <= y < h,
    ensures
        0 <= neighbor_count(s, w, h, x, y) <= 4,
        (x == 0 || x == w - 1) && (y == 0 || y == h - 1) ==> neighbor_count(s, w, h, x, y) <= 2,
        x == 0 || x == w - 1 || y == 0 || y == h - 1 ==> neighbor_count(s, w, h, x, y) <= 3,
{
}

/// Counts the `Color` cells among the at most four in-bounds orthogonal
/// neighbors of `(x, y)`.
pub fn count_neighbors(state: &PixelMap, x: usize, y: usize) -> (r: u16)
    requires
        state.wf(),
        x < state.width,
        y < state.height,
    ensures
        r as int == neighbor_count(state@, state.width as int, state.height as int, x as int, y as int),
{
    let mut count: u16 = 0;
    if x > 0 && *state.get(x - 1, y) == PixelType::Color {
        count += 1;
    }
    if y > 0 && *state.get(x, y - 1) == PixelType::Color {
        count += 1;
    }
    if x < state.width - 1 && *state.get(x + 1, y) == PixelType::Color {
        count += 1;
    }
    if y < state.height - 1 && *state.get(x, y + 1) == PixelType::Color {
        count += 1;
    }
    count
}

/// One simultaneous evolution pass: every output cell is computed from the
/// immutable input snapshot, so the update order cannot contaminate the
/// neighbor counts.
pub fn evolve(state: PixelMap) -> (r: PixelMap)
    requires
        state.wf(),
    ensures
        r.width == state.width,
        r.height == state.height,
        r.wf(),
        r@ == evolved(state@, state.width as int, state.height as int),
{
    let w: usize = state.width;
    let h: usize = state.height;
    let ghost target = evolved(state@, w as int, h as int);
    let mut data: Vec<PixelType> = Vec::new();
    let mut y: usize = 0;
    while y < h
        invariant
            state.wf(),
            state.width == w,
            state.height == h,
            y <= h,
            target == evolved(state@, w as int, h as int),
            target.len() == w * h,
            data@.len() == y * w,
            data@ == target.take((y * w) as int),
        decreases h - y,
    {
        let mut x: usize = 0;
        while x < w
            invariant
                state.wf(),
                state.width == w,
                state.height == h,
                y < h,
                x <= w,
                target == evolved(state@, w as int, h as int),
                target.len() == w * h,
                data@.len() == y * w + x,
                data@ == target.take((y * w + x) as int),
            decreases w - x,
        {
            let cell: PixelType = *state.get(x, y);
            let n: u16 = count_neighbors(&state, x, y);
            let next: PixelType = if (cell == PixelType::Background && n <= 1) || (cell
                == PixelType::Color && (n == 2 || n == 3)) {
                PixelType::Color
            } else {
                PixelType::Background
            };
            proof {
                lemma_flat_index(w as int, h as int, x as int, y as int);
                lemma_evolved_index(state@, w as int, h as int, x as int, y as int);
                assert(next == target[(y * w + x) as int]);
                assert(target.take((y * w + x + 1) as int) =~= target.take(
                    (y * w + x) as int,
                ).push(target[(y * w + x) as int]));
            }
            data.push(next);
            x = x + 1;
        }
        proof {
            assert((y + 1) * w == y * w + w) by (nonlinear_arith);
        }
        y = y + 1;
    }
    proof {
        assert(h * w == w * h) by (nonlinear_arith);
        assert(data@ =~= target);
    }
    PixelMap { width: w, height: h, data }
}

/// A cell of the grown 5-by-10 grid: the embedded 4-by-8 grid shifted one
/// row down, with `Background` padding in row 0, row 9 and column 4. The
/// left edge stays unpadded: it becomes the mirror seam.
pub open spec fn grown_cell(s: Seq<PixelType>, x: int, y: int) -> PixelType {
    if 1 <= y <= 8 && 0 <= x < 4 {
        s[(y - 1) * 4 + x]
    } else {
        PixelType::Background
    }
}

/// The 5-by-10 grid that embeds the evolved 4-by-8 grid with `Background`
/// padding on top, right and bottom only.
pub open spec fn grown(s: Seq<PixelType>) -> Seq<PixelType> {
    Seq::new(50, |i: int| grown_cell(s, i % 5, i / 5))
}

/// The grown grid reads back cell-wise through flat indices.
pub proof fn lemma_grown_index(s: Seq<PixelType>, x: int, y: int)
    requires
        0 <= x < 5,
        0 <= y < 10,
    ensures
        grown(s).len() == 50,
        grown(s)[y * 5 + x] == grown_cell(s, x, y),
{
    lemma_flat_index(5, 10, x, y);
}

/// Padding: rows 0 and 9 of the grown grid are all `Background`, and so is
/// column 4 of every row.
pub proof fn lemma_grow_padding(s: Seq<PixelType>, x: int, y: int)
    requires
        0 <= x < 5,
        0 <= y < 10,
    ensures
        y == 0 ==> grown(s)[y * 5 + x] == PixelType::Background,
        y == 9 ==> grown(s)[y * 5 + x] == PixelType::Background,
        x == 4 ==> grown(s)[y * 5 + x] == PixelType::Background,
{
    lemma_grown_index(s, x, y);
}

/// Embeds an evolved 4-by-8 grid into a fresh 5-by-10 grid, padding the top,
/// right and bottom with `Background` and leaving the left edge, the future
/// mirror seam, unpadded. This transform is deliberately fixed to the
/// 4-by-8 to 5-by-10 geometry; it is not a generic border routine.
pub fn grow(state: PixelMap) -> (r: PixelMap)
    requires
        state.wf(),
        state.width == 4,
        state.height == 8,
    ensures
        r.width == 5,
        r.height == 10,
        r.wf(),
        r@ == grown(state@),
{
    let ghost target = grown(state@);
    let mut data: Vec<PixelType> = Vec::new();
    let mut y: usize = 0;
    while y < 10
        invariant
            state.wf(),
            state.width == 4,
            state.height == 8,
            y <= 10,
            target == grown(state@),
            target.len() == 50,
            data@.len() == y * 5,
            data@ == target.take((y * 5) as int),
        decreases 10 - y,
    {
        let mut x: usize = 0;
        while x < 5
            invariant
                state.wf(),
                state.width == 4,
                state.height == 8,
                y < 10,
                x <= 5,
                target == grown(state@),
                target.len() == 50,
                data@.len() == y * 5 + x,
                data@ == target.take((y * 5 + x) as int),
            decreases 5 - x,
        {
            let cell: PixelType = if 1 <= y && y <= 8 && x < 4 {
                *state.get(x, y - 1)
            } else {
                PixelType::Background
            };
            proof {
                lemma_grown_index(state@, x as int, y as int);
                assert(cell == target[(y * 5 + x) as int]);
                assert(target.take((y * 5 + x + 1) as int) =~= target.take(
                    (y * 5 + x) as int,
                ).push(target[(y * 5 + x) as int]));
            }
            data.push(cell);
            x = x + 1;
        }
        y = y + 1;
    }
    proof {
        assert(data@ =~= target);
    }
    PixelMap { width: 5, height: 10, data }
}

/// A cell after outline classification: a `Background` cell with at least
/// one in-bounds `Color` neighbor becomes `Outline`; every other cell keeps
/// its state.
pub open spec fn outlined_cell(s: Seq<PixelType>, w: int, h: int, x: int, y: int) -> PixelType {
    if s[y * w + x] == PixelType::Background && neighbor_count(s, w, h, x, y) > 0 {
        PixelType::Outline
    } else {
        s[y * w + x]
    }
}

/// The grid produced by classifying outlines against the stable snapshot `s`.
pub open spec fn outlined(s: Seq<PixelType>, w: int, h: int) -> Seq<PixelType> {
    Seq::new((w * h) as nat, |i: int| outlined_cell(s, w, h, i % w, i / w))
}

/// The classified grid reads back cell-wise through flat indices.
pub proof fn lemma_outlined_index(s: Seq<PixelType>, w: int, h: int, x: int, y: int)
    requires
        0 <= x < w,
        0 <= y < h,
    ensures
        outlined(s, w, h).len() == w * h,
        outlined(s, w, h)[y * w + x] == outlined_cell(s, w, h, x, y),
{
    lemma_flat_index(w, h, x, y);
}

/// Outline placement: in a grid that holds no `Outline` cell yet, a cell is
/// `Outline` after classification iff it was `Background` with at least one
/// in-bounds `Color` neighbor, and `Color` cells are never reclassified.
pub proof fn lemma_outline_placement(s: Seq<PixelType>, w: int, h: int, x: int, y: int)
    requires
        0 <= x < w,
        0 <= y < h,
        s.len() == w * h,
        forall|i: int| 0 <= i < s.len() ==> s[i] != PixelType::Outline,
    ensures
        outlined(s, w, h)[y * w + x] == PixelType::Outline <==> (s[y * w + x]
            == PixelType::Background && neighbor_count(s, w, h, x, y) > 0),
        s[y * w + x] == PixelType::Color ==> outlined(s, w, h)[y * w + x] == PixelType::Color,
{
    lemma_flat_index(w, h, x, y);
    lemma_outlined_index(s, w, h, x, y);
    assert(s[y * w + x] != PixelType::Outline);
}

/// Rewrites every `Background` cell that touches the silhouette into
/// `Outline`, reading all neighbor counts from the unmodified input snapshot
/// so that the rewrite order cannot influence the result.
pub fn classify_outline(state: PixelMap) -> (r: PixelMap)
    requires
        state.wf(),
    ensures
        r.width == state.width,
        r.height == state.height,
        r.wf(),
        r@ == outlined(state@, state.width as int, state.height as int),
{
    let w: usize = state.width;
    let h: usize = state.height;
    let ghost target = outlined(state@, w as int, h as int);
    let mut data: Vec<PixelType> = Vec::new();
    let mut y: usize = 0;
    while y < h
        invariant
            state.wf(),
            state.width == w,
            state.height == h,
            y <= h,
            target == outlined(state@, w as int, h as int),
            target.len() == w * h,
            data@.len() == y * w,
            data@ == target.take((y * w) as int),
        decreases h - y,
    {
        let mut x: usize = 0;
        while x < w
            invariant
                state.wf(),
                state.width == w,
                state.height == h,
                y < h,
                x <= w,
                target == outlined(state@, w as int, h as int),
                target.len() == w * h,
                data@.len() == y * w + x,
                data@ == target.take((y * w + x) as int),
            decreases w - x,
        {
            let cell: PixelType = *state.get(x, y);
            let next: PixelType = if cell == PixelType::Background && count_neighbors(
                &state,
                x,
                y,
            ) > 0 {
                PixelType::Outline
            } else {
                cell
            };
            proof {
                lemma_flat_index(w as int, h as int, x as int, y as int);
                lemma_outlined_index(state@, w as int, h as int, x as int, y as int);
                assert(next == target[(y * w + x) as int]);
                assert(target.take((y * w + x + 1) as int) =~= target.take(
                    (y * w + x) as int,
                ).push(target[(y * w + x) as int]));
            }
            data.push(next);
            x = x + 1;
        }
        proof {
            assert((y + 1) * w == y * w + w) by (nonlinear_arith);
        }
        y = y + 1;
    }
    proof {
        assert(h * w == w * h) by (nonlinear_arith);
        assert(data@ =~= target);
    }
    PixelMap { width: w, height: h, data }
}

/// A cell of the mirrored grid: each output row is the reversal of the input
/// row followed by the input row itself, so the seam sits between columns
/// `w - 1` and `w`.
pub open spec fn mirrored_cell(s: Seq<PixelType>, w: int, x: int, y: int) -> PixelType {
    if x < w {
        s[y * w + (w - 1 - x)]
    } else {
        s[y * w + (x - w)]
    }
}

/// The grid of doubled width produced by mirroring `s` across its left edge.
pub open spec fn mirrored(s: Seq<PixelType>, w: int, h: int) -> Seq<PixelType> {
    Seq::new((2 * w * h) as nat, |i: int| mirrored_cell(s, w, i % (2 * w), i / (2 * w)))
}

/// The mirrored grid reads back cell-wise through flat indices.
pub proof fn lemma_mirrored_index(s: Seq<PixelType>, w: int, h: int, x: int, y: int)
    requires
        1 <= w,
        0 <= x < 2 * w,
        0 <= y < h,
    ensures
        mirrored(s, w, h).len() == 2 * w * h,
        mirrored(s, w, h)[y * (2 * w) + x] == mirrored_cell(s, w, x, y),
{
    lemma_flat_index(2 * w, h, x, y);
    assert((2 * w) * h == 2 * w * h) by (nonlinear_arith);
}

/// Mirror symmetry: every row of the mirrored grid is a palindrome, with
/// cell `x` equal to cell `2w - 1 - x`.
pub proof fn lemma_mirror_symmetry(s: Seq<PixelType>, w: int, h: int, x: int, y: int)
    requires
        1 <= w,
        0 <= x < 2 * w,
        0 <= y < h,
    ensures
        mirrored(s, w, h)[y * (2 * w) + x] == mirrored(s, w, h)[y * (2 * w) + (2 * w - 1 - x)],
{
    lemma_mirrored_index(s, w, h, x, y);
    lemma_mirrored_index(s, w, h, 2 * w - 1 - x, y);
}

/// Mirroring a grid whose rows are already palindromic reproduces it: the
/// left half of the output equals the input in place, and the right half
/// holds the same cells again. For non-palindromic rows the output differs
/// from the input, so mirroring is not idempotent in general.
pub proof fn lemma_mirror_palindromic(s: Seq<PixelType>, w: int, h: int, x: int, y: int)
    requires
        1 <= w,
        0 <= x < w,
        0 <= y < h,
        forall|a: int, b: int|
            0 <= a < w && 0 <= b < h ==> #[trigger] s[b * w + a] == s[b * w + (w - 1 - a)],
    ensures
        mirrored(s, w, h)[y * (2 * w) + x] == s[y * w + x],
        mirrored(s, w, h)[y * (2 * w) + (x + w)] == s[y * w + x],
{
    lemma_mirrored_index(s, w, h, x, y);
    lemma_mirrored_index(s, w, h, x + w, y);
    assert(s[y * w + x] == s[y * w + (w - 1 - x)]);
}

/// Doubles the grid's width by writing, for every input row, the reversed
/// row followed by the original row.
pub fn mirror(state: PixelMap) -> (r: PixelMap)
    requires
        state.wf(),
        2 * state.width <= usize::MAX,
        2 * state.width * state.height <= usize::MAX,
    ensures
        r.width == 2 * state.width,
        r.height == state.height,
        r.wf(),
        r@ == mirrored(state@, state.width as int, state.height as int),
{
    let w: usize = state.width;
    let h: usize = state.height;
    let w2: usize = 2 * w;
    let ghost target = mirrored(state@, w as int, h as int);
    let mut data: Vec<PixelType> = Vec::new();
    let mut y: usize = 0;
    while y < h
        invariant
            state.wf(),
            state.width == w,
            state.height == h,
            w2 == 2 * w,
            y <= h,
            target == mirrored(state@, w as int, h as int),
            target.len() == 2 * w * h,
            data@.len() == y * w2,
            data@ == target.take((y * w2) as int),
        decreases h - y,
    {
        let mut x: usize = 0;
        while x < w2
            invariant
                state.wf(),
                state.width == w,
                state.height == h,
                w2 == 2 * w,
                y < h,
                x <= w2,
                target == mirrored(state@, w as int, h as int),
                target.len() == 2 * w * h,
                data@.len() == y * w2 + x,
                data@ == target.take((y * w2 + x) as int),
            decreases w2 - x,
        {
            let cell: PixelType = if x < w {
                *state.get(w - 1 - x, y)
            } else {
                *state.get(x - w, y)
            };
            proof {
                lemma_flat_index(w2 as int, h as int, x as int, y as int);
                lemma_mirrored_index(state@, w as int, h as int, x as int, y as int);
                assert(cell == target[(y * w2 + x) as int]);
                assert(target.take((y * w2 + x + 1) as int) =~= target.take(
                    (y * w2 + x) as int,
                ).push(target[(y * w2 + x) as int]));
            }
            data.push(cell);
            x = x + 1;
        }
        proof {
            assert((y + 1) * w2 == y * w2 + w2) by (nonlinear_arith);
        }
        y = y + 1;
    }
    proof {
        assert(h * w2 == 2 * w * h) by (nonlinear_arith)
            requires
                w2 == 2 * w,
        ;
        assert(data@ =~= target);
    }
    PixelMap { width: w2, height: h, data }
}

/// A well-formed seed grid: the 4-by-8 layout, every cell either
/// `Background` or `Color`.
pub open spec fn valid_seed(s: Seq<PixelType>) -> bool {
    &&& s.len() == 32
    &&& forall|i: int|
        0 <= i < s.len() ==> (s[i] == PixelType::Background || s[i] == PixelType::Color)
}

/// The deterministic part of the pipeline as one function of the seed grid:
/// two evolutions, growth, outline classification, and mirroring.
pub open spec fn sprite_of(s: Seq<PixelType>) -> Seq<PixelType> {
    mirrored(outlined(grown(evolved(evolved(s, 4, 8), 4, 8)), 5, 10), 5, 10)
}

/// Every stage after seeding is a pure function of its input grid: equal
/// views give equal outputs, so a sprite is fully determined by its seed.
pub proof fn lemma_stages_deterministic(a: Seq<PixelType>, b: Seq<PixelType>, w: int, h: int)
    requires
        a == b,
    ensures
        evolved(a, w, h) == evolved(b, w, h),
        grown(a) == grown(b),
        outlined(a, w, h) == outlined(b, w, h),
        mirrored(a, w, h) == mirrored(b, w, h),
        sprite_of(a) == sprite_of(b),
{
}

/// Runs the whole pipeline: a random 4-by-8 seed, two automaton evolutions,
/// growth to 5-by-10 with padding, outline classification, and mirroring
/// into the final left-right symmetric 10-by-10 sprite.
pub fn generate_sprite_map() -> (r: PixelMap)
    ensures
        r.width == 10,
        r.height == 10,
        r.wf(),
        exists|s: Seq<PixelType>| valid_seed(s) && r@ == #[trigger] sprite_of(s),
        forall|x: int, y: int|
            0 <= x < 10 && 0 <= y < 10 ==> #[trigger] r@[y * 10 + x] == r@[y * 10 + (9 - x)],
{
    let seed = PixelMap::generate(4, 8);
    let ghost s0 = seed@;
    let once = evolve(seed);
    let twice = evolve(once);
    let grown_map = grow(twice);
    let ghost g0 = grown_map@;
    let outlined_map = classify_outline(grown_map);
    let ghost o0 = outlined_map@;
    let result = mirror(outlined_map);
    proof {
        assert(valid_seed(s0));
        assert(result@ == sprite_of(s0));
        assert forall|x: int, y: int| 0 <= x < 10 && 0 <= y < 10 implies #[trigger] result@[y * 10
            + x] == result@[y * 10 + (9 - x)] by {
            lemma_mirror_symmetry(o0, 5, 10, x, y);
        }
    }
    result
}

impl PixelMap {
    /// The flat data holds exactly one cell for each coordinate pair.
    pub open spec fn wf(&self) -> bool {
        self@.len() == self.width * self.height
    }

    /// A fresh all-`Background` grid of the given size.
    pub fn new(width: usize, height: usize) -> (r: PixelMap)
        requires
            width * height <= usize::MAX,
        ensures
            r.width == width,
            r.height == height,
            r.wf(),
            forall|i: int| 0 <= i < r@.len() ==> r@[i] == PixelType::Background,
    {
        let total: usize = width * height;
        let mut data: Vec<PixelType> = Vec::new();
        let mut k: usize = 0;
        while k < total
            invariant
                k <= total,
                data@.len() == k,
                forall|i: int| 0 <= i < k ==> data@[i] == PixelType::Background,
            decreases total - k,
        {
            data.push(PixelType::Background);
            k = k + 1;
        }
        PixelMap { width, height, data }
    }

    /// Fills a grid of the given size with independent uniform binary
    /// draws: each cell is `Color` or `Background` with equal probability.
    /// This is the only nondeterministic stage of the pipeline.
    pub fn generate(width: usize, height: usize) -> (r: PixelMap)
        requires
            width * height <= usize::MAX,
        ensures
            r.width == width,
            r.height == height,
            r.wf(),
            forall|i: int|
                0 <= i < r@.len() ==> (r@[i] == PixelType::Background || r@[i]
                    == PixelType::Color),
    {
        let total: usize = width * height;
        let mut data: Vec<PixelType> = Vec::new();
        let mut k: usize = 0;
        while k < total
            invariant
                k <= total,
                data@.len() == k,
                forall|i: int|
                    0 <= i < k ==> (data@[i] == PixelType::Background || data@[i]
                        == PixelType::Color),
            decreases total - k,
        {
            let cell: PixelType = if crate::rng::random_binary() == 1 {
                PixelType::Color
            } else {
                PixelType::Background
            };
            data.push(cell);
            k = k + 1;
        }
        PixelMap { width, height, data }
    }

    /// Bounds-checked read of the cell at `(x, y)`.
    pub fn get(&self, x: usize, y: usize) -> (r: &PixelType)
        requires
            self.wf(),
            x < self.width,
            y < self.height,
        ensures
            *r == self@[y * self.width + x],
    {
        let _len: usize = self.data.len();
        proof {
            lemma_flat_index(self.width as int, self.height as int, x as int, y as int);
        }
        &self.data[y * self.width + x]
    }

    /// Bounds-checked mutable access to the cell at `(x, y)`: the grid's
    /// shape is unchanged, and only that cell takes whatever value the
    /// caller writes through the reference.
    pub fn get_mut(&mut self, x: usize, y: usize) -> (element: &mut PixelType)
        requires
            old(self).wf(),
            x < old(self).width,
            y < old(self).height,
        ensures
            *element == old(self)@[y * old(self).width + x],
            final(self).width == old(self).width,
            final(self).height == old(self).height,
            final(self).wf(),
            final(self)@ == old(self)@.update(y * old(self).width + x, *final(element)),
    {
        proof {
            lemma_flat_index(self.width as int, self.height as int, x as int, y as int);
        }
        let _len: usize = self.data.len();
        let i: usize = y * self.width + x;
        &mut self.data[i]
    }

    /// Bounds-checked write of the cell at `(x, y)`.
    pub fn set(&mut self, x: usize, y: usize, value: PixelType)
        requires
            old(self).wf(),
            x < old(self).width,
            y < old(self).height,
        ensures
            final(self).width == old(self).width,
            final(self).height == old(self).height,
            final(self).wf(),
            final(self)@ == old(self)@.update(y * old(self).width + x, value),
    {
        proof {
            lemma_flat_index(self.width as int, self.height as int, x as int, y as int);
        }
        let _len: usize = self.data.len();
        let i: usize = y * self.width + x;
        self.data[i] = value;
    }
}

} // verus!
