//! The board snapshot, the neighbor rule, the work partitioner and the
//! generation engine.

use vstd::prelude::*;
use vstd::arithmetic::div_mod::{lemma_div_pos_is_pos, lemma_fundamental_div_mod, lemma_mod_pos_bound};

verus! {

/// The value a live cell carries in the cell array.
pub const LIVE: u8 = 1;

/// The value a dead cell carries in the cell array.
pub const DEAD: u8 = 0;

/// The starting patterns a board can be initialized with.
#[derive(PartialEq, Eq, Structural, Clone, Copy, Debug)]
pub enum Shape {
    Empty,
    Random,
    Glider,
    Blinker,
}

/// The cell array of a board every cell of which is `DEAD`.
pub open spec fn empty_cells(total: nat) -> Seq<u8> {
    Seq::new(total, |i: int| DEAD)
}

/// The cell array of the five-cell glider placed at the origin of a board of
/// the given width: live cells at linear offsets `2*width`, `2*width + 1`,
/// `2*width + 2`, `width + 2` and `1`.
pub open spec fn glider_cells(width: int, total: nat) -> Seq<u8> {
    Seq::new(
        total,
        |i: int|
            if i == 2 * width || i == 2 * width + 1 || i == 2 * width + 2 || i == width + 2 || i
                == 1 {
                LIVE
            } else {
                DEAD
            },
    )
}

/// The fixed 5x5 blinker board: a vertical three-cell bar centered in a
/// 5x5 dead field.
pub open spec fn blinker_cells() -> Seq<u8> {
    seq![
        DEAD, DEAD, DEAD, DEAD, DEAD,
        DEAD, DEAD, LIVE, DEAD, DEAD,
        DEAD, DEAD, LIVE, DEAD, DEAD,
        DEAD, DEAD, LIVE, DEAD, DEAD,
        DEAD, DEAD, DEAD, DEAD, DEAD,
    ]
}

/// Dimensions a board can be built with: positive, with a cell count that
/// fits in `i32`.
pub open spec fn valid_dims(width: i32, height: i32) -> bool {
    0 < width && 0 < height && width * height <= i32::MAX
}

/// The glider's five offsets all lie inside a board of these dimensions.
pub open spec fn glider_fits(width: i32, height: i32) -> bool {
    2 * width + 2 < width * height
}

/// What `BoardState::new` promises of the board it returns: the `Blinker`
/// pattern fixes the grid to 5x5 whatever dimensions were asked for (a
/// documented quirk of that pattern); every other pattern honors the request.
/// `Random` pins nothing of the cells beyond well-formedness.
pub open spec fn created(b: BoardState, width: i32, height: i32, init: Shape) -> bool {
    &&& b.wf()
    &&& (init == Shape::Blinker ==> b.width == 5 && b.height == 5 && b.cells@ == blinker_cells())
    &&& (init != Shape::Blinker ==> b.width == width && b.height == height)
    &&& (init == Shape::Empty ==> b.cells@ == empty_cells((width * height) as nat))
    &&& (init == Shape::Glider ==> b.cells@ == glider_cells(width as int, (width * height) as nat))
}

/// One generation of the game: the grid dimensions and the cell array in
/// row-major order (the cell at `(x, y)` lives at index `y * width + x`).
/// A snapshot is never mutated; each tick builds a fresh one.
#[derive(Debug)]
pub struct BoardState {
    pub width: i32,
    pub height: i32,
    pub cells: Vec<u8>,
}

/// A cell array of the given length with every cell `DEAD`.
fn dead_cells(len: usize) -> (r: Vec<u8>)
    ensures
        r@ == empty_cells(len as nat),
{
    let mut v: Vec<u8> = Vec::new();
    while v.len() < len
        invariant
            v@.len() <= len,
            forall|i: int| 0 <= i < v@.len() ==> v@[i] == DEAD,
        decreases len - v@.len(),
    {
        v.push(DEAD);
    }
    proof {
        assert(v@ =~= empty_cells(len as nat));
    }
    v
}

/// Relies on `rand::random::<bool>`: one fresh uniform draw. Nothing is
/// promised of the value beyond being one of the two cell states.
#[verifier::external_body]
fn random_cell() -> (r: u8)
    ensures
        r == DEAD || r == LIVE,
{
    if rand::random::<bool>() {
        LIVE
    } else {
        DEAD
    }
}

impl BoardState {
    /// Well-formedness: positive dimensions whose product fits in `i32`,
    /// exactly `width * height` cells, and every cell either `DEAD` or `LIVE`.
    pub open spec fn wf(&self) -> bool {
        &&& 0 < self.width
        &&& 0 < self.height
        &&& self.width * self.height <= i32::MAX
        &&& self.cells@.len() == self.width * self.height
        &&& forall|i: int|
            0 <= i < self.cells@.len() ==> (self.cells@[i] == DEAD || self.cells@[i] == LIVE)
    }

    /// A board holding the requested starting pattern. The `Blinker` pattern
    /// ignores the requested dimensions and always yields the fixed 5x5
    /// blinker board; see `created`.
    pub fn new(width: i32, height: i32, init: Shape) -> (r: BoardState)
        requires
            valid_dims(width, height),
            init == Shape::Glider ==> glider_fits(width, height),
        ensures
            created(r, width, height, init),
    {
        match init {
            Shape::Empty => BoardState::new_empty(width, height),
            Shape::Random => BoardState::new_random(width, height),
            Shape::Glider => BoardState::new_glider(width, height),
            Shape::Blinker => BoardState::new_blinker(),
        }
    }

    /// A board of the requested dimensions with every cell `DEAD`.
    pub fn new_empty(width: i32, height: i32) -> (r: BoardState)
        requires
            valid_dims(width, height),
        ensures
            r.wf(),
            r.width == width,
            r.height == height,
            r.cells@ == empty_cells((width * height) as nat),
    {
        let cells = dead_cells((width * height) as usize);
        BoardState { width, height, cells }
    }

    /// A board of the requested dimensions with every cell drawn
    /// independently from the randomness source.
    fn new_random(width: i32, height: i32) -> (r: BoardState)
        requires
            valid_dims(width, height),
        ensures
            r.wf(),
            r.width == width,
            r.height == height,
    {
        let total = (width * height) as usize;
        let mut cells = dead_cells(total);
        let mut i: usize = 0;
        while i < total
            invariant
                i <= total,
                cells@.len() == total,
                forall|k: int| 0 <= k < total ==> (cells@[k] == DEAD || cells@[k] == LIVE),
            decreases total - i,
        {
            cells[i] = random_cell();
            i = i + 1;
        }
        BoardState { width, height, cells }
    }

    /// A board of the requested dimensions holding the five-cell glider at
    /// the origin; requires dimensions large enough for the glider's offsets.
    pub fn new_glider(width: i32, height: i32) -> (r: BoardState)
        requires
            valid_dims(width, height),
            glider_fits(width, height),
        ensures
            r.wf(),
            r.width == width,
            r.height == height,
            r.cells@ == glider_cells(width as int, (width * height) as nat),
    {
        let mut cells = dead_cells((width * height) as usize);

        cells[(2 * width + 0) as usize] = LIVE;
        cells[(2 * width + 1) as usize] = LIVE;
        cells[(2 * width + 2) as usize] = LIVE;
        cells[(1 * width + 2) as usize] = LIVE;
        cells[(0 * width + 1) as usize] = LIVE;

        proof {
            assert(cells@ =~= glider_cells(width as int, (width * height) as nat));
        }
        BoardState { width, height, cells }
    }

    /// The fixed 5x5 blinker board: a vertical three-cell bar centered in a
    /// dead field, whatever dimensions the caller asked the engine for.
    pub fn new_blinker() -> (r: BoardState)
        ensures
            r.wf(),
            r.width == 5,
            r.height == 5,
            r.cells@ == blinker_cells(),
    {
        let mut cells = dead_cells(25);

        cells[7] = LIVE;
        cells[12] = LIVE;
        cells[17] = LIVE;

        proof {
            assert(cells@ =~= blinker_cells());
        }
        BoardState { width: 5, height: 5, cells }
    }

    /// The state of the cell at `(x, y)`, with every out-of-range coordinate
    /// reading as `DEAD`: the grid has a dead fringe and no wraparound.
    pub open spec fn cell(&self, x: int, y: int) -> u8 {
        if 0 <= x < self.width && 0 <= y < self.height {
            self.cells@[y * self.width + x]
        } else {
            DEAD
        }
    }

    /// The number of live cells among the 8 Moore neighbors of `(x, y)`;
    /// neighbors outside the grid contribute 0.
    pub open spec fn live_neighbors(&self, x: int, y: int) -> int {
        self.cell(x - 1, y - 1) + self.cell(x, y - 1) + self.cell(x + 1, y - 1)
            + self.cell(x + 1, y) + self.cell(x + 1, y + 1) + self.cell(x, y + 1)
            + self.cell(x - 1, y + 1) + self.cell(x - 1, y)
    }

    /// The cell at `(x, y)` if it is in range, `DEAD` otherwise.
    pub fn get_index(&self, x: i32, y: i32) -> (r: u8)
        requires
            self.wf(),
        ensures
            r == self.cell(x as int, y as int),
            r == DEAD || r == LIVE,
    {
        if x >= 0 && y >= 0 && x < self.width && y < self.height {
            proof {
                assert((y as int) * (self.width as int) + (x as int) < (self.width as int) * (
                self.height as int)) by (nonlinear_arith)
                    requires
                        0 <= x < self.width,
                        0 <= y < self.height,
                ;
            }
            return self.cells[(y * self.width + x) as usize];
        }
        return DEAD;
    }

    /// The Moore-neighborhood live count for the in-range coordinate `(x, y)`.
    pub fn get_neighbors(&self, x: i32, y: i32) -> (r: u8)
        requires
            self.wf(),
            0 <= x < self.width,
            0 <= y < self.height,
        ensures
            r as int == self.live_neighbors(x as int, y as int),
            r <= 8,
    {
        proof {
            assert(self.width <= self.width * self.height && self.height <= self.width
                * self.height) by (nonlinear_arith)
                requires
                    0 < self.width,
                    0 < self.height,
            ;
        }
        return self.get_index(x - 1, y - 1) + self.get_index(x, y - 1) + self.get_index(
            x + 1,
            y - 1,
        ) + self.get_index(x + 1, y) + self.get_index(x + 1, y + 1) + self.get_index(x, y + 1)
            + self.get_index(x - 1, y + 1) + self.get_index(x - 1, y);
    }
}

/// The worker count actually used for a given cell count: the requested
/// count, clamped to the cell count so that no worker is handed an empty
/// interval.
pub open spec fn clamped_workers(total: nat, workers: nat) -> nat {
    if total < workers {
        total
    } else {
        workers
    }
}

/// The partition of the linear index space `[0, total)` into one contiguous
/// end-exclusive interval per worker: every worker but the last gets
/// `total / clamped` cells, and the last also gets the remainder.
pub open spec fn interval_seq(total: nat, workers: nat) -> Seq<(usize, usize)> {
    let k = clamped_workers(total, workers);
    if k == 0 {
        Seq::empty()
    } else {
        let base = total / k;
        Seq::new(
            k,
            |i: int|
                (
                    (i * base) as usize,
                    if i == k - 1 {
                        total as usize
                    } else {
                        ((i + 1) * base) as usize
                    },
                ),
        )
    }
}

/// The division is never degenerate: once the worker count is clamped, each
/// worker's base share is at least one cell, and the shares sum to at most
/// the cell count.
proof fn lemma_base_share(total: nat, workers: nat)
    requires
        workers >= 1,
        total >= 1,
    ensures
        clamped_workers(total, workers) >= 1,
        total / clamped_workers(total, workers) >= 1,
        clamped_workers(total, workers) * (total / clamped_workers(total, workers)) <= total,
        total < clamped_workers(total, workers) * (total / clamped_workers(total, workers))
            + clamped_workers(total, workers),
{
    let k = clamped_workers(total, workers);
    lemma_fundamental_div_mod(total as int, k as int);
}

/// Some interval of `s` contains the index `c`.
pub open spec fn covered_by(s: Seq<(usize, usize)>, c: int) -> bool {
    exists|i: int| 0 <= i < s.len() && (#[trigger] s[i]).0 <= c < s[i].1
}

/// Partition completeness law: for any cell count and any worker count of at
/// least one, the intervals are as many as the clamped worker count, start
/// at 0, are contiguous (each begins where the one before it ends), end at
/// `total`, and therefore cover `[0, total)` with no gap and no overlap.
#[verifier::rlimit(60)]
pub proof fn lemma_partition_complete(total: nat, workers: nat)
    requires
        workers >= 1,
        total <= usize::MAX,
    ensures
        interval_seq(total, workers).len() == clamped_workers(total, workers),
        forall|i: int|
            0 <= i < interval_seq(total, workers).len() ==> (#[trigger] interval_seq(
                total,
                workers,
            )[i]).0 <= interval_seq(total, workers)[i].1 <= total,
        interval_seq(total, workers).len() > 0 ==> interval_seq(total, workers)[0].0 == 0,
        forall|i: int|
            0 <= i < interval_seq(total, workers).len() - 1 ==> (#[trigger] interval_seq(
                total,
                workers,
            )[i]).1 == interval_seq(total, workers)[i + 1].0,
        interval_seq(total, workers).len() > 0 ==> interval_seq(total, workers).last().1 == total,
        forall|c: int| 0 <= c < total ==> #[trigger] covered_by(interval_seq(total, workers), c),
        forall|i: int, j: int|
            0 <= i < j < interval_seq(total, workers).len() ==> (#[trigger] interval_seq(
                total,
                workers,
            )[i]).1 <= (#[trigger] interval_seq(total, workers)[j]).0,
{
    if total == 0 {
        return ;
    }
    let k = clamped_workers(total, workers) as int;
    let base = (total / clamped_workers(total, workers)) as int;
    let s = interval_seq(total, workers);
    lemma_base_share(total, workers);
    assert forall|i: int| 0 <= i < s.len() implies (#[trigger] s[i]).0 <= s[i].1 <= total by {
        lemma_interval_shape(total, workers, i);
    }
    assert forall|i: int| 0 <= i < s.len() - 1 implies (#[trigger] s[i]).1 == s[i + 1].0 by {
        lemma_interval_shape(total, workers, i);
        lemma_interval_shape(total, workers, i + 1);
    }
    assert(s[0].0 == 0) by {
        lemma_interval_shape(total, workers, 0);
    }
    assert forall|c: int| 0 <= c < total implies #[trigger] covered_by(s, c) by {
        let q = c / base;
        lemma_fundamental_div_mod(c, base);
        lemma_div_pos_is_pos(c, base);
        assert(q * base == base * q && (q + 1) * base == base * q + base) by (nonlinear_arith);
        let i = if q < k - 1 {
            q
        } else {
            k - 1
        };
        lemma_interval_shape(total, workers, i);
        if q < k - 1 {
            assert(s[i].0 <= c < s[i].1);
        } else {
            assert((k - 1) * base <= q * base) by (nonlinear_arith)
                requires
                    k - 1 <= q,
                    base >= 1,
            ;
            assert(q * base <= c);
            assert(s[i].0 <= c < s[i].1);
        }
        assert(0 <= i < s.len() && s[i].0 <= c < s[i].1);
    }
    assert forall|i: int, j: int| 0 <= i < j < s.len() implies (#[trigger] s[i]).1 <= (
    #[trigger] s[j]).0 by {
        lemma_interval_shape(total, workers, i);
        lemma_interval_shape(total, workers, j);
        assert((i + 1) * base <= j * base) by (nonlinear_arith)
            requires
                i + 1 <= j,
                base >= 0,
        ;
    }
}

/// The shape of one interval of the partition: it starts at `i * base`,
/// ends at `(i + 1) * base` (or at `total`, for the last one), and its ends
/// lie inside `[0, total]`.
proof fn lemma_interval_shape(total: nat, workers: nat, i: int)
    requires
        workers >= 1,
        1 <= total <= usize::MAX,
        0 <= i < interval_seq(total, workers).len(),
    ensures
        ({
            let k = clamped_workers(total, workers) as int;
            let base = (total / clamped_workers(total, workers)) as int;
            &&& interval_seq(total, workers)[i].0 == i * base
            &&& (i < k - 1 ==> interval_seq(total, workers)[i].1 == (i + 1) * base)
            &&& (i == k - 1 ==> interval_seq(total, workers)[i].1 == total)
            &&& 0 <= i * base
            &&& i * base + base == (i + 1) * base
            &&& (i + 1) * base <= k * base <= total
        }),
{
    let k = clamped_workers(total, workers) as int;
    let base = (total / clamped_workers(total, workers)) as int;
    lemma_base_share(total, workers);
    assert(0 <= i * base && i * base + base == (i + 1) * base && (i + 1) * base <= k * base)
        by (nonlinear_arith)
        requires
            0 <= i < k,
            base >= 0,
    ;
}

/// The ordered partition intervals for `total_cells` cells shared among
/// `worker_count` workers; see `interval_seq` for their exact shape.
pub fn partition(total_cells: usize, worker_count: usize) -> (r: Vec<(usize, usize)>)
    requires
        worker_count >= 1,
    ensures
        r@ == interval_seq(total_cells as nat, worker_count as nat),
{
    let k = if total_cells < worker_count {
        total_cells
    } else {
        worker_count
    };
    let mut r: Vec<(usize, usize)> = Vec::new();
    if k == 0 {
        proof {
            assert(r@ =~= interval_seq(total_cells as nat, worker_count as nat));
        }
        return r;
    }
    proof {
        lemma_base_share(total_cells as nat, worker_count as nat);
    }
    let base = total_cells / k;
    let mut n: usize = 0;
    while n < k
        invariant
            1 <= k <= total_cells,
            base == total_cells as nat / k as nat,
            k == clamped_workers(total_cells as nat, worker_count as nat),
            k * base <= total_cells,
            n <= k,
            r@.len() == n,
            forall|i: int|
                0 <= i < n ==> r@[i] == interval_seq(total_cells as nat, worker_count as nat)[i],
        decreases k - n,
    {
        proof {
            lemma_interval_shape(total_cells as nat, worker_count as nat, n as int);
        }
        let lo = n * base;
        let hi = if n == k - 1 {
            total_cells
        } else {
            n * base + base
        };
        r.push((lo, hi));
        n = n + 1;
    }
    proof {
        assert(r@ =~= interval_seq(total_cells as nat, worker_count as nat));
    }
    r
}

/// The transition rule (B3/S23) for one cell: a live cell survives exactly
/// when it has 2 or 3 live neighbors; a dead cell comes alive exactly when
/// it has 3.
pub open spec fn spec_next_cell(cur: u8, neighbors: int) -> u8 {
    if cur == LIVE {
        if neighbors <= 1 {
            DEAD
        } else if neighbors >= 4 {
            DEAD
        } else {
            LIVE
        }
    } else {
        if neighbors == 3 {
            LIVE
        } else {
            DEAD
        }
    }
}

impl BoardState {
    /// The cell array of the generation that follows this board: each cell
    /// at linear index `i` is the rule applied to its current state and its
    /// Moore-neighborhood live count at `(i % width, i / width)`.
    pub open spec fn next_cells(&self) -> Seq<u8> {
        Seq::new(
            self.cells@.len(),
            |i: int|
                spec_next_cell(
                    self.cells@[i],
                    self.live_neighbors(i % (self.width as int), i / (self.width as int)),
                ),
        )
    }
}

/// The coordinates derived from a linear index by `x = i % width`,
/// `y = i / width` are in range, and map back to the index.
proof fn lemma_coords(i: int, w: int, h: int)
    requires
        0 <= i,
        0 < w,
        0 < h,
        i < w * h,
    ensures
        0 <= i % w < w,
        0 <= i / w < h,
        (i / w) * w + (i % w) == i,
{
    lemma_fundamental_div_mod(i, w);
    lemma_div_pos_is_pos(i, w);
    lemma_mod_pos_bound(i, w);
    assert((i / w) * w == w * (i / w)) by (nonlinear_arith);
    if i / w >= h {
        assert(w * (i / w) >= w * h) by (nonlinear_arith)
            requires
                w > 0,
                i / w >= h,
        ;
        assert(false);
    }
}

/// One unit of a generation's work: for every linear index in
/// `[from, to)`, decide the next state of that cell from `state` and write
/// it into the shared next-generation buffer. Only cells that come out
/// `LIVE` are written; the buffer must hold `DEAD` over the interval, as the
/// engine pre-fills it. Cells outside the interval are left untouched.
pub fn tick_interval(state: &BoardState, from: usize, to: usize, buf: &mut Vec<u8>)
    requires
        state.wf(),
        from <= to,
        to <= state.cells@.len(),
        old(buf)@.len() == state.cells@.len(),
        forall|k: int| from <= k < to ==> old(buf)@[k] == DEAD,
    ensures
        final(buf)@.len() == old(buf)@.len(),
        forall|k: int| from <= k < to ==> final(buf)@[k] == state.next_cells()[k],
        forall|k: int|
            (0 <= k < from || to <= k < final(buf)@.len()) ==> final(buf)@[k] == old(buf)@[k],
{
    let width = state.width as usize;
    let mut i = from;
    while i < to
        invariant
            state.wf(),
            width == state.width,
            from <= i <= to,
            to <= state.cells@.len(),
            buf@.len() == old(buf)@.len() == state.cells@.len(),
            forall|k: int| from <= k < i ==> buf@[k] == state.next_cells()[k],
            forall|k: int| i <= k < to ==> buf@[k] == DEAD,
            forall|k: int|
                (0 <= k < from || to <= k < buf@.len()) ==> buf@[k] == old(buf)@[k],
        decreases to - i,
    {
        proof {
            lemma_coords(i as int, state.width as int, state.height as int);
        }
        let x = (i % width) as i32;
        let y = (i / width) as i32;

        let neighbors = state.get_neighbors(x, y);

        if state.cells[i] == LIVE {
            if neighbors <= 1 {
                // stays DEAD: the buffer is pre-filled with DEAD
            } else if neighbors >= 4 {
                // stays DEAD
            } else {
                buf[i] = LIVE;
            }
        } else {
            if neighbors == 3 {
                buf[i] = LIVE;
            }
        }
        i = i + 1;
    }
}

/// The linear index up to which the first `idx` intervals of `s` reach:
/// 0 before any interval, the end of interval `idx - 1` after it.
spec fn prefix_end(s: Seq<(usize, usize)>, idx: int) -> int {
    if idx <= 0 {
        0
    } else {
        s[idx - 1].1 as int
    }
}

/// The generation engine: the published board snapshot and the fixed
/// interval partition the engine was constructed with. Each `tick` reads
/// the published board, computes every cell of the next generation interval
/// by interval, and publishes the result as a fresh board.
#[derive(Debug)]
pub struct Life {
    pub state: BoardState,
    pub n_workers: usize,
    pub chunk_intervals: Vec<(usize, usize)>,
}

impl Life {
    /// Engine invariant: a well-formed board, at least one worker, and the
    /// interval list that `partition` yields for this board's cell count.
    pub open spec fn wf(&self) -> bool {
        &&& self.state.wf()
        &&& self.n_workers >= 1
        &&& self.chunk_intervals@ == interval_seq(
            (self.state.width * self.state.height) as nat,
            self.n_workers as nat,
        )
    }

    /// An engine over a fresh board holding the requested pattern, with the
    /// cell-index space partitioned once for `n_workers` workers.
    pub fn new(width: i32, height: i32, init: Shape, n_workers: usize) -> (r: Life)
        requires
            valid_dims(width, height),
            init == Shape::Glider ==> glider_fits(width, height),
            n_workers >= 1,
        ensures
            r.wf(),
            created(r.state, width, height, init),
            r.n_workers == n_workers,
    {
        let state = BoardState::new(width, height, init);
        let total = (state.width * state.height) as usize;
        let chunk_intervals = partition(total, n_workers);
        Life { state, n_workers, chunk_intervals }
    }

    /// Advance the published board by one generation: every cell of the new
    /// board is the transition rule applied to the old board, and the
    /// dimensions are unchanged. The old board is replaced, never mutated.
    pub fn tick(&mut self)
        requires
            old(self).wf(),
        ensures
            final(self).wf(),
            final(self).state.width == old(self).state.width,
            final(self).state.height == old(self).state.height,
            final(self).state.cells@ == old(self).state.next_cells(),
            final(self).n_workers == old(self).n_workers,
            final(self).chunk_intervals@ == old(self).chunk_intervals@,
    {
        let total = (self.state.width * self.state.height) as usize;
        let mut next_cells = dead_cells(total);
        let ghost s = interval_seq(total as nat, self.n_workers as nat);
        proof {
            lemma_partition_complete(total as nat, self.n_workers as nat);
        }

        let n_intervals = self.chunk_intervals.len();
        let mut idx: usize = 0;
        while idx < n_intervals
            invariant
                self == old(self),
                self.wf(),
                total == self.state.width * self.state.height,
                s == interval_seq(total as nat, self.n_workers as nat),
                n_intervals == s.len(),
                idx <= n_intervals,
                next_cells@.len() == total,
                0 <= prefix_end(s, idx as int) <= total,
                forall|i: int|
                    0 <= i < s.len() ==> (#[trigger] s[i]).0 <= s[i].1 <= total,
                forall|i: int|
                    0 <= i < s.len() - 1 ==> (#[trigger] s[i]).1 == s[i + 1].0,
                s.len() > 0 ==> s[0].0 == 0,
                s.len() > 0 ==> s.last().1 == total,
                forall|k: int|
                    0 <= k < prefix_end(s, idx as int) ==> next_cells@[k]
                        == self.state.next_cells()[k],
                forall|k: int|
                    prefix_end(s, idx as int) <= k < total ==> next_cells@[k] == DEAD,
            decreases n_intervals - idx,
        {
            let (from, to) = self.chunk_intervals[idx];
            assert(from == prefix_end(s, idx as int));
            tick_interval(&self.state, from, to, &mut next_cells);
            idx = idx + 1;
        }

        proof {
            if s.len() == 0 {
                assert(total == 0);
            }
            assert(next_cells@ =~= self.state.next_cells());
        }
        self.state =
        BoardState {
            width: self.state.width,
            height: self.state.height,
            cells: next_cells,
        };
    }
}

/// Every cell read, in range or out, is one of the two cell states.
proof fn lemma_cell_bound(b: BoardState, x: int, y: int)
    requires
        b.wf(),
    ensures
        b.cell(x, y) == DEAD || b.cell(x, y) == LIVE,
{
    if 0 <= x < b.width && 0 <= y < b.height {
        assert(0 <= y * b.width + x < b.width * b.height) by (nonlinear_arith)
            requires
                0 <= x < b.width,
                0 <= y < b.height,
        ;
    }
}

/// Dead-fringe law: an out-of-range position always reads as `DEAD`, so the
/// neighbor count at any coordinate — corners and edges included — counts
/// no cell beyond the grid: it stays within `[0, 8]`, and drops to at most
/// 3 at a corner and at most 5 on an edge.
pub proof fn lemma_dead_fringe(b: BoardState, x: int, y: int)
    requires
        b.wf(),
    ensures
        (x < 0 || x >= b.width || y < 0 || y >= b.height) ==> b.cell(x, y) == DEAD,
        0 <= b.live_neighbors(x, y) <= 8,
        ((x == 0 || x == b.width - 1) && (y == 0 || y == b.height - 1)) ==> b.live_neighbors(
            x,
            y,
        ) <= 3,
        (x == 0 || x == b.width - 1 || y == 0 || y == b.height - 1) ==> b.live_neighbors(x, y)
            <= 5,
{
    lemma_cell_bound(b, x - 1, y - 1);
    lemma_cell_bound(b, x, y - 1);
    lemma_cell_bound(b, x + 1, y - 1);
    lemma_cell_bound(b, x + 1, y);
    lemma_cell_bound(b, x + 1, y + 1);
    lemma_cell_bound(b, x, y + 1);
    lemma_cell_bound(b, x - 1, y + 1);
    lemma_cell_bound(b, x - 1, y);
}

/// Isolation law: a cell with no live neighbor is dead in the next
/// generation, whatever its current state — in particular, an isolated
/// live cell always dies. (A live cell would need exactly 2 or 3 live
/// neighbors to survive, which is impossible at 0.)
pub proof fn lemma_isolated_cell_dies(b: BoardState, i: int)
    requires
        b.wf(),
        0 <= i < b.cells@.len(),
        b.live_neighbors(i % (b.width as int), i / (b.width as int)) == 0,
    ensures
        b.next_cells()[i] == DEAD,
{
}

/// Two boards with the same dimensions and the same cells step to the same
/// next generation: the step is a function of the board alone.
pub proof fn lemma_next_cells_congruence(a: BoardState, b: BoardState)
    requires
        a.width == b.width,
        a.height == b.height,
        a.cells@ == b.cells@,
    ensures
        a.next_cells() == b.next_cells(),
{
    assert forall|i: int| 0 <= i < a.next_cells().len() implies a.next_cells()[i]
        == b.next_cells()[i] by {
        let x = i % (a.width as int);
        let y = i / (a.width as int);
        assert forall|px: int, py: int| #[trigger] a.cell(px, py) == b.cell(px, py) by {}
        assert(a.live_neighbors(x, y) == b.live_neighbors(x, y));
    }
    assert(a.next_cells() =~= b.next_cells());
}

/// Determinism law: for the `Empty`, `Glider` and `Blinker` patterns the
/// created board is a function of the requested dimensions alone, and every
/// following generation is a function of the one before; two engines given
/// the same request therefore publish identical board sequences. `Random`
/// is excluded: nothing pins its cells.
pub proof fn lemma_deterministic(
    a: BoardState,
    b: BoardState,
    width: i32,
    height: i32,
    init: Shape,
)
    requires
        init != Shape::Random,
        created(a, width, height, init),
        created(b, width, height, init),
    ensures
        a.width == b.width && a.height == b.height,
        a.cells@ == b.cells@,
        a.next_cells() == b.next_cells(),
{
    lemma_next_cells_congruence(a, b);
}

/// Worker-count invariance law: the board a tick publishes depends only on
/// the board the engine held, never on the worker count or the interval
/// partition — `tick`'s contract pins every new cell from the old board
/// alone, so engines over equal boards agree whatever their worker counts.
pub proof fn lemma_worker_count_invariance(a: Life, b: Life)
    requires
        a.state.width == b.state.width,
        a.state.height == b.state.height,
        a.state.cells@ == b.state.cells@,
    ensures
        a.state.next_cells() == b.state.next_cells(),
{
    lemma_next_cells_congruence(a.state, b.state);
}

/// The two-character glyph one cell renders to: a filled block pair for a
/// live cell, a shaded block pair for a dead one.
pub open spec fn glyph(c: u8) -> Seq<char> {
    if c == LIVE {
        seq!['\u{2588}', '\u{2588}']
    } else {
        seq!['\u{2591}', '\u{2591}']
    }
}

/// The textual rendering of the first `n` cells of a row-major cell array:
/// each cell's glyph in order, with a newline after every full row of
/// `width` cells.
pub open spec fn render_prefix(cells: Seq<u8>, width: int, n: int) -> Seq<char>
    decreases n,
{
    if n <= 0 {
        Seq::empty()
    } else {
        render_prefix(cells, width, n - 1) + glyph(cells[n - 1]) + (if n % width == 0 {
            seq!['\n']
        } else {
            Seq::<char>::empty()
        })
    }
}

/// The full textual rendering of a board: one line of glyph pairs per row.
pub open spec fn render_spec(b: BoardState) -> Seq<char> {
    render_prefix(b.cells@, b.width as int, b.cells@.len() as int)
}

/// The board rendered as text, one line per row: `LIVE` cells as a filled
/// block pair, `DEAD` cells as a shaded block pair, a newline after each
/// row.
pub fn render_text(state: &BoardState) -> (r: String)
    requires
        state.wf(),
    ensures
        r@ == render_spec(*state),
{
    let mut buff = String::new();
    let width = state.width as usize;
    let len = state.cells.len();
    let mut i: usize = 0;
    while i < len
        invariant
            state.wf(),
            width == state.width,
            len == state.cells@.len(),
            i <= len,
            buff@ == render_prefix(state.cells@, state.width as int, i as int),
        decreases len - i,
    {
        if state.cells[i] == LIVE {
            buff.append("\u{2588}\u{2588}");
        } else {
            buff.append("\u{2591}\u{2591}");
        }
        if (i + 1) % width == 0 {
            buff.append("\n");
        }
        proof {
            reveal_strlit("\u{2588}\u{2588}");
            reveal_strlit("\u{2591}\u{2591}");
            reveal_strlit("\n");
            assert(buff@ =~= render_prefix(state.cells@, state.width as int, i + 1));
        }
        i = i + 1;
    }
    buff
}

} // verus!
