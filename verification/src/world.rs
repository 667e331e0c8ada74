//! The environment: an N-by-N grid of attribute sets, the agent's pose
//! (position and facing), and a single-use arrow.
//!
//! The facing direction is kept in degrees, one of 0, 90, 180 or 270:
//! 0 steps the column up by one, 90 steps the row up by one, 180 steps
//! the column down by one, and 270 steps the row down by one.

use vstd::prelude::*;

use crate::attr::Attr;
use crate::attr::AttrSet;

verus! {

/// The outcome of a shot: the arrow left the grid, it killed the
/// Wumpus, or there was no arrow left to shoot.
#[derive(Clone, Copy, PartialEq, Eq, Structural, Debug)]
pub enum ArrowOutcome {
    Lost,
    Killed,
    NoArrows,
}

/// True when (i, j) lies on an n-by-n grid.
pub open spec fn in_bounds(n: int, i: int, j: int) -> bool {
    0 <= i < n && 0 <= j < n
}

/// True for the four facing directions the environment ever holds.
pub open spec fn cardinal(d: int) -> bool {
    d == 0 || d == 90 || d == 180 || d == 270
}

/// The (row, column) step that one move in direction `d` takes.
pub open spec fn step_delta(d: int) -> (int, int) {
    if d == 0 {
        (0, 1)
    } else if d == 90 {
        (1, 0)
    } else if d == 180 {
        (0, -1)
    } else {
        (-1, 0)
    }
}

/// The facing that one rotation produces: left adds 270 degrees,
/// right adds 90, both modulo 360.
pub open spec fn rotated(d: int, left: bool) -> int {
    if left {
        (d + 270) % 360
    } else {
        (d + 90) % 360
    }
}

/// True when (i, j) is an orthogonal neighbor of (x, y): one step away
/// along exactly one axis, never diagonal.
pub open spec fn orth_neighbor(x: int, y: int, i: int, j: int) -> bool {
    ||| (i == x - 1 && j == y)
    ||| (i == x + 1 && j == y)
    ||| (i == x && j == y - 1)
    ||| (i == x && j == y + 1)
}

pub struct World {
    size: usize,
    grid: Vec<AttrSet>,
    agent_position: (usize, usize),
    agent_direction: usize,
    arrow: bool,
}

impl World {
    /// The grid's side length N.
    pub closed spec fn size(self) -> int {
        self.size as int
    }

    /// The attribute set on the cell at row x, column y.
    pub closed spec fn cell(self, x: int, y: int) -> Set<Attr> {
        self.grid@[x * self.size() + y]@
    }

    /// The agent's position as (row, column).
    pub closed spec fn pos(self) -> (int, int) {
        (self.agent_position.0 as int, self.agent_position.1 as int)
    }

    /// The agent's facing in degrees.
    pub closed spec fn dir(self) -> int {
        self.agent_direction as int
    }

    /// True while the arrow has not been shot.
    pub closed spec fn arrow_available(self) -> bool {
        self.arrow
    }

    /// The environment's invariant: the grid is square with side at
    /// least 3, the agent stands on it, and the facing is cardinal.
    pub closed spec fn wf(self) -> bool {
        &&& 3 <= self.size()
        &&& self.size() * self.size() == self.grid@.len()
        &&& in_bounds(self.size(), self.pos().0, self.pos().1)
        &&& cardinal(self.dir())
    }
}

/// True when `post` has the same grid contents as `pre`.
pub open spec fn same_cells(pre: World, post: World) -> bool {
    forall|i: int, j: int|
        in_bounds(pre.size(), i, j) ==> #[trigger] post.cell(i, j) == pre.cell(i, j)
}

/// True when `post` differs from `pre` only in the grid: pose and
/// arrow are untouched and the size is kept.
pub open spec fn same_frame(pre: World, post: World) -> bool {
    &&& post.size() == pre.size()
    &&& post.pos() == pre.pos()
    &&& post.dir() == pre.dir()
    &&& post.arrow_available() == pre.arrow_available()
}

impl World {
    /// Builds an empty size-by-size grid with the agent at (0, 0)
    /// facing 90 degrees and the arrow available.
    pub fn new(size: usize) -> (w: World)
        requires
            3 <= size,
            size * size <= usize::MAX,
        ensures
            w.wf(),
            w.size() == size,
            forall|i: int, j: int|
                in_bounds(size as int, i, j) ==> (#[trigger] w.cell(i, j)) =~= Set::<
                    Attr,
                >::empty(),
            w.pos() == (0int, 0int),
            w.dir() == 90,
            w.arrow_available(),
    {
        let total: usize = size * size;
        let mut grid: Vec<AttrSet> = Vec::new();
        let mut k: usize = 0;
        while k < total
            invariant
                k <= total,
                grid@.len() == k,
                forall|m: int| 0 <= m < k ==> (#[trigger] grid@[m]@) =~= Set::<Attr>::empty(),
            decreases total - k,
        {
            grid.push(AttrSet::empty());
            k = k + 1;
        }
        let w = World {
            size,
            grid,
            agent_position: (0, 0),
            agent_direction: 90,
            arrow: true,
        };
        proof {
            assert forall|i: int, j: int| in_bounds(size as int, i, j) implies (#[trigger] w.cell(
                i,
                j,
            )) =~= Set::<Attr>::empty() by {
                lemma_grid_index_bounds(size as int, i, j);
            }
        }
        w
    }
}

impl World {
    /// The row-major index of the cell at (x, y).
    fn idx(&self, x: usize, y: usize) -> (r: usize)
        requires
            self.wf(),
            x < self.size(),
            y < self.size(),
        ensures
            r == x * self.size() + y,
            r < self.grid@.len(),
    {
        let glen = self.grid.len();
        proof {
            lemma_grid_index_bounds(self.size(), x as int, y as int);
            assert(x * self.size() + y < glen);
        }
        x * self.size + y
    }

    /// Reads the attribute set on the cell at (x, y).
    fn cell_at(&self, x: usize, y: usize) -> (r: AttrSet)
        requires
            self.wf(),
            x < self.size(),
            y < self.size(),
        ensures
            r@ == self.cell(x as int, y as int),
    {
        let k = self.idx(x, y);
        self.grid[k]
    }

    /// Overwrites the cell at (x, y), leaving every other cell and the
    /// rest of the environment as it was.
    fn set_cell(&mut self, x: usize, y: usize, c: AttrSet)
        requires
            old(self).wf(),
            x < old(self).size(),
            y < old(self).size(),
        ensures
            final(self).wf(),
            same_frame(*old(self), *final(self)),
            forall|i: int, j: int|
                in_bounds(old(self).size(), i, j) ==> #[trigger] final(self).cell(i, j) == (
                if i == x && j == y {
                    c@
                } else {
                    old(self).cell(i, j)
                }),
    {
        let k = self.idx(x, y);
        self.grid.set(k, c);
        proof {
            let n = self.size();
            assert forall|i: int, j: int| in_bounds(n, i, j) implies #[trigger] self.cell(i, j)
                == (if i == x && j == y {
                c@
            } else {
                old(self).cell(i, j)
            }) by {
                lemma_grid_index_bounds(n, i, j);
                if i * n + j == x * n + y {
                    lemma_grid_index_injective(n, x as int, y as int, i, j);
                }
            }
        }
    }

    /// Returns an independent copy of the attribute set at `p`;
    /// the grid itself is untouched and shares nothing with the copy.
    pub fn percept(&self, p: (usize, usize)) -> (r: AttrSet)
        requires
            self.wf(),
            in_bounds(self.size(), p.0 as int, p.1 as int),
        ensures
            r@ == self.cell(p.0 as int, p.1 as int),
    {
        self.cell_at(p.0, p.1)
    }

    /// Turns the agent in place: left adds 270 degrees, right adds 90,
    /// modulo 360. Nothing else changes.
    pub fn rotate_agent(&mut self, left: bool)
        requires
            old(self).wf(),
        ensures
            final(self).wf(),
            final(self).dir() == rotated(old(self).dir(), left),
            final(self).size() == old(self).size(),
            final(self).pos() == old(self).pos(),
            final(self).arrow_available() == old(self).arrow_available(),
            same_cells(*old(self), *final(self)),
    {
        if left {
            self.agent_direction = (self.agent_direction + 270) % 360;
        } else {
            self.agent_direction = (self.agent_direction + 90) % 360;
        }
    }

    /// Steps the agent one cell in its facing direction; a step that
    /// would leave the grid is absorbed silently and changes nothing.
    pub fn move_agent(&mut self)
        requires
            old(self).wf(),
        ensures
            final(self).wf(),
            final(self).size() == old(self).size(),
            final(self).dir() == old(self).dir(),
            final(self).arrow_available() == old(self).arrow_available(),
            same_cells(*old(self), *final(self)),
            ({
                let (dx, dy) = step_delta(old(self).dir());
                let nx = old(self).pos().0 + dx;
                let ny = old(self).pos().1 + dy;
                if in_bounds(old(self).size(), nx, ny) {
                    final(self).pos() == (nx, ny)
                } else {
                    final(self).pos() == old(self).pos()
                }
            }),
    {
        let (x, y) = self.agent_position;
        if self.agent_direction == 0 {
            if y + 1 < self.size {
                self.agent_position = (x, y + 1);
            }
        } else if self.agent_direction == 90 {
            if x + 1 < self.size {
                self.agent_position = (x + 1, y);
            }
        } else if self.agent_direction == 180 {
            if y > 0 {
                self.agent_position = (x, y - 1);
            }
        } else {
            if x > 0 {
                self.agent_position = (x - 1, y);
            }
        }
    }
}

/// Relies on rand::random: a uniformly drawn value; nothing is assumed
/// of which value comes back.
pub assume_specification<T>[ rand::random::<T> ]() -> (r: T)
    where
        rand::distributions::Standard: rand::distributions::Distribution<T>,
;

/// True when `post` is `pre` with attribute `a` added on every
/// in-bounds orthogonal neighbor of (x, y) and nothing else touched:
/// at most four cells, fewer at the edges, never a diagonal.
pub open spec fn marked_neighbors(pre: World, post: World, x: int, y: int, a: Attr) -> bool {
    &&& same_frame(pre, post)
    &&& forall|i: int, j: int|
        in_bounds(pre.size(), i, j) ==> #[trigger] post.cell(i, j) == (if orth_neighbor(
            x,
            y,
            i,
            j,
        ) {
            pre.cell(i, j).insert(a)
        } else {
            pre.cell(i, j)
        })
}

/// True when `post` is `pre` with a Wumpus set at (x, y) and Stench on
/// its orthogonal neighbors, nothing else touched.
pub open spec fn wumpus_placed(pre: World, post: World, x: int, y: int) -> bool {
    &&& same_frame(pre, post)
    &&& forall|i: int, j: int|
        in_bounds(pre.size(), i, j) ==> #[trigger] post.cell(i, j) == (if i == x && j == y {
            pre.cell(i, j).insert(Attr::Wumpus)
        } else if orth_neighbor(x, y, i, j) {
            pre.cell(i, j).insert(Attr::Stench)
        } else {
            pre.cell(i, j)
        })
}

/// True when `post` is `pre` with Gold and Glitter both set at (x, y)
/// and nothing else touched: gold propagates nothing.
pub open spec fn gold_placed(pre: World, post: World, x: int, y: int) -> bool {
    &&& same_frame(pre, post)
    &&& forall|i: int, j: int|
        in_bounds(pre.size(), i, j) ==> #[trigger] post.cell(i, j) == (if i == x && j == y {
            pre.cell(i, j).insert(Attr::Gold).insert(Attr::Glitter)
        } else {
            pre.cell(i, j)
        })
}

/// True when `post` is `pre` with a Pit set on the empty cell (x, y)
/// and Breeze on its in-bounds orthogonal neighbors, nothing else
/// touched.
pub open spec fn pit_placed(pre: World, post: World, x: int, y: int) -> bool {
    &&& same_frame(pre, post)
    &&& in_bounds(pre.size(), x, y)
    &&& pre.cell(x, y).is_empty()
    &&& forall|i: int, j: int|
        in_bounds(pre.size(), i, j) ==> #[trigger] post.cell(i, j) == (if i == x && j == y {
            pre.cell(i, j).insert(Attr::Pit)
        } else if orth_neighbor(x, y, i, j) {
            pre.cell(i, j).insert(Attr::Breeze)
        } else {
            pre.cell(i, j)
        })
}

/// The grid of `w` as a map from in-bounds coordinates to the
/// attribute set on the cell there.
pub open spec fn grid_map(w: World) -> Map<(int, int), Set<Attr>> {
    Map::new(|p: (int, int)| in_bounds(w.size(), p.0, p.1), |p: (int, int)| w.cell(p.0, p.1))
}

/// The grid `g` after one pit lands on (x, y): the cell gains Pit and
/// its in-bounds orthogonal neighbors gain Breeze; no other cell moves.
pub open spec fn pit_step(n: int, g: Map<(int, int), Set<Attr>>, x: int, y: int) -> Map<
    (int, int),
    Set<Attr>,
> {
    Map::new(
        |p: (int, int)| in_bounds(n, p.0, p.1),
        |p: (int, int)|
            if p == (x, y) {
                g[p].insert(Attr::Pit)
            } else if orth_neighbor(x, y, p.0, p.1) {
                g[p].insert(Attr::Breeze)
            } else {
                g[p]
            },
    )
}

/// The grid `g` after the pits of `ps` land in order.
pub open spec fn pits_fold(n: int, g: Map<(int, int), Set<Attr>>, ps: Seq<(int, int)>) -> Map<
    (int, int),
    Set<Attr>,
>
    decreases ps.len(),
{
    if ps.len() == 0 {
        g
    } else {
        pit_step(n, pits_fold(n, g, ps.drop_last()), ps.last().0, ps.last().1)
    }
}

/// True when each pit of `ps`, taken in order, lands in bounds and on
/// a cell that is empty immediately before its own placement.
pub open spec fn pits_ok(n: int, g: Map<(int, int), Set<Attr>>, ps: Seq<(int, int)>) -> bool
    decreases ps.len(),
{
    if ps.len() == 0 {
        true
    } else {
        &&& pits_ok(n, g, ps.drop_last())
        &&& in_bounds(n, ps.last().0, ps.last().1)
        &&& pits_fold(n, g, ps.drop_last())[ps.last()].is_empty()
    }
}

/// The number of pits that placement aims for on an n-by-n grid.
pub open spec fn pit_target(n: int) -> int {
    3 * n / 4
}

/// True when no cell of the grid is free of attributes.
pub open spec fn no_empty_cell(w: World) -> bool {
    forall|i: int, j: int| in_bounds(w.size(), i, j) ==> !(#[trigger] w.cell(i, j)).is_empty()
}

impl World {
    /// Marks Stench on every in-bounds orthogonal neighbor of (x, y).
    pub fn add_stench(&mut self, x: usize, y: usize)
        requires
            old(self).wf(),
            x < old(self).size(),
            y < old(self).size(),
        ensures
            final(self).wf(),
            marked_neighbors(*old(self), *final(self), x as int, y as int, Attr::Stench),
    {
        self.mark_neighbors(x, y, Attr::Stench);
    }

    /// Marks Breeze on every in-bounds orthogonal neighbor of (x, y).
    pub fn add_breeze(&mut self, x: usize, y: usize)
        requires
            old(self).wf(),
            x < old(self).size(),
            y < old(self).size(),
        ensures
            final(self).wf(),
            marked_neighbors(*old(self), *final(self), x as int, y as int, Attr::Breeze),
    {
        self.mark_neighbors(x, y, Attr::Breeze);
    }

    /// Adds `a` to every in-bounds orthogonal neighbor of (x, y).
    fn mark_neighbors(&mut self, x: usize, y: usize, a: Attr)
        requires
            old(self).wf(),
            x < old(self).size(),
            y < old(self).size(),
        ensures
            final(self).wf(),
            marked_neighbors(*old(self), *final(self), x as int, y as int, a),
    {
        let n = self.size;
        if x > 0 {
            let mut c = self.cell_at(x - 1, y);
            c.insert(a);
            self.set_cell(x - 1, y, c);
        }
        if x + 1 < n {
            let mut c = self.cell_at(x + 1, y);
            c.insert(a);
            self.set_cell(x + 1, y, c);
        }
        if y > 0 {
            let mut c = self.cell_at(x, y - 1);
            c.insert(a);
            self.set_cell(x, y - 1, c);
        }
        if y + 1 < n {
            let mut c = self.cell_at(x, y + 1);
            c.insert(a);
            self.set_cell(x, y + 1, c);
        }
        proof {
            assert forall|i: int, j: int| in_bounds(old(self).size(), i, j) implies #[trigger] self
                .cell(i, j) == (if orth_neighbor(x as int, y as int, i, j) {
                old(self).cell(i, j).insert(a)
            } else {
                old(self).cell(i, j)
            }) by {}
        }
    }

    /// Sets a Wumpus at the interior cell (x, y) and marks Stench on
    /// each of its four orthogonal neighbors, all of which are
    /// in bounds because the cell is interior.
    pub fn place_wumpus_at(&mut self, x: usize, y: usize)
        requires
            old(self).wf(),
            1 <= x <= old(self).size() - 2,
            1 <= y <= old(self).size() - 2,
        ensures
            final(self).wf(),
            wumpus_placed(*old(self), *final(self), x as int, y as int),
    {
        let mut c = self.cell_at(x, y);
        c.insert(Attr::Wumpus);
        self.set_cell(x, y, c);
        self.add_stench(x, y);
    }

    /// Sets Gold and Glitter together at the interior cell (x, y);
    /// nothing propagates.
    pub fn place_gold_at(&mut self, x: usize, y: usize)
        requires
            old(self).wf(),
            1 <= x <= old(self).size() - 2,
            1 <= y <= old(self).size() - 2,
        ensures
            final(self).wf(),
            gold_placed(*old(self), *final(self), x as int, y as int),
    {
        let mut c = self.cell_at(x, y);
        c.insert(Attr::Gold);
        c.insert(Attr::Glitter);
        self.set_cell(x, y, c);
    }

    /// Sets a Pit on the attribute-free cell (x, y) and marks Breeze
    /// on its in-bounds orthogonal neighbors.
    pub fn place_pit_at(&mut self, x: usize, y: usize)
        requires
            old(self).wf(),
            x < old(self).size(),
            y < old(self).size(),
            old(self).cell(x as int, y as int).is_empty(),
        ensures
            final(self).wf(),
            pit_placed(*old(self), *final(self), x as int, y as int),
    {
        let mut c = self.cell_at(x, y);
        c.insert(Attr::Pit);
        self.set_cell(x, y, c);
        self.add_breeze(x, y);
    }

    /// Places the Wumpus on a cell drawn uniformly from the interior
    /// band [1, N-2] x [1, N-2] and propagates Stench around it.
    pub fn place_wumpus(&mut self)
        requires
            old(self).wf(),
        ensures
            final(self).wf(),
            exists|x: int, y: int|
                1 <= x <= old(self).size() - 2 && 1 <= y <= old(self).size() - 2
                    && #[trigger] wumpus_placed(*old(self), *final(self), x, y),
    {
        let n = self.size;
        let rx = rand::random::<usize>();
        let ry = rand::random::<usize>();
        let x = rx % (n - 2) + 1;
        let y = ry % (n - 2) + 1;
        self.place_wumpus_at(x, y);
    }

    /// Places Gold and Glitter on a cell drawn uniformly from the
    /// interior band [1, N-2] x [1, N-2].
    pub fn place_gold_and_glitter(&mut self)
        requires
            old(self).wf(),
        ensures
            final(self).wf(),
            exists|x: int, y: int|
                1 <= x <= old(self).size() - 2 && 1 <= y <= old(self).size() - 2
                    && #[trigger] gold_placed(*old(self), *final(self), x, y),
    {
        let n = self.size;
        let rx = rand::random::<usize>();
        let ry = rand::random::<usize>();
        let x = rx % (n - 2) + 1;
        let y = ry % (n - 2) + 1;
        self.place_gold_at(x, y);
    }

    /// Finds an attribute-free cell, or reports that none is left.
    fn find_empty(&self) -> (r: Option<(usize, usize)>)
        requires
            self.wf(),
        ensures
            match r {
                Option::Some(p) => in_bounds(self.size(), p.0 as int, p.1 as int) && self.cell(
                    p.0 as int,
                    p.1 as int,
                ).is_empty(),
                Option::None => no_empty_cell(*self),
            },
    {
        let n = self.size;
        let total = self.grid.len();
        let mut m: usize = 0;
        while m < total
            invariant
                self.wf(),
                n == self.size,
                total == n * n,
                m <= total,
                forall|mm: int|
                    0 <= mm < m ==> !(#[trigger] self.cell(mm / (n as int), mm % (n as int))).is_empty(),
            decreases total - m,
        {
            proof {
                lemma_flat_split(n as int, m as int);
            }
            let x = m / n;
            let y = m % n;
            let c = self.cell_at(x, y);
            if c.is_empty() {
                return Some((x, y));
            }
            m = m + 1;
        }
        proof {
            assert forall|i: int, j: int| in_bounds(n as int, i, j) implies !(#[trigger] self.cell(
                i,
                j,
            )).is_empty() by {
                lemma_grid_index_bounds(n as int, i, j);
                lemma_flat_roundtrip(n as int, i, j);
                assert(!self.cell((i * n + j) / (n as int), (i * n + j) % (n as int)).is_empty());
            }
        }
        None
    }

    /// Places floor(3N/4) pits. Cells are sampled uniformly over the
    /// whole grid, retrying on any cell that already carries an
    /// attribute; after a generous retry budget the remaining pits are
    /// placed on empty cells found by scanning. Every pit lands on a
    /// cell that was empty immediately before its own placement.
    /// Placement stops short of the target only when no attribute-free
    /// cell is left on the grid.
    pub fn place_pits(&mut self)
        requires
            old(self).wf(),
        ensures
            final(self).wf(),
            final(self).size() == old(self).size(),
            same_frame(*old(self), *final(self)),
            exists|ps: Seq<(int, int)>|
                {
                    &&& #[trigger] pits_ok(old(self).size(), grid_map(*old(self)), ps)
                    &&& grid_map(*final(self)) == pits_fold(
                        old(self).size(),
                        grid_map(*old(self)),
                        ps,
                    )
                    &&& ps.len() <= pit_target(old(self).size())
                    &&& ps.len() == pit_target(old(self).size()) || no_empty_cell(*final(self))
                },
    {
        let ghost pre = *old(self);
        let n = self.size;
        proof {
            assert((n as int) / 4 * 3 + (n as int) % 4 * 3 / 4 == pit_target(n as int))
                by (nonlinear_arith);
            assert(pit_target(n as int) <= n as int) by (nonlinear_arith);
            assert((n as int) % 4 * 3 / 4 >= 0);
        }
        let target: usize = n / 4 * 3 + n % 4 * 3 / 4;
        let mut placed: usize = 0;
        let ghost mut ps: Seq<(int, int)> = Seq::empty();
        let mut budget: u64 = 1048576;
        while placed < target && budget > 0
            invariant
                self.wf(),
                same_frame(pre, *self),
                self.size() == n,
                placed <= target,
                target == pit_target(n as int),
                ps.len() == placed,
                pits_ok(n as int, grid_map(pre), ps),
                grid_map(*self) == pits_fold(n as int, grid_map(pre), ps),
            decreases budget,
        {
            budget = budget - 1;
            let rx = rand::random::<usize>() % n;
            let ry = rand::random::<usize>() % n;
            let c = self.cell_at(rx, ry);
            if c.is_empty() {
                let ghost prev = *self;
                self.place_pit_at(rx, ry);
                placed = placed + 1;
                proof {
                    ps = self.record_pit(pre, prev, ps, rx as int, ry as int);
                }
            }
        }
        while placed < target
            invariant
                self.wf(),
                same_frame(pre, *self),
                self.size() == n,
                placed <= target,
                target == pit_target(n as int),
                ps.len() == placed,
                pits_ok(n as int, grid_map(pre), ps),
                grid_map(*self) == pits_fold(n as int, grid_map(pre), ps),
            ensures
                placed == target || no_empty_cell(*self),
            decreases target - placed,
        {
            match self.find_empty() {
                Option::None => {
                    break ;
                },
                Option::Some(p) => {
                    let ghost prev = *self;
                    self.place_pit_at(p.0, p.1);
                    placed = placed + 1;
                    proof {
                        ps = self.record_pit(pre, prev, ps, p.0 as int, p.1 as int);
                    }
                },
            }
        }
    }

    /// Extends a pit-placement history by the pit just placed.
    proof fn record_pit(&self, pre: World, prev: World, ps: Seq<(int, int)>, x: int, y: int) -> (r:
        Seq<(int, int)>)
        requires
            pre.size() == prev.size(),
            prev.size() == self.size(),
            pits_ok(pre.size(), grid_map(pre), ps),
            grid_map(prev) == pits_fold(pre.size(), grid_map(pre), ps),
            pit_placed(prev, *self, x, y),
        ensures
            r == ps.push((x, y)),
            r.len() == ps.len() + 1,
            pits_ok(pre.size(), grid_map(pre), r),
            grid_map(*self) == pits_fold(pre.size(), grid_map(pre), r),
    {
        let n = pre.size();
        let g0 = grid_map(pre);
        let r = ps.push((x, y));
        assert(r.drop_last() =~= ps);
        assert(r.last() == (x, y));
        assert(grid_map(prev)[(x, y)] == prev.cell(x, y));
        assert(grid_map(*self) =~= pit_step(n, grid_map(prev), x, y));
        assert(pits_fold(n, g0, r) == pit_step(n, pits_fold(n, g0, r.drop_last()), x, y));
        assert(pits_ok(n, g0, r));
        r
    }
}

/// A coordinate pair of machine integers, read as mathematical ones.
pub open spec fn opt_view(r: Option<(usize, usize)>) -> Option<(int, int)> {
    match r {
        Option::None => Option::None,
        Option::Some(p) => Option::Some((p.0 as int, p.1 as int)),
    }
}

/// A bound on how many steps a ray from (x, y) can still take before
/// it leaves the grid of `w` in the direction `w` faces.
pub open spec fn ray_measure(w: World, x: int, y: int) -> int {
    let d = w.dir();
    if d == 0 {
        w.size() - y
    } else if d == 90 {
        w.size() - x
    } else if d == 180 {
        y + 1
    } else {
        x + 1
    }
}

/// Traces a straight ray from (x, y) one step at a time in the facing
/// direction of `w`: the first Wumpus-bearing cell it reaches, or
/// nothing when it leaves the grid first. The ray never wraps and
/// never turns.
pub open spec fn ray_hit(w: World, x: int, y: int) -> Option<(int, int)>
    decreases ray_measure(w, x, y),
{
    let d = step_delta(w.dir());
    let nx = x + d.0;
    let ny = y + d.1;
    if !in_bounds(w.size(), nx, ny) {
        Option::None
    } else if w.cell(nx, ny).contains(Attr::Wumpus) {
        Option::Some((nx, ny))
    } else {
        ray_hit(w, nx, ny)
    }
}

impl World {
    /// The cell one step from (x, y) in the facing direction, or
    /// nothing when that step leaves the grid.
    fn step_from(&self, x: usize, y: usize) -> (r: Option<(usize, usize)>)
        requires
            self.wf(),
            x < self.size(),
            y < self.size(),
        ensures
            ({
                let d = step_delta(self.dir());
                let nx = x + d.0;
                let ny = y + d.1;
                match r {
                    Option::Some(p) => in_bounds(self.size(), nx, ny) && p.0 == nx && p.1 == ny,
                    Option::None => !in_bounds(self.size(), nx, ny),
                }
            }),
    {
        let n = self.size;
        if self.agent_direction == 0 {
            if y + 1 < n {
                Some((x, y + 1))
            } else {
                None
            }
        } else if self.agent_direction == 90 {
            if x + 1 < n {
                Some((x + 1, y))
            } else {
                None
            }
        } else if self.agent_direction == 180 {
            if y > 0 {
                Some((x, y - 1))
            } else {
                None
            }
        } else {
            if x > 0 {
                Some((x - 1, y))
            } else {
                None
            }
        }
    }

    /// Follows the ray of `ray_hit` cell by cell.
    fn ray_scan(&self, x: usize, y: usize) -> (r: Option<(usize, usize)>)
        requires
            self.wf(),
            x < self.size(),
            y < self.size(),
        ensures
            opt_view(r) == ray_hit(*self, x as int, y as int),
            match r {
                Option::Some(p) => in_bounds(self.size(), p.0 as int, p.1 as int),
                Option::None => true,
            },
        decreases ray_measure(*self, x as int, y as int),
    {
        match self.step_from(x, y) {
            Option::None => None,
            Option::Some(p) => {
                let c = self.cell_at(p.0, p.1);
                if c.contains(Attr::Wumpus) {
                    Some(p)
                } else {
                    self.ray_scan(p.0, p.1)
                }
            },
        }
    }

    /// Shoots the single arrow. With no arrow left, reports NoArrows
    /// and changes nothing. Otherwise the arrow is spent once and for
    /// all, a straight ray is traced from the agent's cell in its
    /// facing direction, and either the first Wumpus on the ray dies
    /// (its Wumpus mark alone is removed; Stench stays) or the arrow
    /// leaves the grid and is lost.
    pub fn shot_arrow(&mut self) -> (r: ArrowOutcome)
        requires
            old(self).wf(),
        ensures
            final(self).wf(),
            final(self).size() == old(self).size(),
            final(self).pos() == old(self).pos(),
            final(self).dir() == old(self).dir(),
            !old(self).arrow_available() ==> r == ArrowOutcome::NoArrows && *final(self) == *old(
                self,
            ),
            old(self).arrow_available() ==> !final(self).arrow_available() && (match ray_hit(
                *old(self),
                old(self).pos().0,
                old(self).pos().1,
            ) {
                Option::None => r == ArrowOutcome::Lost && same_cells(*old(self), *final(self)),
                Option::Some(h) => r == ArrowOutcome::Killed && forall|i: int, j: int|
                    in_bounds(old(self).size(), i, j) ==> #[trigger] final(self).cell(i, j) == (
                    if i == h.0 && j == h.1 {
                        old(self).cell(i, j).remove(Attr::Wumpus)
                    } else {
                        old(self).cell(i, j)
                    }),
            }),
    {
        if !self.arrow {
            return ArrowOutcome::NoArrows;
        }
        let p = self.agent_position;
        let hit = self.ray_scan(p.0, p.1);
        self.arrow = false;
        match hit {
            Option::None => ArrowOutcome::Lost,
            Option::Some(h) => {
                let mut c = self.cell_at(h.0, h.1);
                c.remove(Attr::Wumpus);
                self.set_cell(h.0, h.1, c);
                ArrowOutcome::Killed
            },
        }
    }
}

impl World {
    /// The grid's side length.
    pub fn grid_size(&self) -> (n: usize)
        ensures
            n == self.size(),
    {
        self.size
    }

    /// The agent's current position.
    pub fn agent_position(&self) -> (p: (usize, usize))
        ensures
            (p.0 as int, p.1 as int) == self.pos(),
    {
        self.agent_position
    }

    /// The agent's current facing in degrees.
    pub fn agent_direction(&self) -> (d: usize)
        ensures
            d as int == self.dir(),
    {
        self.agent_direction
    }

    /// True while the arrow has not been shot.
    pub fn has_arrow(&self) -> (b: bool)
        ensures
            b == self.arrow_available(),
    {
        self.arrow
    }

    /// Puts the agent on the in-bounds cell `p`; the grid, facing and
    /// arrow stay as they were.
    pub fn set_agent_position(&mut self, p: (usize, usize))
        requires
            old(self).wf(),
            in_bounds(old(self).size(), p.0 as int, p.1 as int),
        ensures
            final(self).wf(),
            final(self).pos() == (p.0 as int, p.1 as int),
            final(self).size() == old(self).size(),
            final(self).dir() == old(self).dir(),
            final(self).arrow_available() == old(self).arrow_available(),
            same_cells(*old(self), *final(self)),
    {
        self.agent_position = p;
    }
}

/// Turning left and then right, from any of the four cardinal
/// facings, restores the original facing.
pub proof fn lemma_rotate_round_trip(d: int)
    requires
        cardinal(d),
    ensures
        rotated(rotated(d, true), false) == d,
        rotated(rotated(d, false), true) == d,
{
}

/// On an n-by-n grid flattened row-major, the index of an in-bounds
/// cell lies below n * n.
proof fn lemma_grid_index_bounds(n: int, x: int, y: int)
    requires
        0 <= x < n,
        0 <= y < n,
    ensures
        0 <= x * n + y < n * n,
{
    assert(0 <= x * n + y < n * n) by (nonlinear_arith)
        requires
            0 <= x < n,
            0 <= y < n,
    {}
}

/// A flat row-major index below n * n splits into an in-bounds row and
/// column by division and remainder.
proof fn lemma_flat_split(n: int, m: int)
    requires
        1 <= n,
        0 <= m < n * n,
    ensures
        0 <= m / n < n,
        0 <= m % n < n,
        (m / n) * n + m % n == m,
{
    assert(0 <= m / n < n && 0 <= m % n < n && (m / n) * n + m % n == m) by (nonlinear_arith)
        requires
            1 <= n,
            0 <= m < n * n,
    {}
}

/// Splitting the flat index of an in-bounds cell gives that cell back.
proof fn lemma_flat_roundtrip(n: int, i: int, j: int)
    requires
        0 <= i < n,
        0 <= j < n,
    ensures
        (i * n + j) / n == i,
        (i * n + j) % n == j,
{
    assert((i * n + j) / n == i && (i * n + j) % n == j) by (nonlinear_arith)
        requires
            0 <= i < n,
            0 <= j < n,
    {}
}

/// Two in-bounds cells with the same row-major index are the same cell.
proof fn lemma_grid_index_injective(n: int, x: int, y: int, i: int, j: int)
    requires
        0 <= x < n,
        0 <= y < n,
        0 <= i < n,
        0 <= j < n,
        i * n + j == x * n + y,
    ensures
        i == x && j == y,
{
    assert(i == x && j == y) by (nonlinear_arith)
        requires
            0 <= x < n,
            0 <= y < n,
            0 <= i < n,
            0 <= j < n,
            i * n + j == x * n + y,
    {}
}

} // verus!
