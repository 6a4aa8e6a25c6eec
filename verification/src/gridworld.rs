//! A rectangular grid of cells, its neighbourhood walk and A* path finding.
use vstd::prelude::*;

use crate::types::{
    abs_int, lemma_dir_from_deltas_inverse, pos_dist, spec_dir_from_deltas, spec_step, Dir,
    Pos,
};

verus! {

/// A cell that a path can or cannot pass through.
pub trait PassableCell: Copy {
    spec fn spec_is_blocked(&self) -> bool;

    fn is_blocked(&self) -> (r: bool)
        ensures
            r == self.spec_is_blocked(),
    ;
}

/// A cell that is only passable or not.
#[derive(Debug, Clone, Copy, Default, PartialEq, Eq, Structural)]
pub struct PlainCell {
    pub is_blocked: bool,
}

impl PassableCell for PlainCell {
    open spec fn spec_is_blocked(&self) -> bool {
        self.is_blocked
    }

    fn is_blocked(&self) -> (r: bool) {
        self.is_blocked
    }
}

/// The row-major index of cell `(x, y)` in a grid of height `h`.
pub open spec fn cell_index(x: int, y: int, h: int) -> int {
    x * h + y
}

/// Row-major indices of distinct in-bounds cells are distinct and in range.
pub proof fn lemma_cell_index(x: int, y: int, w: int, h: int)
    requires
        0 <= x < w,
        0 <= y < h,
    ensures
        0 <= cell_index(x, y, h) < w * h,
        x * h + h <= w * h,
{
    assert(0 <= x * h) by (nonlinear_arith)
        requires
            0 <= x,
            0 <= h,
    ;
    assert(x * h + h <= w * h) by (nonlinear_arith)
        requires
            x < w,
            0 <= h,
    ;
}

pub proof fn lemma_cell_index_injective(x1: int, y1: int, x2: int, y2: int, h: int)
    requires
        0 <= y1 < h,
        0 <= y2 < h,
        cell_index(x1, y1, h) == cell_index(x2, y2, h),
    ensures
        x1 == x2,
        y1 == y2,
{
    if x1 < x2 {
        assert(x1 * h + h <= x2 * h) by (nonlinear_arith)
            requires
                x1 < x2,
                0 <= h,
        ;
    } else if x2 < x1 {
        assert(x2 * h + h <= x1 * h) by (nonlinear_arith)
            requires
                x2 < x1,
                0 <= h,
        ;
    }
}

/// A `width` by `height` grid. `x` runs over `0..width`, `y` over `0..height`.
#[derive(Debug)]
pub struct GridWorld<T> {
    width: usize,
    height: usize,
    cells: Vec<T>,
}

impl<T> GridWorld<T> {
    #[verifier::type_invariant]
    spec fn inv(self) -> bool {
        &&& self.cells.len() == self.width * self.height
        &&& self.width < isize::MAX
        &&& self.height < isize::MAX
    }

    pub closed spec fn spec_width(&self) -> nat {
        self.width as nat
    }

    pub closed spec fn spec_height(&self) -> nat {
        self.height as nat
    }

    /// The sides of a grid are machine sizes.
    pub proof fn lemma_dims(&self)
        ensures
            self.spec_width() <= usize::MAX,
            self.spec_height() <= usize::MAX,
    {
    }

    /// The cell at `(x, y)`; meaningful for in-bounds coordinates.
    pub closed spec fn spec_cell(&self, x: int, y: int) -> T {
        self.cells@[cell_index(x, y, self.height as int)]
    }

    pub open spec fn spec_in_bounds(&self, x: int, y: int) -> bool {
        0 <= x < self.spec_width() && 0 <= y < self.spec_height()
    }

    pub open spec fn spec_contains(&self, p: Pos) -> bool {
        self.spec_in_bounds(p.0.0 as int, p.0.1 as int)
    }

    pub open spec fn spec_at(&self, p: Pos) -> T {
        self.spec_cell(p.0.0 as int, p.0.1 as int)
    }

    /// Same size, and every cell but `(x, y)` unchanged; `(x, y)` holds `v`.
    pub open spec fn spec_updated(&self, old: &Self, x: int, y: int, v: T) -> bool {
        &&& self.spec_width() == old.spec_width()
        &&& self.spec_height() == old.spec_height()
        &&& self.spec_cell(x, y) == v
        &&& forall|a: int, b: int|
            #![trigger self.spec_cell(a, b)]
            old.spec_in_bounds(a, b) && !(a == x && b == y) ==> self.spec_cell(a, b)
                == old.spec_cell(a, b)
    }

    pub fn width(&self) -> (r: usize)
        ensures
            r == self.spec_width(),
            r < isize::MAX,
    {
        proof {
            use_type_invariant(self);
        }
        self.width
    }

    pub fn height(&self) -> (r: usize)
        ensures
            r == self.spec_height(),
            r < isize::MAX,
    {
        proof {
            use_type_invariant(self);
        }
        self.height
    }

    pub fn in_bounds(&self, pos: &Pos) -> (r: bool)
        ensures
            r == self.spec_contains(*pos),
    {
        pos.x() < self.width() && pos.y() < self.height()
    }

    pub fn in_bounds_i(&self, pos: (isize, isize)) -> (r: bool)
        ensures
            r == self.spec_in_bounds(pos.0 as int, pos.1 as int),
    {
        let w = self.width();
        let h = self.height();
        pos.0 >= 0 && pos.1 >= 0 && pos.0 < w as isize && pos.1 < h as isize
    }

    pub fn get_tuple(&self, x: usize, y: usize) -> (r: &T)
        requires
            self.spec_in_bounds(x as int, y as int),
        ensures
            *r == self.spec_cell(x as int, y as int),
    {
        proof {
            use_type_invariant(self);
            lemma_cell_index(x as int, y as int, self.width as int, self.height as int);
        }
        &self.cells[x * self.height + y]
    }

    pub fn get(&self, pos: Pos) -> (r: &T)
        requires
            self.spec_contains(pos),
        ensures
            *r == self.spec_at(pos),
    {
        self.get_tuple(pos.x(), pos.y())
    }

    pub fn try_get(&self, pos: Pos) -> (r: Option<&T>)
        ensures
            r is Some <==> self.spec_contains(pos),
            r matches Some(c) ==> *c == self.spec_at(pos),
    {
        if self.in_bounds(&pos) {
            Some(self.get(pos))
        } else {
            None
        }
    }

    /// Replaces the cell at `(x, y)`; does nothing when it is out of bounds.
    pub fn set_tuple(&mut self, x: usize, y: usize, state: T)
        ensures
            old(self).spec_in_bounds(x as int, y as int) ==> final(self).spec_updated(
                old(self),
                x as int,
                y as int,
                state,
            ),
            !old(self).spec_in_bounds(x as int, y as int) ==> *final(self) == *old(self),
        no_unwind
    {
        proof {
            use_type_invariant(&*self);
        }
        if x < self.width && y < self.height {
            proof {
                lemma_cell_index(x as int, y as int, self.width as int, self.height as int);
            }
            let i = x * self.height + y;
            self.cells[i] = state;
            proof {
                assert forall|a: int, b: int|
                    #![trigger self.spec_cell(a, b)]
                    old(self).spec_in_bounds(a, b) && !(a == x && b == y) implies self.spec_cell(
                    a,
                    b,
                ) == old(self).spec_cell(a, b) by {
                    lemma_cell_index(a, b, self.width as int, self.height as int);
                    if cell_index(a, b, self.height as int) == i {
                        lemma_cell_index_injective(a, b, x as int, y as int, self.height as int);
                    }
                }
            }
        }
    }

    /// Replaces the cell at `pos`, which must be in bounds.
    pub fn set(&mut self, pos: Pos, state: T)
        requires
            old(self).spec_contains(pos),
        ensures
            final(self).spec_updated(old(self), pos.0.0 as int, pos.0.1 as int, state),
    {
        self.set_tuple(pos.x(), pos.y(), state);
    }
}

impl<T> GridWorld<T> {
    /// Every stored cell equals `v`.
    pub closed spec fn all_cells(&self, v: T) -> bool {
        forall|j: int| 0 <= j < self.cells@.len() ==> self.cells@[j] == v
    }
}

impl<T: Copy> GridWorld<T> {
    /// A grid with every cell equal to `fill`.
    pub fn new(width: usize, height: usize, fill: T) -> (r: Self)
        requires
            width < isize::MAX,
            height < isize::MAX,
            width * height <= usize::MAX,
        ensures
            r.spec_width() == width,
            r.spec_height() == height,
            forall|x: int, y: int| r.spec_in_bounds(x, y) ==> #[trigger] r.spec_cell(x, y) == fill,
            r.all_cells(fill),
    {
        let n = width * height;
        let mut cells: Vec<T> = Vec::with_capacity(n);
        let mut i: usize = 0;
        while i < n
            invariant
                i <= n,
                cells.len() == i,
                forall|j: int| 0 <= j < i ==> cells@[j] == fill,
            decreases n - i,
        {
            cells.push(fill);
            i = i + 1;
        }
        let r = GridWorld { width, height, cells };
        proof {
            assert forall|x: int, y: int| r.spec_in_bounds(x, y) implies #[trigger] r.spec_cell(
                x,
                y,
            ) == fill by {
                lemma_cell_index(x, y, width as int, height as int);
            }
        }
        r
    }

    /// A copy of the grid with the same cells.
    pub fn copy(&self) -> (r: Self)
        ensures
            r.spec_width() == self.spec_width(),
            r.spec_height() == self.spec_height(),
            forall|x: int, y: int|
                self.spec_in_bounds(x, y) ==> #[trigger] r.spec_cell(x, y) == self.spec_cell(x, y),
    {
        proof {
            use_type_invariant(self);
        }
        let n = self.cells.len();
        let mut cells: Vec<T> = Vec::with_capacity(n);
        let mut i: usize = 0;
        while i < n
            invariant
                i <= n,
                n == self.cells.len(),
                cells.len() == i,
                forall|j: int| 0 <= j < i ==> cells@[j] == self.cells@[j],
            decreases n - i,
        {
            cells.push(self.cells[i]);
            i = i + 1;
        }
        assert(cells@ == self.cells@);
        GridWorld { width: self.width, height: self.height, cells }
    }
}


/// The `i`-th point of edge `k` (1 to 4) of the ring at distance `d` around `(cx, cy)`.
/// Edge 1 runs from north towards east, 2 from east towards south, 3 from south towards
/// west and 4 from west towards north.
pub open spec fn edge_point(cx: int, cy: int, d: int, k: int, i: int) -> (int, int) {
    if k == 1 {
        (cx + i, cy + (d - i))
    } else if k == 2 {
        (cx + (d - i), cy - i)
    } else if k == 3 {
        (cx - i, cy - (d - i))
    } else {
        (cx - (d - i), cy + i)
    }
}

pub open spec fn ring_edge(cx: int, cy: int, d: int, k: int) -> Seq<(int, int)> {
    Seq::new(d as nat, |i: int| edge_point(cx, cy, d, k, i))
}

/// The points at Manhattan distance `d` from `(cx, cy)`, clockwise from north.
pub open spec fn ring(cx: int, cy: int, d: int) -> Seq<(int, int)> {
    if d <= 0 {
        seq![(cx, cy)]
    } else {
        ring_edge(cx, cy, d, 1) + ring_edge(cx, cy, d, 2) + ring_edge(cx, cy, d, 3) + ring_edge(
            cx,
            cy,
            d,
            4,
        )
    }
}

/// The rings at distances `0..=n`, nearest first.
pub open spec fn rings_upto(cx: int, cy: int, n: nat) -> Seq<(int, int)>
    decreases n,
{
    if n == 0 {
        ring(cx, cy, 0)
    } else {
        rings_upto(cx, cy, (n - 1) as nat) + ring(cx, cy, n as int)
    }
}

pub open spec fn in_rect(w: int, h: int) -> spec_fn((int, int)) -> bool {
    |p: (int, int)| 0 <= p.0 < w && 0 <= p.1 < h
}

/// The coordinates that `nearby` lists, in order.
pub open spec fn nearby_coords(w: int, h: int, cx: int, cy: int, max_dist: nat) -> Seq<(int, int)> {
    rings_upto(cx, cy, max_dist).filter(in_rect(w, h))
}

impl<T> GridWorld<T> {
    /// `r` lists the cells at `coords`, in the same order.
    pub open spec fn lists(&self, r: Seq<(Pos, T)>, coords: Seq<(int, int)>) -> bool {
        &&& r.len() == coords.len()
        &&& forall|i: int|
            #![trigger r[i]]
            0 <= i < r.len() ==> r[i].0.0.0 == coords[i].0 && r[i].0.0.1 == coords[i].1 && r[i].1
                == self.spec_cell(coords[i].0, coords[i].1)
    }
}

impl<T: Copy> GridWorld<T> {
    /// Appends the in-bounds points of edge `k` of the ring at distance `d`.
    fn push_edge(
        &self,
        positions: &mut Vec<(Pos, T)>,
        cx: isize,
        cy: isize,
        d: isize,
        k: u8,
        Ghost(gen): Ghost<Seq<(int, int)>>,
    )
        requires
            1 <= k <= 4,
            0 <= cx,
            0 <= cy,
            0 <= d,
            cx + d < isize::MAX,
            cy + d < isize::MAX,
            self.lists(old(positions)@, gen.filter(in_rect(self.spec_width() as int, self.spec_height() as int))),
        ensures
            self.lists(
                final(positions)@,
                (gen + ring_edge(cx as int, cy as int, d as int, k as int)).filter(
                    in_rect(self.spec_width() as int, self.spec_height() as int),
                ),
            ),
    {
        let w = self.width();
        let h = self.height();
        let ghost pred = in_rect(w as int, h as int);
        let ghost edge = ring_edge(cx as int, cy as int, d as int, k as int);
        let mut i: isize = 0;
        while i < d
            invariant
                0 <= i <= d,
                1 <= k <= 4,
                0 <= cx,
                0 <= cy,
                cx + d < isize::MAX,
                cy + d < isize::MAX,
                w == self.spec_width(),
                h == self.spec_height(),
                w < isize::MAX,
                h < isize::MAX,
                pred == in_rect(w as int, h as int),
                edge == ring_edge(cx as int, cy as int, d as int, k as int),
                self.lists(positions@, (gen + edge.take(i as int)).filter(pred)),
            decreases d - i,
        {
            let (x, y): (isize, isize) = if k == 1 {
                (cx + i, cy + (d - i))
            } else if k == 2 {
                (cx + (d - i), cy - i)
            } else if k == 3 {
                (cx - i, cy - (d - i))
            } else {
                (cx - (d - i), cy + i)
            };
            assert((x as int, y as int) == edge[i as int]);
            assert(gen + edge.take(i + 1) =~= (gen + edge.take(i as int)).push(edge[i as int]));
            proof {
                (gen + edge.take(i as int)).lemma_filter_push(edge[i as int], pred);
            }
            let ghost before = positions@;
            let ghost f = (gen + edge.take(i as int)).filter(pred);
            if x >= 0 && y >= 0 && x < w as isize && y < h as isize {
                let c = *self.get_tuple(x as usize, y as usize);
                positions.push((Pos((x as usize, y as usize)), c));
                assert(pred((x as int, y as int)));
                assert(self.lists(positions@, f.push((x as int, y as int)))) by {
                    assert forall|j: int| 0 <= j < positions@.len() implies #[trigger] positions@[j].0.0.0
                        == f.push((x as int, y as int))[j].0 && positions@[j].0.0.1 == f.push(
                        (x as int, y as int),
                    )[j].1 && positions@[j].1 == self.spec_cell(
                        f.push((x as int, y as int))[j].0,
                        f.push((x as int, y as int))[j].1,
                    ) by {
                        if j < before.len() {
                            assert(positions@[j] == before[j]);
                        }
                    }
                }
            } else {
                assert(!pred((x as int, y as int)));
            }
            i = i + 1;
        }
        assert(edge.take(d as int) =~= edge);
    }

    /// The in-bounds cells within Manhattan distance `max_dist` of `pos`, nearest first;
    /// each distance layer runs clockwise starting from north.
    #[verifier::rlimit(40)]
    pub fn nearby(&self, pos: Pos, max_dist: usize) -> (r: Vec<(Pos, T)>)
        requires
            pos.0.0 + max_dist < isize::MAX,
            pos.0.1 + max_dist < isize::MAX,
        ensures
            self.lists(
                r@,
                nearby_coords(
                    self.spec_width() as int,
                    self.spec_height() as int,
                    pos.0.0 as int,
                    pos.0.1 as int,
                    max_dist as nat,
                ),
            ),
    {
        let w = self.width();
        let h = self.height();
        let ghost pred = in_rect(w as int, h as int);
        let (center_x, center_y) = pos.as_isize();
        let max_dist = max_dist as isize;
        let mut positions: Vec<(Pos, T)> = Vec::new();
        let ghost cx = center_x as int;
        let ghost cy = center_y as int;
        // Distance 0: the center itself.
        proof {
            reveal_with_fuel(Seq::filter, 2);
            assert(ring(cx, cy, 0) =~= Seq::<(int, int)>::empty().push((cx, cy)));
            Seq::<(int, int)>::empty().lemma_filter_push((cx, cy), pred);
        }
        if center_x < w as isize && center_y < h as isize {
            let c = *self.get_tuple(center_x as usize, center_y as usize);
            positions.push((Pos((center_x as usize, center_y as usize)), c));
        }
        assert(self.lists(positions@, rings_upto(cx, cy, 0).filter(pred)));
        let mut dist: isize = 1;
        while dist <= max_dist
            invariant
                1 <= dist <= max_dist + 1,
                0 <= center_x,
                0 <= center_y,
                cx == center_x,
                cy == center_y,
                center_x + max_dist < isize::MAX,
                center_y + max_dist < isize::MAX,
                w == self.spec_width(),
                h == self.spec_height(),
                pred == in_rect(w as int, h as int),
                self.lists(positions@, rings_upto(cx, cy, (dist - 1) as nat).filter(pred)),
            decreases max_dist + 1 - dist,
        {
            let ghost g0 = rings_upto(cx, cy, (dist - 1) as nat);
            let ghost e1 = ring_edge(cx, cy, dist as int, 1);
            let ghost e2 = ring_edge(cx, cy, dist as int, 2);
            let ghost e3 = ring_edge(cx, cy, dist as int, 3);
            let ghost e4 = ring_edge(cx, cy, dist as int, 4);
            self.push_edge(&mut positions, center_x, center_y, dist, 1, Ghost(g0));
            self.push_edge(&mut positions, center_x, center_y, dist, 2, Ghost(g0 + e1));
            self.push_edge(&mut positions, center_x, center_y, dist, 3, Ghost(g0 + e1 + e2));
            self.push_edge(&mut positions, center_x, center_y, dist, 4, Ghost(g0 + e1 + e2 + e3));
            assert(rings_upto(cx, cy, dist as nat) =~= g0 + e1 + e2 + e3 + e4);
            dist = dist + 1;
        }
        positions
    }
}

pub open spec fn coord_dist(cx: int, cy: int, p: (int, int)) -> int {
    abs_int(p.0 - cx) + abs_int(p.1 - cy)
}

/// Every point of the ring at distance `d` is at distance `d` from the center.
pub proof fn lemma_ring_dist(cx: int, cy: int, d: int, i: int)
    requires
        0 <= d,
        0 <= i < ring(cx, cy, d).len(),
    ensures
        coord_dist(cx, cy, ring(cx, cy, d)[i]) == d,
{
    if d > 0 {
        let e1 = ring_edge(cx, cy, d, 1);
        let e2 = ring_edge(cx, cy, d, 2);
        let e3 = ring_edge(cx, cy, d, 3);
        let e4 = ring_edge(cx, cy, d, 4);
        assert(ring(cx, cy, d) == e1 + e2 + e3 + e4);
        if i < d {
            assert(ring(cx, cy, d)[i] == e1[i]);
        } else if i < 2 * d {
            assert(ring(cx, cy, d)[i] == e2[i - d]);
        } else if i < 3 * d {
            assert(ring(cx, cy, d)[i] == e3[i - 2 * d]);
        } else {
            assert(ring(cx, cy, d)[i] == e4[i - 3 * d]);
        }
    }
}

/// Every point at distance `d` from the center lies on the ring at distance `d`.
pub proof fn lemma_ring_complete(cx: int, cy: int, x: int, y: int)
    ensures
        ring(cx, cy, coord_dist(cx, cy, (x, y))).contains((x, y)),
{
    let d = coord_dist(cx, cy, (x, y));
    let dx = x - cx;
    let dy = y - cy;
    if d == 0 {
        assert(ring(cx, cy, d)[0] == (x, y));
    } else {
        let e1 = ring_edge(cx, cy, d, 1);
        let e2 = ring_edge(cx, cy, d, 2);
        let e3 = ring_edge(cx, cy, d, 3);
        let e4 = ring_edge(cx, cy, d, 4);
        let r = ring(cx, cy, d);
        assert(r == e1 + e2 + e3 + e4);
        if dx >= 0 && dy > 0 {
            assert(r[dx] == e1[dx]);
            assert(r[dx] == (x, y));
        } else if dx > 0 && dy <= 0 {
            assert(r[d + (-dy)] == e2[-dy]);
            assert(r[d + (-dy)] == (x, y));
        } else if dx <= 0 && dy < 0 {
            assert(r[2 * d + (-dx)] == e3[-dx]);
            assert(r[2 * d + (-dx)] == (x, y));
        } else {
            assert(r[3 * d + dy] == e4[dy]);
            assert(r[3 * d + dy] == (x, y));
        }
    }
}

/// The points listed up to ring `n` are exactly the points within distance `n`,
/// in non-decreasing order of distance.
pub proof fn lemma_rings_upto(cx: int, cy: int, n: nat)
    ensures
        forall|i: int|
            0 <= i < rings_upto(cx, cy, n).len() ==> coord_dist(cx, cy, #[trigger] rings_upto(
                cx,
                cy,
                n,
            )[i]) <= n,
        forall|i: int, j: int|
            0 <= i <= j < rings_upto(cx, cy, n).len() ==> coord_dist(cx, cy, #[trigger] rings_upto(
                cx,
                cy,
                n,
            )[i]) <= coord_dist(cx, cy, #[trigger] rings_upto(cx, cy, n)[j]),
        forall|x: int, y: int|
            coord_dist(cx, cy, (x, y)) <= n ==> #[trigger] rings_upto(cx, cy, n).contains((x, y)),
    decreases n,
{
    if n == 0 {
        assert forall|i: int| 0 <= i < rings_upto(cx, cy, n).len() implies coord_dist(
            cx,
            cy,
            #[trigger] rings_upto(cx, cy, n)[i],
        ) <= n by {
            lemma_ring_dist(cx, cy, 0, i);
        }
        assert forall|x: int, y: int| coord_dist(cx, cy, (x, y)) <= n implies #[trigger] rings_upto(
            cx,
            cy,
            n,
        ).contains((x, y)) by {
            lemma_ring_complete(cx, cy, x, y);
        }
    } else {
        let m = (n - 1) as nat;
        lemma_rings_upto(cx, cy, m);
        let a = rings_upto(cx, cy, m);
        let b = ring(cx, cy, n as int);
        let s = rings_upto(cx, cy, n);
        assert(s == a + b);
        assert forall|i: int| 0 <= i < s.len() implies coord_dist(cx, cy, #[trigger] s[i]) <= n by {
            if i >= a.len() {
                lemma_ring_dist(cx, cy, n as int, i - a.len());
            }
        }
        assert forall|i: int, j: int| 0 <= i <= j < s.len() implies coord_dist(
            cx,
            cy,
            #[trigger] s[i],
        ) <= coord_dist(cx, cy, #[trigger] s[j]) by {
            if j >= a.len() {
                lemma_ring_dist(cx, cy, n as int, j - a.len());
                if i >= a.len() {
                    lemma_ring_dist(cx, cy, n as int, i - a.len());
                }
            }
        }
        assert forall|x: int, y: int| coord_dist(cx, cy, (x, y)) <= n implies #[trigger] s.contains(
            (x, y),
        ) by {
            if coord_dist(cx, cy, (x, y)) <= m {
                assert(a.contains((x, y)));
                let k = choose|k: int| 0 <= k < a.len() && a[k] == (x, y);
                assert(s[k] == (x, y));
            } else {
                lemma_ring_complete(cx, cy, x, y);
                let k = choose|k: int| 0 <= k < b.len() && b[k] == (x, y);
                assert(s[a.len() + k] == (x, y));
            }
        }
    }
}

/// Keeping the elements that satisfy `p` keeps a non-decreasing order.
pub proof fn lemma_filter_sorted(s: Seq<(int, int)>, p: spec_fn((int, int)) -> bool, cx: int, cy: int)
    requires
        forall|i: int, j: int|
            0 <= i <= j < s.len() ==> coord_dist(cx, cy, #[trigger] s[i]) <= coord_dist(
                cx,
                cy,
                #[trigger] s[j],
            ),
    ensures
        forall|i: int, j: int|
            0 <= i <= j < s.filter(p).len() ==> coord_dist(cx, cy, #[trigger] s.filter(p)[i])
                <= coord_dist(cx, cy, #[trigger] s.filter(p)[j]),
    decreases s.len(),
{
    reveal(Seq::filter);
    if s.len() > 0 {
        let t = s.drop_last();
        assert forall|i: int, j: int|
            0 <= i <= j < t.len() implies coord_dist(cx, cy, #[trigger] t[i]) <= coord_dist(
            cx,
            cy,
            #[trigger] t[j],
        ) by {
            assert(t[i] == s[i] && t[j] == s[j]);
        }
        lemma_filter_sorted(t, p, cx, cy);
        let f = t.filter(p);
        if p(s.last()) {
            assert(s.filter(p) == f.push(s.last()));
            assert forall|i: int, j: int|
                0 <= i <= j < s.filter(p).len() implies coord_dist(
                cx,
                cy,
                #[trigger] s.filter(p)[i],
            ) <= coord_dist(cx, cy, #[trigger] s.filter(p)[j]) by {
                if j == f.len() && i < j {
                    assert(f.contains(f[i]));
                    t.lemma_filter_contains_rev(p, f[i]);
                    let k = choose|k: int| 0 <= k < t.len() && t[k] == f[i];
                    assert(s[k] == f[i]);
                    assert(s[s.len() - 1] == s.last());
                }
            }
        }
    }
}

/// What `nearby` lists around `(cx, cy)`: only cells of the grid within `max_dist`, every
/// such cell, and in non-decreasing order of distance.
pub proof fn lemma_nearby_coords(w: int, h: int, cx: int, cy: int, max_dist: nat)
    ensures
        forall|i: int|
            0 <= i < nearby_coords(w, h, cx, cy, max_dist).len() ==> {
                let p = #[trigger] nearby_coords(w, h, cx, cy, max_dist)[i];
                &&& 0 <= p.0 < w
                &&& 0 <= p.1 < h
                &&& coord_dist(cx, cy, p) <= max_dist
            },
        forall|x: int, y: int|
            0 <= x < w && 0 <= y < h && coord_dist(cx, cy, (x, y)) <= max_dist
                ==> #[trigger] nearby_coords(w, h, cx, cy, max_dist).contains((x, y)),
        forall|i: int, j: int|
            0 <= i <= j < nearby_coords(w, h, cx, cy, max_dist).len() ==> coord_dist(
                cx,
                cy,
                #[trigger] nearby_coords(w, h, cx, cy, max_dist)[i],
            ) <= coord_dist(cx, cy, #[trigger] nearby_coords(w, h, cx, cy, max_dist)[j]),
{
    let s = rings_upto(cx, cy, max_dist);
    let p = in_rect(w, h);
    let f = s.filter(p);
    lemma_rings_upto(cx, cy, max_dist);
    lemma_filter_sorted(s, p, cx, cy);
    assert forall|i: int| 0 <= i < f.len() implies {
        let q = #[trigger] f[i];
        &&& 0 <= q.0 < w
        &&& 0 <= q.1 < h
        &&& coord_dist(cx, cy, q) <= max_dist
    } by {
        s.lemma_filter_pred(p, i);
        assert(f.contains(f[i]));
        s.lemma_filter_contains_rev(p, f[i]);
    }
    assert forall|x: int, y: int|
        0 <= x < w && 0 <= y < h && coord_dist(cx, cy, (x, y)) <= max_dist implies #[trigger] f.contains(
        (x, y),
    ) by {
        assert(s.contains((x, y)));
        let k = choose|k: int| 0 <= k < s.len() && s[k] == (x, y);
        s.lemma_filter_contains(p, k);
    }
}

impl<T: Copy> GridWorld<T> {
    /// The coordinates that `nearby(pos, dist)` lists.
    pub open spec fn spec_nearby(&self, pos: Pos, dist: usize) -> Seq<(int, int)> {
        nearby_coords(
            self.spec_width() as int,
            self.spec_height() as int,
            pos.0.0 as int,
            pos.0.1 as int,
            dist as nat,
        )
    }

    /// `pred` answered `true` on the cell at `coords[i]` and `false` on every cell before it.
    pub open spec fn first_match<F: Fn(&T) -> bool>(
        &self,
        coords: Seq<(int, int)>,
        pred: F,
        i: int,
    ) -> bool {
        &&& 0 <= i < coords.len()
        &&& pred.ensures((&self.spec_cell(coords[i].0, coords[i].1),), true)
        &&& forall|j: int|
            0 <= j < i ==> #[trigger] pred.ensures(
                (&self.spec_cell(coords[j].0, coords[j].1),),
                false,
            )
    }

    /// `found` is the cell at `coords[i]`, the first on which `pred` answered `true`.
    pub open spec fn found_at<F: Fn(&T) -> bool>(
        &self,
        coords: Seq<(int, int)>,
        pred: F,
        i: int,
        found: (Pos, T),
    ) -> bool {
        &&& self.first_match(coords, pred, i)
        &&& found.0.0.0 == coords[i].0
        &&& found.0.0.1 == coords[i].1
        &&& found.1 == self.spec_cell(coords[i].0, coords[i].1)
    }

    /// The nearest cell (in the order of `nearby`) within `dist` of `pos` on which `pred`
    /// holds.
    pub fn find_nearby<F: Fn(&T) -> bool>(&self, pos: Pos, dist: usize, pred: F) -> (r: Option<
        (Pos, T),
    >)
        requires
            pos.0.0 + dist < isize::MAX,
            pos.0.1 + dist < isize::MAX,
            forall|c: T| #[trigger] pred.requires((&c,)),
        ensures
            r is None ==> forall|i: int|
                0 <= i < self.spec_nearby(pos, dist).len() ==> #[trigger] pred.ensures(
                    (
                        &self.spec_cell(
                            self.spec_nearby(pos, dist)[i].0,
                            self.spec_nearby(pos, dist)[i].1,
                        ),
                    ),
                    false,
                ),
            r matches Some(found) ==> exists|i: int|
                #[trigger] self.found_at(self.spec_nearby(pos, dist), pred, i, found),
    {
        let cells = self.nearby(pos, dist);
        let ghost coords = nearby_coords(
            self.spec_width() as int,
            self.spec_height() as int,
            pos.0.0 as int,
            pos.0.1 as int,
            dist as nat,
        );
        let n = cells.len();
        let mut i: usize = 0;
        while i < n
            invariant
                i <= n,
                n == cells.len(),
                coords == self.spec_nearby(pos, dist),
                self.lists(cells@, coords),
                forall|c: T| #[trigger] pred.requires((&c,)),
                forall|j: int|
                    0 <= j < i ==> #[trigger] pred.ensures(
                        (&self.spec_cell(coords[j].0, coords[j].1),),
                        false,
                    ),
            decreases n - i,
        {
            let entry = cells[i];
            assert(entry == cells@[i as int]);
            if pred(&entry.1) {
                assert(self.found_at(coords, pred, i as int, entry));
                let r = Some(entry);
                assert(r matches Some(found) ==> self.found_at(coords, pred, i as int, found));
                return r;
            }
            i = i + 1;
        }
        None
    }

    /// The direction from `pos` to the first cell within distance one (itself first) on
    /// which `pred` holds; `None` when there is none or when it is `pos` itself.
    pub fn find_adj<F: Fn(&T) -> bool>(&self, pos: Pos, pred: F) -> (r: Option<Dir>)
        requires
            pos.0.0 + 1 < isize::MAX,
            pos.0.1 + 1 < isize::MAX,
            forall|c: T| #[trigger] pred.requires((&c,)),
        ensures
            r matches Some(d) ==> spec_step(pos, d) matches Some(q) && self.spec_contains(q)
                && pred.ensures((&self.spec_at(q),), true),
            r matches Some(d) ==> exists|i: int|
                #[trigger] self.first_match(self.spec_nearby(pos, 1), pred, i) && spec_dir_from_deltas(
                    self.spec_nearby(pos, 1)[i].0 - pos.0.0,
                    self.spec_nearby(pos, 1)[i].1 - pos.0.1,
                ) == Some(d),
            r is None ==> (forall|i: int|
                0 <= i < self.spec_nearby(pos, 1).len() ==> #[trigger] pred.ensures(
                    (
                        &self.spec_cell(
                            self.spec_nearby(pos, 1)[i].0,
                            self.spec_nearby(pos, 1)[i].1,
                        ),
                    ),
                    false,
                )) || (exists|i: int|
                #[trigger] self.first_match(self.spec_nearby(pos, 1), pred, i) && spec_dir_from_deltas(
                    self.spec_nearby(pos, 1)[i].0 - pos.0.0,
                    self.spec_nearby(pos, 1)[i].1 - pos.0.1,
                ) is None),
    {
        match self.find_nearby(pos, 1, pred) {
            Some((target, c)) => {
                proof {
                    let coords = nearby_coords(
                        self.spec_width() as int,
                        self.spec_height() as int,
                        pos.0.0 as int,
                        pos.0.1 as int,
                        1,
                    );
                    lemma_nearby_coords(
                        self.spec_width() as int,
                        self.spec_height() as int,
                        pos.0.0 as int,
                        pos.0.1 as int,
                        1,
                    );
                    let i = choose|i: int| #[trigger] self.found_at(coords, pred, i, (target, c));
                    assert(coords[i] == coords[i]);
                    assert(self.first_match(coords, pred, i));
                    lemma_dir_from_deltas_inverse(target.0.0 - pos.0.0, target.0.1 - pos.0.1);
                }
                pos.dir_to(&target)
            },
            None => None,
        }
    }

    /// `r[cell_index(x, y)]` holds cell `(x, y)` with its coordinates.
    pub open spec fn iter_entry(&self, r: Seq<((usize, usize), T)>, x: int, y: int) -> bool {
        let e = r[cell_index(x, y, self.spec_height() as int)];
        e.0.0 == x && e.0.1 == y && e.1 == self.spec_cell(x, y)
    }

    /// Every cell with its coordinates, row by row (`x` outer, `y` inner).
    pub fn iter(&self) -> (r: Vec<((usize, usize), T)>)
        ensures
            r.len() == self.spec_width() * self.spec_height(),
            forall|x: int, y: int|
                self.spec_in_bounds(x, y) ==> #[trigger] self.iter_entry(r@, x, y),
    {
        let w = self.width();
        let h = self.height();
        let mut r: Vec<((usize, usize), T)> = Vec::new();
        let mut x: usize = 0;
        while x < w
            invariant
                x <= w,
                w == self.spec_width(),
                h == self.spec_height(),
                r.len() == x * h,
                forall|a: int, b: int|
                    0 <= a < x && 0 <= b < h ==> #[trigger] self.iter_entry(r@, a, b),
            decreases w - x,
        {
            let mut y: usize = 0;
            assert(x * h + h <= w * h) by (nonlinear_arith)
                requires
                    x < w,
            ;
            while y < h
                invariant
                    x < w,
                    y <= h,
                    w == self.spec_width(),
                    h == self.spec_height(),
                    r.len() == x * h + y,
                    x * h + h <= w * h,
                    forall|a: int, b: int|
                        (0 <= a < x && 0 <= b < h) || (a == x && 0 <= b < y)
                            ==> #[trigger] self.iter_entry(r@, a, b),
                decreases h - y,
            {
                let c = *self.get_tuple(x, y);
                let ghost before = r@;
                r.push(((x, y), c));
                proof {
                    assert forall|a: int, b: int|
                        (0 <= a < x && 0 <= b < h) || (a == x && 0 <= b < y + 1)
                            implies #[trigger] self.iter_entry(r@, a, b) by {
                        if a == x && b == y {
                        } else {
                            if a < x {
                                lemma_cell_index(a, b, x as int, h as int);
                            }
                            assert(self.iter_entry(before, a, b));
                            assert(r@[cell_index(a, b, h as int)] == before[cell_index(
                                a,
                                b,
                                h as int,
                            )]);
                        }
                    }
                }
                y = y + 1;
            }
            assert((x + 1) * h == x * h + h) by (nonlinear_arith);
            x = x + 1;
        }
        r
    }
}


/// The number of `true` entries.
pub open spec fn count_true(s: Seq<bool>) -> nat
    decreases s.len(),
{
    if s.len() == 0 {
        0
    } else {
        count_true(s.drop_last()) + (if s.last() {
            1nat
        } else {
            0nat
        })
    }
}

pub proof fn lemma_count_true_le(s: Seq<bool>)
    ensures
        count_true(s) <= s.len(),
    decreases s.len(),
{
    if s.len() > 0 {
        lemma_count_true_le(s.drop_last());
    }
}

pub proof fn lemma_count_true_set(s: Seq<bool>, i: int)
    requires
        0 <= i < s.len(),
        !s[i],
    ensures
        count_true(s.update(i, true)) == count_true(s) + 1,
    decreases s.len(),
{
    let t = s.update(i, true);
    if i == s.len() - 1 {
        assert(t.drop_last() =~= s.drop_last());
    } else {
        assert(t.drop_last() =~= s.drop_last().update(i, true));
        lemma_count_true_set(s.drop_last(), i);
    }
}

impl GridWorld<bool> {
    /// Sets cell `(x, y)` to `true`.
    fn mark(&mut self, x: usize, y: usize)
        requires
            old(self).spec_in_bounds(x as int, y as int),
        ensures
            final(self).spec_updated(old(self), x as int, y as int, true),
            final(self).cells@ == old(self).cells@.update(
                cell_index(x as int, y as int, old(self).height as int),
                true,
            ),
            final(self).height == old(self).height,
    {
        proof {
            use_type_invariant(&*self);
            lemma_cell_index(x as int, y as int, self.width as int, self.height as int);
        }
        self.set_tuple(x, y, true);
        proof {
            use_type_invariant(&*self);
            assert forall|j: int| 0 <= j < self.cells@.len() implies self.cells@[j]
                == old(self).cells@.update(
                cell_index(x as int, y as int, old(self).height as int),
                true,
            )[j] by {
                let h = self.height as int;
                if h > 0 {
                    let a = j / h;
                    let b = j % h;
                    assert(j == a * h + b) by (nonlinear_arith)
                        requires
                            h > 0,
                            a == j / h,
                            b == j % h,
                    ;
                    assert(0 <= b < h) by (nonlinear_arith)
                        requires
                            h > 0,
                            b == j % h,
                    ;
                    assert(0 <= a < self.width) by (nonlinear_arith)
                        requires
                            h > 0,
                            a == j / h,
                            0 <= j < self.width * h,
                    ;
                    assert(self.cells@[j] == self.spec_cell(a, b));
                    if a == x && b == y {
                    } else {
                        if j == cell_index(x as int, y as int, h) {
                            lemma_cell_index_injective(a, b, x as int, y as int, h);
                        }
                    }
                }
            }
            assert(self.cells@ =~= old(self).cells@.update(
                cell_index(x as int, y as int, old(self).height as int),
                true,
            ));
        }
    }

    /// The number of `true` cells.
    closed spec fn marked(&self) -> nat {
        count_true(self.cells@)
    }

}

/// Whether a path may stop at `p` when heading for `goal`.
pub open spec fn accepts(goal: Pos, use_adjacent: bool, p: Pos) -> bool {
    if use_adjacent {
        pos_dist(p, goal) == 1 || p == goal
    } else {
        p == goal
    }
}

/// A walk of single steps through in-bounds cells, none blocked after the first.
pub open spec fn is_path<T: PassableCell>(grid: &GridWorld<T>, path: Seq<Pos>) -> bool {
    &&& path.len() >= 1
    &&& forall|i: int| 0 <= i < path.len() ==> grid.spec_contains(#[trigger] path[i])
    &&& forall|i: int|
        1 <= i < path.len() ==> !(#[trigger] grid.spec_at(path[i])).spec_is_blocked()
    &&& forall|i: int| 0 <= i < path.len() - 1 ==> pos_dist(#[trigger] path[i], path[i + 1]) == 1
}

pub open spec fn coord_pos(x: int, y: int) -> Pos {
    Pos((x as usize, y as usize))
}

/// A* search state, reusable across searches on grids no larger than it.
pub struct PathFinder {
    f_scores: GridWorld<i32>,
    g_scores: GridWorld<i32>,
    came_from: GridWorld<Option<(usize, usize)>>,
    width: usize,
    height: usize,
}

impl PathFinder {
    pub closed spec fn spec_width(&self) -> nat {
        self.width as nat
    }

    pub closed spec fn spec_height(&self) -> nat {
        self.height as nat
    }

    pub open spec fn wf(&self) -> bool {
        &&& self.spec_width() < isize::MAX
        &&& self.spec_height() < isize::MAX
        &&& self.spec_width() * self.spec_height() <= usize::MAX
    }

    pub fn new(width: usize, height: usize) -> (r: Self)
        requires
            width < isize::MAX,
            height < isize::MAX,
            width * height <= usize::MAX,
        ensures
            r.spec_width() == width,
            r.spec_height() == height,
            r.wf(),
    {
        PathFinder {
            f_scores: GridWorld::new(width, height, i32::MAX),
            g_scores: GridWorld::new(width, height, i32::MAX),
            came_from: GridWorld::new(width, height, None),
            width,
            height,
        }
    }

    fn manhattan_distance(from: (usize, usize), to: (usize, usize)) -> (r: i32)
        requires
            from.0 < isize::MAX,
            from.1 < isize::MAX,
            to.0 < isize::MAX,
            to.1 < isize::MAX,
            abs_int(from.0 - to.0) + abs_int(from.1 - to.1) <= i32::MAX,
        ensures
            r == abs_int(from.0 - to.0) + abs_int(from.1 - to.1),
    {
        let dx0 = from.0 as isize - to.0 as isize;
        let dy0 = from.1 as isize - to.1 as isize;
        let dx = if dx0 < 0 {
            -dx0
        } else {
            dx0
        };
        let dy = if dy0 < 0 {
            -dy0
        } else {
            dy0
        };
        (dx as i32) + (dy as i32)
    }

    /// Follows the links from `current` back to `start` and returns the walk from `start`.
    #[verifier::spinoff_prover]
    fn reconstruct_path<T: PassableCell>(&self, grid: &GridWorld<T>, start: Pos, current: (
        usize,
        usize,
    )) -> (r: Vec<Pos>)
        requires
            chain_ok(self.g_scores, self.came_from, *grid, start),
            grid.spec_in_bounds(current.0 as int, current.1 as int),
            self.g_scores.spec_cell(current.0 as int, current.1 as int) != i32::MAX,
        ensures
            is_path(grid, r@),
            r@[0] == start,
            r@.last() == Pos(current),
            r@.len() <= self.g_scores.spec_cell(current.0 as int, current.1 as int) + 1,
    {
        let mut rev: Vec<Pos> = Vec::new();
        rev.push(Pos(current));
        let mut cur = current;
        while self.came_from.get_tuple(cur.0, cur.1).is_some()
            invariant
                chain_ok(self.g_scores, self.came_from, *grid, start),
                grid.spec_in_bounds(cur.0 as int, cur.1 as int),
                self.g_scores.spec_cell(cur.0 as int, cur.1 as int) != i32::MAX,
                rev@.len() >= 1,
                rev@.len() - 1 + self.g_scores.spec_cell(cur.0 as int, cur.1 as int)
                    <= self.g_scores.spec_cell(current.0 as int, current.1 as int),
                rev@[0] == Pos(current),
                rev@.last() == Pos(cur),
                forall|i: int| 0 <= i < rev@.len() ==> grid.spec_contains(#[trigger] rev@[i]),
                forall|i: int|
                    0 <= i < rev@.len() - 1 ==> !(#[trigger] grid.spec_at(
                        rev@[i],
                    )).spec_is_blocked() && self.g_scores.spec_at(rev@[i]) != i32::MAX
                        && self.g_scores.spec_at(rev@[i]) > self.g_scores.spec_cell(
                        cur.0 as int,
                        cur.1 as int,
                    ),
                forall|i: int|
                    0 <= i < rev@.len() - 1 ==> pos_dist(#[trigger] rev@[i], rev@[i + 1]) == 1,
            decreases self.g_scores.spec_cell(cur.0 as int, cur.1 as int),
        {
            proof {
                assert(linked_ok(self.g_scores, self.came_from, *grid, start, cur.0 as int, cur.1 as int));
            }
            let ghost old_cur = cur;
            let prev = self.came_from.get_tuple(cur.0, cur.1).unwrap();
            assert(Some(prev) == self.came_from.spec_cell(cur.0 as int, cur.1 as int));
            assert(self.g_scores.spec_cell(prev.0 as int, prev.1 as int) < self.g_scores.spec_cell(
                cur.0 as int,
                cur.1 as int,
            ));
            assert(linked_ok(self.g_scores, self.came_from, *grid, start, prev.0 as int, prev.1 as int));
            assert(self.g_scores.spec_cell(cur.0 as int, cur.1 as int) != i32::MAX);
            assert(!(cur.0 == start.0.0 && cur.1 == start.0.1));
            let ghost old_rev = rev@;
            rev.push(Pos(prev));
            cur = prev;
            proof {
                assert forall|i: int|
                    0 <= i < rev@.len() - 1 implies !(#[trigger] grid.spec_at(
                    rev@[i],
                )).spec_is_blocked() && self.g_scores.spec_at(rev@[i]) != i32::MAX
                    && self.g_scores.spec_at(rev@[i]) > self.g_scores.spec_cell(
                    cur.0 as int,
                    cur.1 as int,
                ) by {
                    assert(rev@[i] == old_rev[i]);
                }
                assert forall|i: int| 0 <= i < rev@.len() - 1 implies pos_dist(
                    #[trigger] rev@[i],
                    rev@[i + 1],
                ) == 1 by {
                    assert(rev@[i] == old_rev[i]);
                }
            }
        }
        assert(linked_ok(self.g_scores, self.came_from, *grid, start, cur.0 as int, cur.1 as int));
        assert(cur.0 == start.0.0 && cur.1 == start.0.1);
        assert(self.g_scores.spec_cell(cur.0 as int, cur.1 as int) == 0);
        let n = rev.len();
        let mut path: Vec<Pos> = Vec::new();
        let mut k: usize = n;
        while k > 0
            invariant
                0 <= k <= n,
                n == rev@.len(),
                n >= 1,
                path@.len() == n - k,
                forall|i: int| 0 <= i < path@.len() ==> #[trigger] path@[i] == rev@[n - 1 - i],
            decreases k,
        {
            k = k - 1;
            path.push(rev[k]);
        }
        proof {
            assert(path@[0] == rev@[n - 1]);
            assert(rev@[n - 1] == Pos(cur));
            assert(Pos(cur) == start);
            assert(path@.last() == rev@[0]);
            assert forall|i: int| 0 <= i < path@.len() implies grid.spec_contains(
                #[trigger] path@[i],
            ) by {
                assert(path@[i] == rev@[n - 1 - i]);
            }
            assert forall|i: int| 1 <= i < path@.len() implies !(#[trigger] grid.spec_at(
                path@[i],
            )).spec_is_blocked() by {
                assert(path@[i] == rev@[n - 1 - i]);
            }
            assert forall|i: int| 0 <= i < path@.len() - 1 implies pos_dist(
                #[trigger] path@[i],
                path@[i + 1],
            ) == 1 by {
                assert(path@[i] == rev@[n - 1 - i]);
                assert(path@[i + 1] == rev@[n - 1 - (i + 1)]);
                assert(pos_dist(rev@[n - 2 - i], rev@[n - 2 - i + 1]) == 1);
            }
        }
        path
    }
}

/// The scores and links describe walks back to `start`: a cell with a finite score other
/// than `start` links to an adjacent cell with a smaller finite score.
/// Cell `(x, y)`, when it has a finite score, is `start` or links to an adjacent in-bounds
/// cell with a smaller score, and is not blocked.
spec fn linked_ok<T: PassableCell>(
    g: GridWorld<i32>,
    came: GridWorld<Option<(usize, usize)>>,
    grid: GridWorld<T>,
    start: Pos,
    x: int,
    y: int,
) -> bool {
    grid.spec_in_bounds(x, y) && g.spec_cell(x, y) != i32::MAX ==> {
        &&& g.spec_cell(x, y) >= 0
        &&& (x == start.0.0 && y == start.0.1) || (came.spec_cell(x, y) matches Some(p)
            && grid.spec_in_bounds(p.0 as int, p.1 as int) && abs_int(p.0 - x) + abs_int(p.1 - y)
            == 1 && g.spec_cell(p.0 as int, p.1 as int) < g.spec_cell(x, y) && !grid.spec_cell(
            x,
            y,
        ).spec_is_blocked())
    }
}

/// The scores and links describe walks back to `start`.
spec fn chain_ok<T: PassableCell>(
    g: GridWorld<i32>,
    came: GridWorld<Option<(usize, usize)>>,
    grid: GridWorld<T>,
    start: Pos,
) -> bool {
    &&& grid.spec_contains(start)
    &&& g.spec_width() >= grid.spec_width()
    &&& g.spec_height() >= grid.spec_height()
    &&& came.spec_width() == g.spec_width()
    &&& came.spec_height() == g.spec_height()
    &&& g.spec_at(start) == 0
    &&& came.spec_at(start) is None
    &&& forall|x: int, y: int| #[trigger] linked_ok(g, came, grid, start, x, y)
}

#[verifier::opaque]
spec fn inv_bound<T: PassableCell>(g: GridWorld<i32>, grid: GridWorld<T>, count: nat) -> bool {
    forall|x: int, y: int|
        #![trigger g.spec_cell(x, y)]
        grid.spec_in_bounds(x, y) && g.spec_cell(x, y) != i32::MAX ==> g.spec_cell(x, y) <= count
}

#[verifier::opaque]
spec fn inv_closed<T: PassableCell>(
    g: GridWorld<i32>,
    grid: GridWorld<T>,
    goal: Pos,
    use_adjacent: bool,
    closed: GridWorld<bool>,
) -> bool {
    forall|x: int, y: int|
        #![trigger closed.spec_cell(x, y)]
        grid.spec_in_bounds(x, y) && closed.spec_cell(x, y) ==> g.spec_cell(x, y) != i32::MAX
            && !accepts(goal, use_adjacent, coord_pos(x, y))
}

#[verifier::opaque]
spec fn inv_cover<T: PassableCell>(
    g: GridWorld<i32>,
    grid: GridWorld<T>,
    closed: GridWorld<bool>,
    open: Seq<(usize, usize, i32)>,
    skip: Option<(int, int)>,
) -> bool {
    forall|x: int, y: int|
        #![trigger g.spec_cell(x, y)]
        grid.spec_in_bounds(x, y) && g.spec_cell(x, y) != i32::MAX && !closed.spec_cell(x, y)
            && skip != Some((x, y)) ==> exists|j: int|
            0 <= j < open.len() && #[trigger] open[j].0 == x && open[j].1 == y
}

#[verifier::opaque]
spec fn inv_entries<T: PassableCell>(
    g: GridWorld<i32>,
    grid: GridWorld<T>,
    open: Seq<(usize, usize, i32)>,
) -> bool {
    forall|j: int|
        0 <= j < open.len() ==> grid.spec_in_bounds(#[trigger] open[j].0 as int, open[j].1 as int)
            && g.spec_cell(open[j].0 as int, open[j].1 as int) != i32::MAX
}

#[verifier::opaque]
spec fn inv_nbrs<T: PassableCell>(
    g: GridWorld<i32>,
    grid: GridWorld<T>,
    closed: GridWorld<bool>,
    except: Option<(int, int)>,
) -> bool {
    forall|x: int, y: int, a: int, b: int|
        #![trigger closed.spec_cell(x, y), g.spec_cell(a, b)]
        grid.spec_in_bounds(x, y) && closed.spec_cell(x, y) && except != Some((x, y))
            && grid.spec_in_bounds(a, b) && abs_int(x - a) + abs_int(y - b) == 1
            && !grid.spec_cell(a, b).spec_is_blocked() ==> g.spec_cell(a, b) != i32::MAX
}

/// The invariant of the search loop. `except` names the cell whose neighbours are being
/// examined, if any.
spec fn search_ok<T: PassableCell>(
    g: GridWorld<i32>,
    came: GridWorld<Option<(usize, usize)>>,
    grid: GridWorld<T>,
    start: Pos,
    goal: Pos,
    use_adjacent: bool,
    closed: GridWorld<bool>,
    count: nat,
    open: Seq<(usize, usize, i32)>,
    except: Option<(int, int)>,
) -> bool {
    &&& chain_ok(g, came, grid, start)
    &&& closed.spec_width() == grid.spec_width()
    &&& closed.spec_height() == grid.spec_height()
    &&& closed.marked() == count
    &&& count <= grid.spec_width() * grid.spec_height()
    &&& inv_bound(g, grid, count)
    &&& inv_closed(g, grid, goal, use_adjacent, closed)
    &&& inv_cover(g, grid, closed, open, None)
    &&& inv_entries(g, grid, open)
    &&& inv_nbrs(g, grid, closed, except)
}

/// Once nothing is left to explore, every cell on a walk from `start` has been closed.
proof fn lemma_path_closed<T: PassableCell>(
    g: GridWorld<i32>,
    grid: GridWorld<T>,
    start: Pos,
    closed: GridWorld<bool>,
    path: Seq<Pos>,
    i: int,
)
    requires
        g.spec_at(start) == 0,
        inv_cover(g, grid, closed, Seq::empty(), None),
        inv_nbrs(g, grid, closed, None),
        is_path(&grid, path),
        path[0] == start,
        0 <= i < path.len(),
    ensures
        closed.spec_at(path[i]),
    decreases i,
{
    reveal(inv_cover);
    reveal(inv_nbrs);
    let p = path[i];
    assert(grid.spec_contains(p));
    if i == 0 {
        assert(g.spec_cell(p.0.0 as int, p.0.1 as int) == 0);
    } else {
        lemma_path_closed(g, grid, start, closed, path, i - 1);
        let q = path[i - 1];
        assert(grid.spec_contains(q));
        assert(pos_dist(path[i - 1], path[i]) == 1);
        assert(!grid.spec_at(path[i]).spec_is_blocked());
        assert(closed.spec_cell(q.0.0 as int, q.0.1 as int));
        assert(g.spec_cell(p.0.0 as int, p.0.1 as int) != i32::MAX);
    }
    if !closed.spec_at(p) {
        assert(g.spec_cell(p.0.0 as int, p.0.1 as int) != i32::MAX);
        assert(exists|j: int|
            0 <= j < Seq::<(usize, usize, i32)>::empty().len()
                && #[trigger] Seq::<(usize, usize, i32)>::empty()[j].0 == p.0.0 as int
                && Seq::<(usize, usize, i32)>::empty()[j].1 == p.0.1 as int);
    }
}

/// Once nothing is left to explore, no walk from `start` reaches an accepted cell.
proof fn lemma_exhausted<T: PassableCell>(
    g: GridWorld<i32>,
    came: GridWorld<Option<(usize, usize)>>,
    grid: GridWorld<T>,
    start: Pos,
    goal: Pos,
    use_adjacent: bool,
    closed: GridWorld<bool>,
    count: nat,
    path: Seq<Pos>,
)
    requires
        search_ok(g, came, grid, start, goal, use_adjacent, closed, count, Seq::empty(), None),
        is_path(&grid, path),
        path[0] == start,
    ensures
        !accepts(goal, use_adjacent, path.last()),
{
    reveal(inv_closed);
    assert forall|i: int| 0 <= i < path.len() implies #[trigger] closed.spec_at(path[i]) by {
        lemma_path_closed(g, grid, start, closed, path, i);
    }
    let l = path.last();
    assert(closed.spec_at(path[path.len() - 1]));
    assert(grid.spec_contains(path[path.len() - 1]));
    assert(coord_pos(l.0.0 as int, l.0.1 as int) == l);
}

/// Taking entry `k` out of the open list: every remaining entry is valid, and every open
/// cell other than the taken one still has an entry.
proof fn lemma_remove_entry<T: PassableCell>(
    g: GridWorld<i32>,
    grid: GridWorld<T>,
    closed: GridWorld<bool>,
    before: Seq<(usize, usize, i32)>,
    k: int,
)
    requires
        0 <= k < before.len(),
        inv_entries(g, grid, before),
        inv_cover(g, grid, closed, before, None),
    ensures
        grid.spec_in_bounds(before[k].0 as int, before[k].1 as int),
        g.spec_cell(before[k].0 as int, before[k].1 as int) != i32::MAX,
        inv_entries(g, grid, before.remove(k)),
        inv_cover(g, grid, closed, before.remove(k), Some((before[k].0 as int, before[k].1 as int))),
{
    reveal(inv_entries);
    reveal(inv_cover);
    let after = before.remove(k);
    let c = (before[k].0 as int, before[k].1 as int);
    assert(grid.spec_in_bounds(before[k].0 as int, before[k].1 as int));
    assert forall|x: int, y: int|
        #![trigger g.spec_cell(x, y)]
        grid.spec_in_bounds(x, y) && g.spec_cell(x, y) != i32::MAX && !closed.spec_cell(x, y)
            && Some(c) != Some((x, y)) implies exists|j: int|
        0 <= j < after.len() && #[trigger] after[j].0 == x && after[j].1 == y by {
        let j = choose|j: int| 0 <= j < before.len() && #[trigger] before[j].0 == x && before[j].1 == y;
        if j < k {
            assert(after[j] == before[j]);
        } else {
            assert(j != k);
            assert(after[j - 1] == before[j]);
        }
    }
    assert forall|j: int| 0 <= j < after.len() implies grid.spec_in_bounds(
        #[trigger] after[j].0 as int,
        after[j].1 as int,
    ) && g.spec_cell(after[j].0 as int, after[j].1 as int) != i32::MAX by {
        if j < k {
            assert(after[j] == before[j]);
        } else {
            assert(after[j] == before[j + 1]);
        }
    }
}

/// A taken entry whose cell is already closed needs no entry of its own.
proof fn lemma_skip_closed<T: PassableCell>(
    g: GridWorld<i32>,
    grid: GridWorld<T>,
    closed: GridWorld<bool>,
    open: Seq<(usize, usize, i32)>,
    c: (int, int),
)
    requires
        inv_cover(g, grid, closed, open, Some(c)),
        closed.spec_cell(c.0, c.1),
    ensures
        inv_cover(g, grid, closed, open, None),
{
    reveal(inv_cover);
}

/// Closing cell `c`, taken from the open list, keeps the invariant with `c`'s neighbours still
/// to examine.
proof fn lemma_close<T: PassableCell>(
    g: GridWorld<i32>,
    grid: GridWorld<T>,
    goal: Pos,
    use_adjacent: bool,
    closed_old: GridWorld<bool>,
    closed_new: GridWorld<bool>,
    open: Seq<(usize, usize, i32)>,
    count: nat,
    c: (int, int),
)
    requires
        grid.spec_in_bounds(c.0, c.1),
        closed_new.spec_updated(&closed_old, c.0, c.1, true),
        g.spec_cell(c.0, c.1) != i32::MAX,
        !accepts(goal, use_adjacent, coord_pos(c.0, c.1)),
        closed_old.spec_width() == grid.spec_width(),
        closed_old.spec_height() == grid.spec_height(),
        inv_bound(g, grid, count),
        inv_closed(g, grid, goal, use_adjacent, closed_old),
        inv_cover(g, grid, closed_old, open, Some(c)),
        inv_nbrs(g, grid, closed_old, None),
    ensures
        inv_bound(g, grid, count + 1),
        inv_closed(g, grid, goal, use_adjacent, closed_new),
        inv_cover(g, grid, closed_new, open, None),
        inv_nbrs(g, grid, closed_new, Some(c)),
{
    reveal(inv_bound);
    reveal(inv_closed);
    reveal(inv_cover);
    reveal(inv_nbrs);
    assert forall|x: int, y: int|
        #![trigger closed_new.spec_cell(x, y)]
        grid.spec_in_bounds(x, y) && closed_new.spec_cell(x, y) implies g.spec_cell(x, y)
        != i32::MAX && !accepts(goal, use_adjacent, coord_pos(x, y)) by {
        if !(x == c.0 && y == c.1) {
            assert(closed_old.spec_cell(x, y));
        }
    }
    assert forall|x: int, y: int|
        #![trigger g.spec_cell(x, y)]
        grid.spec_in_bounds(x, y) && g.spec_cell(x, y) != i32::MAX && !closed_new.spec_cell(x, y)
            && None::<(int, int)> != Some((x, y)) implies exists|j: int|
        0 <= j < open.len() && #[trigger] open[j].0 == x && open[j].1 == y by {
        assert(!(x == c.0 && y == c.1));
        assert(!closed_old.spec_cell(x, y));
    }
    assert forall|x: int, y: int, a: int, b: int|
        #![trigger closed_new.spec_cell(x, y), g.spec_cell(a, b)]
        grid.spec_in_bounds(x, y) && closed_new.spec_cell(x, y) && Some(c) != Some((x, y))
            && grid.spec_in_bounds(a, b) && abs_int(x - a) + abs_int(y - b) == 1
            && !grid.spec_cell(a, b).spec_is_blocked() implies g.spec_cell(a, b) != i32::MAX by {
        assert(closed_old.spec_cell(x, y));
    }
}

/// After every neighbour of `c` has been examined, `c` needs no exception.
proof fn lemma_finish_node<T: PassableCell>(
    g: GridWorld<i32>,
    grid: GridWorld<T>,
    closed: GridWorld<bool>,
    c: (int, int),
    coords: Seq<(int, int)>,
)
    requires
        inv_nbrs(g, grid, closed, Some(c)),
        forall|a: int, b: int|
            grid.spec_in_bounds(a, b) && abs_int(a - c.0) + abs_int(b - c.1) <= 1
                ==> #[trigger] coords.contains((a, b)),
        forall|j: int|
            0 <= j < coords.len() ==> {
                let p = #[trigger] coords[j];
                !grid.spec_cell(p.0, p.1).spec_is_blocked() ==> g.spec_cell(p.0, p.1) != i32::MAX
            },
    ensures
        inv_nbrs(g, grid, closed, None),
{
    reveal(inv_nbrs);
    assert forall|x: int, y: int, a: int, b: int|
        #![trigger closed.spec_cell(x, y), g.spec_cell(a, b)]
        grid.spec_in_bounds(x, y) && closed.spec_cell(x, y) && None::<(int, int)> != Some((x, y))
            && grid.spec_in_bounds(a, b) && abs_int(x - a) + abs_int(y - b) == 1
            && !grid.spec_cell(a, b).spec_is_blocked() implies g.spec_cell(a, b) != i32::MAX by {
        if x == c.0 && y == c.1 {
            assert(abs_int(a - c.0) + abs_int(b - c.1) <= 1);
            assert(coords.contains((a, b)));
            let j = choose|j: int| 0 <= j < coords.len() && coords[j] == (a, b);
            assert(coords[j] == (a, b));
        }
    }
}

/// The cell updated by a search step: `n`, a neighbour of the closed cell `c`, gets score
/// `t = g(c) + 1` and link `c`.
spec fn step_update<T: PassableCell>(
    g_old: GridWorld<i32>,
    g_new: GridWorld<i32>,
    came_old: GridWorld<Option<(usize, usize)>>,
    came_new: GridWorld<Option<(usize, usize)>>,
    grid: GridWorld<T>,
    closed: GridWorld<bool>,
    count: nat,
    c: (int, int),
    n: (int, int),
) -> bool {
    &&& grid.spec_in_bounds(c.0, c.1)
    &&& grid.spec_in_bounds(n.0, n.1)
    &&& g_old.spec_width() >= grid.spec_width()
    &&& g_old.spec_height() >= grid.spec_height()
    &&& closed.spec_cell(c.0, c.1)
    &&& !closed.spec_cell(n.0, n.1)
    &&& !grid.spec_cell(n.0, n.1).spec_is_blocked()
    &&& abs_int(n.0 - c.0) + abs_int(n.1 - c.1) <= 1
    &&& g_old.spec_cell(c.0, c.1) != i32::MAX
    &&& g_old.spec_cell(c.0, c.1) + 1 <= count
    &&& g_old.spec_cell(c.0, c.1) + 1 < g_old.spec_cell(n.0, n.1)
    &&& g_new.spec_updated(&g_old, n.0, n.1, (g_old.spec_cell(c.0, c.1) + 1) as i32)
    &&& came_new.spec_updated(&came_old, n.0, n.1, Some((c.0 as usize, c.1 as usize)))
}

#[verifier::rlimit(50)]
proof fn lemma_update_chain<T: PassableCell>(
    g_old: GridWorld<i32>,
    g_new: GridWorld<i32>,
    came_old: GridWorld<Option<(usize, usize)>>,
    came_new: GridWorld<Option<(usize, usize)>>,
    grid: GridWorld<T>,
    closed: GridWorld<bool>,
    count: nat,
    start: Pos,
    c: (int, int),
    n: (int, int),
)
    requires
        step_update(g_old, g_new, came_old, came_new, grid, closed, count, c, n),
        chain_ok(g_old, came_old, grid, start),
    ensures
        chain_ok(g_new, came_new, grid, start),
{
    let t = g_old.spec_cell(c.0, c.1) + 1;
    assert(!(n.0 == c.0 && n.1 == c.1));
    assert(linked_ok(g_old, came_old, grid, start, c.0, c.1));
    assert(!(n.0 == start.0.0 && n.1 == start.0.1)) by {
        assert(g_old.spec_cell(start.0.0 as int, start.0.1 as int) == 0);
    }
    assert(linked_ok(g_old, came_old, grid, start, c.0, c.1));
    assert(g_old.spec_cell(c.0, c.1) >= 0);
    assert forall|x: int, y: int| #[trigger] linked_ok(g_new, came_new, grid, start, x, y) by {
        assert(linked_ok(g_old, came_old, grid, start, x, y));
        if grid.spec_in_bounds(x, y) && g_new.spec_cell(x, y) != i32::MAX {
            if x == n.0 && y == n.1 {
                assert(g_new.spec_cell(c.0, c.1) == g_old.spec_cell(c.0, c.1));
            } else {
                assert(g_new.spec_cell(x, y) == g_old.spec_cell(x, y));
                assert(g_old.spec_cell(x, y) != i32::MAX);
                if !(x == start.0.0 && y == start.0.1) {
                    assert(came_new.spec_cell(x, y) == came_old.spec_cell(x, y));
                    let p = came_old.spec_cell(x, y)->0;
                    assert(g_old.spec_cell(p.0 as int, p.1 as int) < g_old.spec_cell(x, y));
                    if !(p.0 == n.0 && p.1 == n.1) {
                        assert(g_new.spec_cell(p.0 as int, p.1 as int) == g_old.spec_cell(
                            p.0 as int,
                            p.1 as int,
                        ));
                    }
                }
            }
        }
    }
}


proof fn lemma_update_rest<T: PassableCell>(
    g_old: GridWorld<i32>,
    g_new: GridWorld<i32>,
    came_old: GridWorld<Option<(usize, usize)>>,
    came_new: GridWorld<Option<(usize, usize)>>,
    grid: GridWorld<T>,
    goal: Pos,
    use_adjacent: bool,
    closed: GridWorld<bool>,
    count: nat,
    open_before: Seq<(usize, usize, i32)>,
    open_after: Seq<(usize, usize, i32)>,
    c: (int, int),
    n: (int, int),
)
    requires
        step_update(g_old, g_new, came_old, came_new, grid, closed, count, c, n),
        inv_bound(g_old, grid, count),
        inv_closed(g_old, grid, goal, use_adjacent, closed),
        inv_cover(g_old, grid, closed, open_before, None),
        inv_entries(g_old, grid, open_before),
        inv_nbrs(g_old, grid, closed, Some(c)),
        open_after == open_before.push((n.0 as usize, n.1 as usize, open_after.last().2)),
    ensures
        inv_bound(g_new, grid, count),
        inv_closed(g_new, grid, goal, use_adjacent, closed),
        inv_cover(g_new, grid, closed, open_after, None),
        inv_entries(g_new, grid, open_after),
        inv_nbrs(g_new, grid, closed, Some(c)),
{
    reveal(inv_bound);
    reveal(inv_closed);
    reveal(inv_cover);
    reveal(inv_entries);
    reveal(inv_nbrs);
    assert forall|x: int, y: int|
        #![trigger g_new.spec_cell(x, y)]
        grid.spec_in_bounds(x, y) && g_new.spec_cell(x, y) != i32::MAX implies g_new.spec_cell(
        x,
        y,
    ) <= count by {
        if !(x == n.0 && y == n.1) {
            assert(g_new.spec_cell(x, y) == g_old.spec_cell(x, y));
        }
    }
    assert forall|x: int, y: int|
        #![trigger closed.spec_cell(x, y)]
        grid.spec_in_bounds(x, y) && closed.spec_cell(x, y) implies g_new.spec_cell(x, y)
        != i32::MAX && !accepts(goal, use_adjacent, coord_pos(x, y)) by {
        assert(g_old.spec_cell(x, y) != i32::MAX);
        if !(x == n.0 && y == n.1) {
            assert(g_new.spec_cell(x, y) == g_old.spec_cell(x, y));
        }
    }
    assert forall|x: int, y: int|
        #![trigger g_new.spec_cell(x, y)]
        grid.spec_in_bounds(x, y) && g_new.spec_cell(x, y) != i32::MAX && !closed.spec_cell(x, y)
            && None::<(int, int)> != Some((x, y)) implies exists|j: int|
        0 <= j < open_after.len() && #[trigger] open_after[j].0 == x && open_after[j].1 == y by {
        if x == n.0 && y == n.1 {
            assert(open_after[open_before.len() as int].0 == x);
        } else {
            assert(g_new.spec_cell(x, y) == g_old.spec_cell(x, y));
            assert(g_old.spec_cell(x, y) != i32::MAX);
            let j = choose|j: int|
                0 <= j < open_before.len() && #[trigger] open_before[j].0 == x && open_before[j].1
                    == y;
            assert(open_after[j] == open_before[j]);
        }
    }
    assert forall|j: int| 0 <= j < open_after.len() implies grid.spec_in_bounds(
        #[trigger] open_after[j].0 as int,
        open_after[j].1 as int,
    ) && g_new.spec_cell(open_after[j].0 as int, open_after[j].1 as int) != i32::MAX by {
        if j < open_before.len() {
            assert(open_after[j] == open_before[j]);
            let e = open_before[j];
            assert(grid.spec_in_bounds(e.0 as int, e.1 as int));
            assert(g_old.spec_cell(e.0 as int, e.1 as int) != i32::MAX);
            if !(e.0 == n.0 && e.1 == n.1) {
                assert(g_new.spec_cell(e.0 as int, e.1 as int) == g_old.spec_cell(
                    e.0 as int,
                    e.1 as int,
                ));
            }
        }
    }
    assert forall|x: int, y: int, a: int, b: int|
        #![trigger closed.spec_cell(x, y), g_new.spec_cell(a, b)]
        grid.spec_in_bounds(x, y) && closed.spec_cell(x, y) && Some(c) != Some((x, y))
            && grid.spec_in_bounds(a, b) && abs_int(x - a) + abs_int(y - b) == 1
            && !grid.spec_cell(a, b).spec_is_blocked() implies g_new.spec_cell(a, b)
        != i32::MAX by {
        assert(g_old.spec_cell(a, b) != i32::MAX);
        if !(a == n.0 && b == n.1) {
            assert(g_new.spec_cell(a, b) == g_old.spec_cell(a, b));
        }
    }
}

/// The estimate of the steps left from `(x, y)` to `goal`: their Manhattan distance.
pub open spec fn heur(goal: Pos, x: int, y: int) -> int {
    abs_int(x - goal.0.0) + abs_int(y - goal.0.1)
}

/// No walk from `start` to `p` takes fewer than `d` steps.
pub open spec fn no_shorter<T: PassableCell>(grid: GridWorld<T>, start: Pos, p: Pos, d: int) -> bool {
    forall|path: Seq<Pos>|
        #[trigger] is_path(&grid, path) && path[0] == start && path.last() == p ==> d <= path.len() - 1
}

/// Every closed cell has a score no walk from `start` beats.
#[verifier::opaque]
spec fn inv_opt<T: PassableCell>(
    g: GridWorld<i32>,
    grid: GridWorld<T>,
    start: Pos,
    closed: GridWorld<bool>,
) -> bool {
    forall|x: int, y: int|
        #![trigger closed.spec_cell(x, y)]
        grid.spec_in_bounds(x, y) && closed.spec_cell(x, y) ==> no_shorter(
            grid,
            start,
            coord_pos(x, y),
            g.spec_cell(x, y) as int,
        )
}

/// Every open, unblocked neighbour of a closed cell (but `except`) scores at most one more.
#[verifier::opaque]
spec fn inv_step<T: PassableCell>(
    g: GridWorld<i32>,
    grid: GridWorld<T>,
    closed: GridWorld<bool>,
    except: Option<(int, int)>,
) -> bool {
    forall|x: int, y: int, a: int, b: int|
        #![trigger closed.spec_cell(x, y), g.spec_cell(a, b)]
        grid.spec_in_bounds(x, y) && closed.spec_cell(x, y) && except != Some((x, y))
            && grid.spec_in_bounds(a, b) && abs_int(x - a) + abs_int(y - b) == 1
            && !grid.spec_cell(a, b).spec_is_blocked() && !closed.spec_cell(a, b) ==> g.spec_cell(a, b)
            <= g.spec_cell(x, y) + 1
}

/// Every open cell with a score (but `skip`) has an entry that carries its current score plus
/// its estimate.
#[verifier::opaque]
spec fn inv_fresh<T: PassableCell>(
    g: GridWorld<i32>,
    grid: GridWorld<T>,
    goal: Pos,
    closed: GridWorld<bool>,
    open: Seq<(usize, usize, i32)>,
    skip: Option<(int, int)>,
) -> bool {
    forall|x: int, y: int|
        #![trigger g.spec_cell(x, y)]
        grid.spec_in_bounds(x, y) && g.spec_cell(x, y) != i32::MAX && !closed.spec_cell(x, y)
            && skip != Some((x, y)) ==> exists|j: int|
            0 <= j < open.len() && #[trigger] open[j].0 == x && open[j].1 == y && open[j].2
                == g.spec_cell(x, y) + heur(goal, x, y)
}

/// No entry promises less than its cell's current score plus estimate.
#[verifier::opaque]
spec fn inv_stale(g: GridWorld<i32>, goal: Pos, open: Seq<(usize, usize, i32)>) -> bool {
    forall|j: int|
        0 <= j < open.len() ==> #[trigger] open[j].2 >= g.spec_cell(open[j].0 as int, open[j].1 as int)
            + heur(goal, open[j].0 as int, open[j].1 as int)
}

/// What makes the search find a shortest walk.
spec fn astar_ok<T: PassableCell>(
    g: GridWorld<i32>,
    grid: GridWorld<T>,
    start: Pos,
    goal: Pos,
    closed: GridWorld<bool>,
    open: Seq<(usize, usize, i32)>,
    except: Option<(int, int)>,
) -> bool {
    &&& inv_opt(g, grid, start, closed)
    &&& inv_step(g, grid, closed, except)
    &&& inv_fresh(g, grid, goal, closed, open, None)
    &&& inv_stale(g, goal, open)
}

/// A walk takes at least as many steps as the Manhattan distance it covers.
pub(crate) proof fn lemma_walk_dist<T: PassableCell>(grid: GridWorld<T>, path: Seq<Pos>, i: int, j: int)
    requires
        is_path(&grid, path),
        0 <= i <= j < path.len(),
    ensures
        pos_dist(path[i], path[j]) <= j - i,
    decreases j - i,
{
    if i < j {
        lemma_walk_dist(grid, path, i, j - 1);
        assert(pos_dist(path[j - 1], path[j]) == 1);
    }
}

/// The first cell of `path` that is not closed, given that cell `n` is not.
proof fn lemma_first_open(closed: GridWorld<bool>, path: Seq<Pos>, n: int) -> (i: int)
    requires
        0 <= n < path.len(),
        !closed.spec_at(path[n]),
    ensures
        0 <= i <= n,
        !closed.spec_at(path[i]),
        forall|m: int| 0 <= m < i ==> #[trigger] closed.spec_at(path[m]),
    decreases n,
{
    if forall|m: int| 0 <= m < n ==> #[trigger] closed.spec_at(path[m]) {
        n
    } else {
        let m = choose|m: int| 0 <= m < n && !#[trigger] closed.spec_at(path[m]);
        lemma_first_open(closed, path, m)
    }
}

/// The first open cell on a walk from `start` has a score no more than its index.
proof fn lemma_prefix_bound<T: PassableCell>(
    g: GridWorld<i32>,
    came: GridWorld<Option<(usize, usize)>>,
    grid: GridWorld<T>,
    start: Pos,
    goal: Pos,
    use_adjacent: bool,
    closed: GridWorld<bool>,
    count: nat,
    open: Seq<(usize, usize, i32)>,
    path: Seq<Pos>,
    i: int,
)
    requires
        search_ok(g, came, grid, start, goal, use_adjacent, closed, count, open, None),
        astar_ok(g, grid, start, goal, closed, open, None),
        is_path(&grid, path),
        path[0] == start,
        0 <= i < path.len(),
        forall|m: int| 0 <= m < i ==> #[trigger] closed.spec_at(path[m]),
        !closed.spec_at(path[i]),
    ensures
        g.spec_at(path[i]) != i32::MAX,
        g.spec_at(path[i]) <= i,
{
    if i > 0 {
        reveal(inv_opt);
        reveal(inv_step);
        reveal(inv_nbrs);
        reveal(inv_closed);
        let q = path[i - 1];
        let p = path[i];
        assert(closed.spec_at(path[i - 1]));
        assert(grid.spec_contains(q));
        assert(grid.spec_contains(p));
        assert(coord_pos(q.0.0 as int, q.0.1 as int) == q);
        assert(no_shorter(grid, start, q, g.spec_at(q) as int));
        let pre = path.take(i);
        assert(is_path(&grid, pre)) by {
            assert forall|m: int| 0 <= m < pre.len() implies grid.spec_contains(#[trigger] pre[m]) by {
                assert(pre[m] == path[m]);
            }
            assert forall|m: int| 1 <= m < pre.len() implies !(#[trigger] grid.spec_at(
                pre[m],
            )).spec_is_blocked() by {
                assert(pre[m] == path[m]);
            }
            assert forall|m: int| 0 <= m < pre.len() - 1 implies pos_dist(
                #[trigger] pre[m],
                pre[m + 1],
            ) == 1 by {
                assert(pre[m] == path[m]);
                assert(pre[m + 1] == path[m + 1]);
            }
        }
        assert(pre.last() == q);
        assert(g.spec_at(q) <= i - 1);
        assert(pos_dist(path[i - 1], path[i]) == 1);
        assert(!grid.spec_at(path[i]).spec_is_blocked());
        assert(g.spec_cell(q.0.0 as int, q.0.1 as int) != i32::MAX);
        assert(g.spec_cell(p.0.0 as int, p.0.1 as int) <= g.spec_cell(q.0.0 as int, q.0.1 as int) + 1);
        assert(g.spec_cell(p.0.0 as int, p.0.1 as int) != i32::MAX);
    }
}

/// The entry with the smallest promise bounds its cell's score: for any walk from `start` that
/// ends on an open cell, the cell's score plus estimate is no more than the walk's steps plus
/// the estimate at its end.
proof fn lemma_pop_bound<T: PassableCell>(
    g: GridWorld<i32>,
    came: GridWorld<Option<(usize, usize)>>,
    grid: GridWorld<T>,
    start: Pos,
    goal: Pos,
    use_adjacent: bool,
    closed: GridWorld<bool>,
    count: nat,
    open: Seq<(usize, usize, i32)>,
    k: int,
    path: Seq<Pos>,
)
    requires
        search_ok(g, came, grid, start, goal, use_adjacent, closed, count, open, None),
        astar_ok(g, grid, start, goal, closed, open, None),
        0 <= k < open.len(),
        forall|j: int| 0 <= j < open.len() ==> open[k].2 <= #[trigger] open[j].2,
        is_path(&grid, path),
        path[0] == start,
        !closed.spec_at(path.last()),
    ensures
        g.spec_cell(open[k].0 as int, open[k].1 as int) + heur(goal, open[k].0 as int, open[k].1 as int)
            <= path.len() - 1 + pos_dist(path.last(), goal),
{
    let n = path.len() - 1;
    let i = lemma_first_open(closed, path, n);
    lemma_prefix_bound(g, came, grid, start, goal, use_adjacent, closed, count, open, path, i);
    let p = path[i];
    assert(grid.spec_contains(p));
    reveal(inv_fresh);
    reveal(inv_stale);
    assert(g.spec_cell(p.0.0 as int, p.0.1 as int) != i32::MAX);
    let j = choose|j: int|
        0 <= j < open.len() && #[trigger] open[j].0 == p.0.0 as int && open[j].1 == p.0.1 as int
            && open[j].2 == g.spec_cell(p.0.0 as int, p.0.1 as int) + heur(goal, p.0.0 as int, p.0.1 as int);
    assert(open[k].2 <= open[j].2);
    lemma_walk_dist(grid, path, i, n);
    assert(open[k].2 >= g.spec_cell(open[k].0 as int, open[k].1 as int) + heur(
        goal,
        open[k].0 as int,
        open[k].1 as int,
    ));
}

/// Taking entry `k` out: every open cell but the taken one keeps a fresh entry, and no entry
/// promises too little.
proof fn lemma_remove_fresh<T: PassableCell>(
    g: GridWorld<i32>,
    grid: GridWorld<T>,
    goal: Pos,
    closed: GridWorld<bool>,
    before: Seq<(usize, usize, i32)>,
    k: int,
)
    requires
        0 <= k < before.len(),
        inv_fresh(g, grid, goal, closed, before, None),
        inv_stale(g, goal, before),
    ensures
        inv_fresh(g, grid, goal, closed, before.remove(k), Some((before[k].0 as int, before[k].1 as int))),
        inv_stale(g, goal, before.remove(k)),
{
    reveal(inv_fresh);
    reveal(inv_stale);
    let after = before.remove(k);
    let c = (before[k].0 as int, before[k].1 as int);
    assert forall|x: int, y: int|
        #![trigger g.spec_cell(x, y)]
        grid.spec_in_bounds(x, y) && g.spec_cell(x, y) != i32::MAX && !closed.spec_cell(x, y)
            && Some(c) != Some((x, y)) implies exists|j: int|
        0 <= j < after.len() && #[trigger] after[j].0 == x && after[j].1 == y && after[j].2
            == g.spec_cell(x, y) + heur(goal, x, y) by {
        let j = choose|j: int|
            0 <= j < before.len() && #[trigger] before[j].0 == x && before[j].1 == y && before[j].2
                == g.spec_cell(x, y) + heur(goal, x, y);
        if j < k {
            assert(after[j] == before[j]);
        } else {
            assert(j != k);
            assert(after[j - 1] == before[j]);
        }
    }
    assert forall|j: int| 0 <= j < after.len() implies #[trigger] after[j].2 >= g.spec_cell(
        after[j].0 as int,
        after[j].1 as int,
    ) + heur(goal, after[j].0 as int, after[j].1 as int) by {
        if j < k {
            assert(after[j] == before[j]);
        } else {
            assert(after[j] == before[j + 1]);
        }
    }
}

/// A taken entry whose cell is already closed needs no fresh entry of its own.
proof fn lemma_skip_fresh<T: PassableCell>(
    g: GridWorld<i32>,
    grid: GridWorld<T>,
    goal: Pos,
    closed: GridWorld<bool>,
    open: Seq<(usize, usize, i32)>,
    c: (int, int),
)
    requires
        inv_fresh(g, grid, goal, closed, open, Some(c)),
        closed.spec_cell(c.0, c.1),
    ensures
        inv_fresh(g, grid, goal, closed, open, None),
{
    reveal(inv_fresh);
}

/// Closing cell `c`, whose score no walk beats, keeps the search's promises with `c`'s
/// neighbours still to examine.
proof fn lemma_close_astar<T: PassableCell>(
    g: GridWorld<i32>,
    grid: GridWorld<T>,
    start: Pos,
    goal: Pos,
    closed_old: GridWorld<bool>,
    closed_new: GridWorld<bool>,
    open: Seq<(usize, usize, i32)>,
    c: (int, int),
)
    requires
        grid.spec_in_bounds(c.0, c.1),
        closed_new.spec_updated(&closed_old, c.0, c.1, true),
        closed_old.spec_width() == grid.spec_width(),
        closed_old.spec_height() == grid.spec_height(),
        no_shorter(grid, start, coord_pos(c.0, c.1), g.spec_cell(c.0, c.1) as int),
        inv_opt(g, grid, start, closed_old),
        inv_step(g, grid, closed_old, None),
        inv_fresh(g, grid, goal, closed_old, open, Some(c)),
    ensures
        inv_opt(g, grid, start, closed_new),
        inv_step(g, grid, closed_new, Some(c)),
        inv_fresh(g, grid, goal, closed_new, open, None),
{
    reveal(inv_opt);
    reveal(inv_step);
    reveal(inv_fresh);
    assert forall|x: int, y: int|
        #![trigger closed_new.spec_cell(x, y)]
        grid.spec_in_bounds(x, y) && closed_new.spec_cell(x, y) implies no_shorter(
        grid,
        start,
        coord_pos(x, y),
        g.spec_cell(x, y) as int,
    ) by {
        if !(x == c.0 && y == c.1) {
            assert(closed_old.spec_cell(x, y));
        }
    }
    assert forall|x: int, y: int, a: int, b: int|
        #![trigger closed_new.spec_cell(x, y), g.spec_cell(a, b)]
        grid.spec_in_bounds(x, y) && closed_new.spec_cell(x, y) && Some(c) != Some((x, y))
            && grid.spec_in_bounds(a, b) && abs_int(x - a) + abs_int(y - b) == 1
            && !grid.spec_cell(a, b).spec_is_blocked() && !closed_new.spec_cell(a, b) implies g.spec_cell(a, b)
        <= g.spec_cell(x, y) + 1 by {
        assert(closed_old.spec_cell(x, y));
        assert(!(a == c.0 && b == c.1));
        assert(!closed_old.spec_cell(a, b));
    }
    assert forall|x: int, y: int|
        #![trigger g.spec_cell(x, y)]
        grid.spec_in_bounds(x, y) && g.spec_cell(x, y) != i32::MAX && !closed_new.spec_cell(x, y)
            && None::<(int, int)> != Some((x, y)) implies exists|j: int|
        0 <= j < open.len() && #[trigger] open[j].0 == x && open[j].1 == y && open[j].2
            == g.spec_cell(x, y) + heur(goal, x, y) by {
        assert(!(x == c.0 && y == c.1));
        assert(!closed_old.spec_cell(x, y));
    }
}

/// A search step that lowers the score of neighbour `n` of `c` and adds its entry keeps the
/// search's promises.
#[verifier::rlimit(30)]
proof fn lemma_update_astar<T: PassableCell>(
    g_old: GridWorld<i32>,
    g_new: GridWorld<i32>,
    came_old: GridWorld<Option<(usize, usize)>>,
    came_new: GridWorld<Option<(usize, usize)>>,
    grid: GridWorld<T>,
    start: Pos,
    goal: Pos,
    closed: GridWorld<bool>,
    count: nat,
    open_before: Seq<(usize, usize, i32)>,
    open_after: Seq<(usize, usize, i32)>,
    c: (int, int),
    n: (int, int),
)
    requires
        step_update(g_old, g_new, came_old, came_new, grid, closed, count, c, n),
        astar_ok(g_old, grid, start, goal, closed, open_before, Some(c)),
        inv_entries(g_old, grid, open_before),
        open_after == open_before.push((n.0 as usize, n.1 as usize, open_after.last().2)),
        open_after.last().2 == g_new.spec_cell(n.0, n.1) + heur(goal, n.0, n.1),
    ensures
        astar_ok(g_new, grid, start, goal, closed, open_after, Some(c)),
{
    reveal(inv_opt);
    reveal(inv_step);
    reveal(inv_fresh);
    reveal(inv_stale);
    reveal(inv_entries);
    assert forall|x: int, y: int|
        #![trigger closed.spec_cell(x, y)]
        grid.spec_in_bounds(x, y) && closed.spec_cell(x, y) implies no_shorter(
        grid,
        start,
        coord_pos(x, y),
        g_new.spec_cell(x, y) as int,
    ) by {
        assert(!(x == n.0 && y == n.1));
        assert(g_new.spec_cell(x, y) == g_old.spec_cell(x, y));
    }
    assert forall|x: int, y: int, a: int, b: int|
        #![trigger closed.spec_cell(x, y), g_new.spec_cell(a, b)]
        grid.spec_in_bounds(x, y) && closed.spec_cell(x, y) && Some(c) != Some((x, y))
            && grid.spec_in_bounds(a, b) && abs_int(x - a) + abs_int(y - b) == 1
            && !grid.spec_cell(a, b).spec_is_blocked() && !closed.spec_cell(a, b) implies g_new.spec_cell(a, b)
        <= g_new.spec_cell(x, y) + 1 by {
        assert(!(x == n.0 && y == n.1));
        assert(g_new.spec_cell(x, y) == g_old.spec_cell(x, y));
        assert(g_old.spec_cell(a, b) <= g_old.spec_cell(x, y) + 1);
        if !(a == n.0 && b == n.1) {
            assert(g_new.spec_cell(a, b) == g_old.spec_cell(a, b));
        }
    }
    assert forall|x: int, y: int|
        #![trigger g_new.spec_cell(x, y)]
        grid.spec_in_bounds(x, y) && g_new.spec_cell(x, y) != i32::MAX && !closed.spec_cell(x, y)
            && None::<(int, int)> != Some((x, y)) implies exists|j: int|
        0 <= j < open_after.len() && #[trigger] open_after[j].0 == x && open_after[j].1 == y
            && open_after[j].2 == g_new.spec_cell(x, y) + heur(goal, x, y) by {
        if x == n.0 && y == n.1 {
            assert(open_after[open_before.len() as int].0 == x);
        } else {
            assert(g_new.spec_cell(x, y) == g_old.spec_cell(x, y));
            assert(g_old.spec_cell(x, y) != i32::MAX);
            let j = choose|j: int|
                0 <= j < open_before.len() && #[trigger] open_before[j].0 == x && open_before[j].1 == y
                    && open_before[j].2 == g_old.spec_cell(x, y) + heur(goal, x, y);
            assert(open_after[j] == open_before[j]);
        }
    }
    assert forall|j: int| 0 <= j < open_after.len() implies #[trigger] open_after[j].2 >= g_new.spec_cell(
        open_after[j].0 as int,
        open_after[j].1 as int,
    ) + heur(goal, open_after[j].0 as int, open_after[j].1 as int) by {
        if j < open_before.len() {
            assert(open_after[j] == open_before[j]);
            let e = open_before[j];
            assert(grid.spec_in_bounds(e.0 as int, e.1 as int));
            assert(e.2 >= g_old.spec_cell(e.0 as int, e.1 as int) + heur(goal, e.0 as int, e.1 as int));
            if !(e.0 == n.0 && e.1 == n.1) {
                assert(g_new.spec_cell(e.0 as int, e.1 as int) == g_old.spec_cell(e.0 as int, e.1 as int));
            }
        }
    }
}

/// After every neighbour of `c` has been examined, `c` needs no exception.
proof fn lemma_finish_astar<T: PassableCell>(
    g: GridWorld<i32>,
    grid: GridWorld<T>,
    closed: GridWorld<bool>,
    c: (int, int),
    coords: Seq<(int, int)>,
)
    requires
        inv_step(g, grid, closed, Some(c)),
        forall|a: int, b: int|
            grid.spec_in_bounds(a, b) && abs_int(a - c.0) + abs_int(b - c.1) <= 1
                ==> #[trigger] coords.contains((a, b)),
        forall|j: int|
            0 <= j < coords.len() ==> {
                let p = #[trigger] coords[j];
                !grid.spec_cell(p.0, p.1).spec_is_blocked() && !closed.spec_cell(p.0, p.1)
                    ==> g.spec_cell(p.0, p.1) <= g.spec_cell(c.0, c.1) + 1
            },
    ensures
        inv_step(g, grid, closed, None),
{
    reveal(inv_step);
    assert forall|x: int, y: int, a: int, b: int|
        #![trigger closed.spec_cell(x, y), g.spec_cell(a, b)]
        grid.spec_in_bounds(x, y) && closed.spec_cell(x, y) && None::<(int, int)> != Some((x, y))
            && grid.spec_in_bounds(a, b) && abs_int(x - a) + abs_int(y - b) == 1
            && !grid.spec_cell(a, b).spec_is_blocked() && !closed.spec_cell(a, b) implies g.spec_cell(a, b)
        <= g.spec_cell(x, y) + 1 by {
        if x == c.0 && y == c.1 {
            assert(abs_int(a - c.0) + abs_int(b - c.1) <= 1);
            assert(coords.contains((a, b)));
            let j = choose|j: int| 0 <= j < coords.len() && coords[j] == (a, b);
            assert(coords[j] == (a, b));
        }
    }
}

/// The index of an entry with the smallest score (the first such).
fn min_entry(open: &Vec<(usize, usize, i32)>) -> (k: usize)
    requires
        open.len() > 0,
    ensures
        k < open.len(),
        forall|j: int| 0 <= j < open.len() ==> open@[k as int].2 <= #[trigger] open@[j].2,
{
    let mut k: usize = 0;
    let mut j: usize = 1;
    while j < open.len()
        invariant
            0 < j <= open.len(),
            k < j,
            forall|i: int| 0 <= i < j ==> open@[k as int].2 <= #[trigger] open@[i].2,
        decreases open.len() - j,
    {
        if open[j].2 < open[k].2 {
            k = j;
        }
        j = j + 1;
    }
    k
}

impl PathFinder {
    /// A* search from `start` towards `goal` over cells that are not blocked (the start cell
    /// may be). With `use_adjacent`, a cell next to `goal` also ends the search.
    /// Returns the walk from `start`, or `None` when no walk reaches an accepted cell. No
    /// accepted walk has fewer steps plus Manhattan distance left to `goal`: without
    /// `use_adjacent` the walk is a shortest one.
    pub fn find_path<T: PassableCell>(
        &mut self,
        grid: &GridWorld<T>,
        start: Pos,
        goal: Pos,
        use_adjacent: bool,
    ) -> (r: Option<Vec<Pos>>)
        requires
            old(self).wf(),
            old(self).spec_width() >= grid.spec_width(),
            old(self).spec_height() >= grid.spec_height(),
            grid.spec_contains(start),
            grid.spec_width() * grid.spec_height() + grid.spec_width() + grid.spec_height()
                + goal.0.0 + goal.0.1 <= i32::MAX,
        ensures
            final(self).spec_width() == old(self).spec_width(),
            final(self).spec_height() == old(self).spec_height(),
            final(self).wf(),
            r matches Some(path) ==> is_path(grid, path@) && path@[0] == start && accepts(
                goal,
                use_adjacent,
                path@.last(),
            ),
            r matches Some(path) ==> forall|p: Seq<Pos>|
                #[trigger] is_path(grid, p) && p[0] == start && accepts(goal, use_adjacent, p.last())
                    ==> path@.len() + pos_dist(path@.last(), goal) <= p.len() + pos_dist(p.last(), goal),
            r is None ==> forall|path: Seq<Pos>|
                is_path(grid, path) && path[0] == start ==> !accepts(
                    goal,
                    use_adjacent,
                    #[trigger] path.last(),
                ),
    {
        let gw = grid.width();
        let gh = grid.height();
        let start_t = start.0;
        let goal_t = goal.0;
        // Reset pathfinding data
        self.f_scores = GridWorld::new(self.width, self.height, i32::MAX);
        self.g_scores = GridWorld::new(self.width, self.height, i32::MAX);
        self.came_from = GridWorld::new(self.width, self.height, None);
        let mut closed: GridWorld<bool> = GridWorld::new(gw, gh, false);
        let mut closed_count: usize = 0;
        let mut open_set: Vec<(usize, usize, i32)> = Vec::new();
        proof {
            use_type_invariant(&closed);
            lemma_count_zero(closed.cells@);
            assert(closed.marked() == 0);
        }
        // Initialize start node
        self.g_scores.set_tuple(start_t.0, start_t.1, 0);
        let h0 = Self::manhattan_distance(start_t, goal_t);
        self.f_scores.set_tuple(start_t.0, start_t.1, h0);
        open_set.push((start_t.0, start_t.1, h0));
        proof {
            assert(open_set@[0].0 == start.0.0 && open_set@[0].1 == start.0.1);
            reveal(inv_bound);
            reveal(inv_closed);
            reveal(inv_cover);
            reveal(inv_entries);
            reveal(inv_nbrs);
            assert(inv_cover(self.g_scores, *grid, closed, open_set@, None)) by {
                assert forall|x: int, y: int|
                    #![trigger self.g_scores.spec_cell(x, y)]
                    grid.spec_in_bounds(x, y) && self.g_scores.spec_cell(x, y) != i32::MAX
                        && !closed.spec_cell(x, y) && None::<(int, int)> != Some((x, y)) implies exists|
                    j: int,
                |
                    0 <= j < open_set@.len() && #[trigger] open_set@[j].0 == x && open_set@[j].1
                        == y by {
                    assert(x == start.0.0 && y == start.0.1);
                    assert(open_set@[0].0 == x);
                }
            }
        }
        proof {
            reveal(inv_opt);
            reveal(inv_step);
            reveal(inv_fresh);
            reveal(inv_stale);
            assert(open_set@[0] == (start.0.0, start.0.1, h0));
            assert(inv_fresh(self.g_scores, *grid, goal, closed, open_set@, None)) by {
                assert forall|x: int, y: int|
                    #![trigger self.g_scores.spec_cell(x, y)]
                    grid.spec_in_bounds(x, y) && self.g_scores.spec_cell(x, y) != i32::MAX
                        && !closed.spec_cell(x, y) && None::<(int, int)> != Some((x, y)) implies exists|
                    j: int,
                |
                    0 <= j < open_set@.len() && #[trigger] open_set@[j].0 == x && open_set@[j].1 == y
                        && open_set@[j].2 == self.g_scores.spec_cell(x, y) + heur(goal, x, y) by {
                    assert(x == start.0.0 && y == start.0.1);
                    assert(open_set@[0].0 == x);
                }
            }
        }
        while open_set.len() > 0
            invariant
                gw == grid.spec_width(),
                gh == grid.spec_height(),
                self.wf(),
                self.spec_width() == old(self).spec_width(),
                self.spec_height() == old(self).spec_height(),
                self.g_scores.spec_width() == self.spec_width(),
                self.g_scores.spec_height() == self.spec_height(),
                self.f_scores.spec_width() == self.spec_width(),
                self.f_scores.spec_height() == self.spec_height(),
                self.spec_width() >= gw,
                self.spec_height() >= gh,
                grid.spec_contains(start),
                start_t == start.0,
                goal_t == goal.0,
                gw * gh + gw + gh + goal.0.0 + goal.0.1 <= i32::MAX,
                search_ok(
                    self.g_scores,
                    self.came_from,
                    *grid,
                    start,
                    goal,
                    use_adjacent,
                    closed,
                    closed_count as nat,
                    open_set@,
                    None,
                ),
                astar_ok(self.g_scores, *grid, start, goal, closed, open_set@, None),
            decreases gw * gh - closed_count, open_set.len(),
        {
            let ghost before = open_set@;
            let k = min_entry(&open_set);
            proof {
                lemma_remove_entry(self.g_scores, *grid, closed, before, k as int);
                lemma_remove_fresh(self.g_scores, *grid, goal, closed, before, k as int);
            }
            let entry = open_set.remove(k);
            let cx = entry.0;
            let cy = entry.1;
            let current = Pos((cx, cy));
            let ghost c = (cx as int, cy as int);
            if (use_adjacent && current.is_adjacent(&goal)) || current == goal {
                let path = self.reconstruct_path(grid, start, (cx, cy));
                proof {
                    reveal(inv_closed);
                    assert forall|p: Seq<Pos>|
                        #[trigger] is_path(grid, p) && p[0] == start && accepts(goal, use_adjacent, p.last())
                            implies path@.len() + pos_dist(path@.last(), goal) <= p.len() + pos_dist(
                        p.last(),
                        goal,
                    ) by {
                        let l = p.last();
                        assert(grid.spec_contains(p[p.len() - 1]));
                        assert(coord_pos(l.0.0 as int, l.0.1 as int) == l);
                        assert(!closed.spec_cell(l.0.0 as int, l.0.1 as int));
                        lemma_pop_bound(
                            self.g_scores,
                            self.came_from,
                            *grid,
                            start,
                            goal,
                            use_adjacent,
                            closed,
                            closed_count as nat,
                            before,
                            k as int,
                            p,
                        );
                    }
                }
                return Some(path);
            }
            if *closed.get_tuple(cx, cy) {
                proof {
                    lemma_skip_closed(self.g_scores, *grid, closed, open_set@, c);
                    lemma_skip_fresh(self.g_scores, *grid, goal, closed, open_set@, c);
                }
                continue;
            }
            proof {
                assert forall|p: Seq<Pos>|
                    #[trigger] is_path(grid, p) && p[0] == start && p.last() == coord_pos(cx as int, cy as int)
                        implies self.g_scores.spec_cell(cx as int, cy as int) <= p.len() - 1 by {
                    assert(coord_pos(cx as int, cy as int) == current);
                    lemma_pop_bound(
                        self.g_scores,
                        self.came_from,
                        *grid,
                        start,
                        goal,
                        use_adjacent,
                        closed,
                        closed_count as nat,
                        before,
                        k as int,
                        p,
                    );
                }
                assert(no_shorter(
                    *grid,
                    start,
                    coord_pos(cx as int, cy as int),
                    self.g_scores.spec_cell(cx as int, cy as int) as int,
                ));
            }
            let ghost closed_old = closed;
            proof {
                use_type_invariant(&closed);
                lemma_cell_index(cx as int, cy as int, gw as int, gh as int);
                lemma_count_true_set(closed.cells@, cell_index(cx as int, cy as int, gh as int));
            }
            closed.mark(cx, cy);
            proof {
                use_type_invariant(&closed);
                lemma_count_true_le(closed.cells@);
                assert(coord_pos(cx as int, cy as int) == current);
                lemma_close(
                    self.g_scores,
                    *grid,
                    goal,
                    use_adjacent,
                    closed_old,
                    closed,
                    open_set@,
                    closed_count as nat,
                    c,
                );
                lemma_close_astar(self.g_scores, *grid, start, goal, closed_old, closed, open_set@, c);
                reveal(inv_bound);
            }
            closed_count = closed_count + 1;
            let neighbors = grid.nearby(current, 1);
            let ghost coords = grid.spec_nearby(current, 1);
            proof {
                lemma_nearby_coords(gw as int, gh as int, cx as int, cy as int, 1);
            }
            let g_cur = *self.g_scores.get_tuple(cx, cy);
            let n = neighbors.len();
            let mut i: usize = 0;
            while i < n
                invariant
                    gw == grid.spec_width(),
                    gh == grid.spec_height(),
                    self.wf(),
                    self.spec_width() == old(self).spec_width(),
                    self.spec_height() == old(self).spec_height(),
                    self.g_scores.spec_width() == self.spec_width(),
                    self.g_scores.spec_height() == self.spec_height(),
                    self.f_scores.spec_width() == self.spec_width(),
                    self.f_scores.spec_height() == self.spec_height(),
                    self.spec_width() >= gw,
                    self.spec_height() >= gh,
                    grid.spec_contains(start),
                    goal_t == goal.0,
                    gw * gh + gw + gh + goal.0.0 + goal.0.1 <= i32::MAX,
                    0 <= i <= n,
                    n == neighbors.len(),
                    coords == grid.spec_nearby(current, 1),
                    grid.lists(neighbors@, coords),
                    grid.spec_in_bounds(cx as int, cy as int),
                    c == (cx as int, cy as int),
                    current == Pos((cx, cy)),
                    closed.spec_cell(cx as int, cy as int),
                    g_cur == self.g_scores.spec_cell(cx as int, cy as int),
                    g_cur != i32::MAX,
                    g_cur + 1 <= closed_count,
                    closed_count <= gw * gh,
                    forall|j: int|
                        0 <= j < coords.len() ==> {
                            let p = #[trigger] coords[j];
                            &&& 0 <= p.0 < gw
                            &&& 0 <= p.1 < gh
                            &&& abs_int(p.0 - cx) + abs_int(p.1 - cy) <= 1
                        },
                    forall|a: int, b: int|
                        0 <= a < gw && 0 <= b < gh && abs_int(a - cx) + abs_int(b - cy) <= 1
                            ==> #[trigger] coords.contains((a, b)),
                    forall|j: int|
                        0 <= j < i ==> {
                            let p = #[trigger] coords[j];
                            !grid.spec_cell(p.0, p.1).spec_is_blocked()
                                ==> self.g_scores.spec_cell(p.0, p.1) != i32::MAX
                        },
                    forall|j: int|
                        0 <= j < i ==> {
                            let p = #[trigger] coords[j];
                            !grid.spec_cell(p.0, p.1).spec_is_blocked() && !closed.spec_cell(p.0, p.1)
                                ==> self.g_scores.spec_cell(p.0, p.1) <= g_cur + 1
                        },
                    astar_ok(self.g_scores, *grid, start, goal, closed, open_set@, Some(c)),
                    search_ok(
                        self.g_scores,
                        self.came_from,
                        *grid,
                        start,
                        goal,
                        use_adjacent,
                        closed,
                        closed_count as nat,
                        open_set@,
                        Some(c),
                    ),
                decreases n - i,
            {
                let (pos, state) = neighbors[i];
                let nx = pos.0.0;
                let ny = pos.0.1;
                proof {
                    assert(neighbors@[i as int] == (pos, state));
                    assert(nx == coords[i as int].0 && ny == coords[i as int].1);
                }
                if state.is_blocked() || *closed.get_tuple(nx, ny) {
                    proof {
                        reveal(inv_closed);
                    }
                    i = i + 1;
                    continue;
                }
                let tentative_g_score = g_cur + 1;
                if tentative_g_score < *self.g_scores.get_tuple(nx, ny) {
                    let ghost old_g = self.g_scores;
                    let ghost old_came = self.came_from;
                    self.came_from.set_tuple(nx, ny, Some((cx, cy)));
                    self.g_scores.set_tuple(nx, ny, tentative_g_score);
                    let f_score = tentative_g_score + Self::manhattan_distance((nx, ny), goal_t);
                    self.f_scores.set_tuple(nx, ny, f_score);
                    let ghost open_before = open_set@;
                    open_set.push((nx, ny, f_score));
                    proof {
                        let nn = (nx as int, ny as int);
                        assert(step_update(
                            old_g,
                            self.g_scores,
                            old_came,
                            self.came_from,
                            *grid,
                            closed,
                            closed_count as nat,
                            c,
                            nn,
                        ));
                        lemma_update_chain(
                            old_g,
                            self.g_scores,
                            old_came,
                            self.came_from,
                            *grid,
                            closed,
                            closed_count as nat,
                            start,
                            c,
                            nn,
                        );
                        lemma_update_rest(
                            old_g,
                            self.g_scores,
                            old_came,
                            self.came_from,
                            *grid,
                            goal,
                            use_adjacent,
                            closed,
                            closed_count as nat,
                            open_before,
                            open_set@,
                            c,
                            nn,
                        );
                        assert forall|j: int| 0 <= j < i + 1 implies {
                            let p = #[trigger] coords[j];
                            !grid.spec_cell(p.0, p.1).spec_is_blocked()
                                ==> self.g_scores.spec_cell(p.0, p.1) != i32::MAX
                        } by {
                            let p = coords[j];
                            if !(p.0 == nx && p.1 == ny) && j < i {
                                assert(self.g_scores.spec_cell(p.0, p.1) == old_g.spec_cell(
                                    p.0,
                                    p.1,
                                ));
                            }
                        }
                        lemma_update_astar(
                            old_g,
                            self.g_scores,
                            old_came,
                            self.came_from,
                            *grid,
                            start,
                            goal,
                            closed,
                            closed_count as nat,
                            open_before,
                            open_set@,
                            c,
                            nn,
                        );
                        assert forall|j: int| 0 <= j < i + 1 implies {
                            let p = #[trigger] coords[j];
                            !grid.spec_cell(p.0, p.1).spec_is_blocked() && !closed.spec_cell(p.0, p.1)
                                ==> self.g_scores.spec_cell(p.0, p.1) <= g_cur + 1
                        } by {
                            let p = coords[j];
                            if !(p.0 == nx && p.1 == ny) && j < i {
                                assert(self.g_scores.spec_cell(p.0, p.1) == old_g.spec_cell(
                                    p.0,
                                    p.1,
                                ));
                            }
                        }
                    }
                }
                i = i + 1;
            }
            proof {
                lemma_finish_node(self.g_scores, *grid, closed, c, coords);
                lemma_finish_astar(self.g_scores, *grid, closed, c, coords);
            }
        }
        proof {
            assert forall|path: Seq<Pos>| is_path(grid, path) && path[0] == start implies !accepts(
                goal,
                use_adjacent,
                #[trigger] path.last(),
            ) by {
                lemma_exhausted(
                    self.g_scores,
                    self.came_from,
                    *grid,
                    start,
                    goal,
                    use_adjacent,
                    closed,
                    closed_count as nat,
                    path,
                );
            }
        }
        None
    }
}

impl<T: PassableCell> GridWorld<T> {
    /// A shortest walk from `start` to `goal` (see `PathFinder::find_path`).
    pub fn find_path(&self, start: Pos, goal: Pos) -> (r: Option<Vec<Pos>>)
        requires
            self.spec_contains(start),
            self.spec_width() * self.spec_height() + self.spec_width() + self.spec_height()
                + goal.0.0 + goal.0.1 <= i32::MAX,
        ensures
            r matches Some(path) ==> is_path(self, path@) && path@[0] == start && path@.last()
                == goal,
            r matches Some(path) ==> forall|p: Seq<Pos>|
                #[trigger] is_path(self, p) && p[0] == start && p.last() == goal ==> path@.len()
                    <= p.len(),
            r is None ==> forall|path: Seq<Pos>|
                is_path(self, path) && path[0] == start ==> #[trigger] path.last() != goal,
    {
        proof {
            use_type_invariant(self);
        }
        let mut finder = PathFinder::new(self.width(), self.height());
        let r = finder.find_path(self, start, goal, false);
        proof {
            if r is Some {
                let path = r->0;
                assert forall|p: Seq<Pos>|
                    #[trigger] is_path(self, p) && p[0] == start && p.last() == goal implies path@.len()
                        <= p.len() by {
                    assert(accepts(goal, false, p.last()));
                }
            }
        }
        r
    }

    /// A walk from `start` to `goal` or to a cell next to it, at most one step longer than the
    /// shortest such walk (see `PathFinder::find_path`).
    pub fn find_path_adj(&self, start: Pos, goal: Pos) -> (r: Option<Vec<Pos>>)
        requires
            self.spec_contains(start),
            self.spec_width() * self.spec_height() + self.spec_width() + self.spec_height()
                + goal.0.0 + goal.0.1 <= i32::MAX,
        ensures
            r matches Some(path) ==> is_path(self, path@) && path@[0] == start && accepts(
                goal,
                true,
                path@.last(),
            ),
            r matches Some(path) ==> forall|p: Seq<Pos>|
                #[trigger] is_path(self, p) && p[0] == start && accepts(goal, true, p.last())
                    ==> path@.len() + pos_dist(path@.last(), goal) <= p.len() + pos_dist(p.last(), goal)
                    && path@.len() <= p.len() + 1,
            r is None ==> forall|path: Seq<Pos>|
                is_path(self, path) && path[0] == start ==> !accepts(
                    goal,
                    true,
                    #[trigger] path.last(),
                ),
    {
        proof {
            use_type_invariant(self);
        }
        let mut finder = PathFinder::new(self.width(), self.height());
        finder.find_path(self, start, goal, true)
    }
}

pub proof fn lemma_count_zero(s: Seq<bool>)
    requires
        forall|i: int| 0 <= i < s.len() ==> s[i] == false,
    ensures
        count_true(s) == 0,
    decreases s.len(),
{
    if s.len() > 0 {
        lemma_count_zero(s.drop_last());
    }
}

} // verus!
