use vstd::prelude::*;
use crate::rng::SimRng;

verus! {

/// Row-major order on points: earlier row first, then earlier column.
pub open spec fn row_major_before(a: Point, b: Point) -> bool {
    a.y < b.y || (a.y == b.y && a.x < b.x)
}

/// A raw, unvalidated 2D position. Signed so that relative motions may point
/// anywhere; validation happens when a `Coord` is built from it.
#[derive(Debug, Clone, Copy, PartialEq, Eq, Structural)]
pub struct Point {
    pub x: isize,
    pub y: isize,
}

impl Point {
    /// Whether the point lies in the half-open box `[min_x, max_x) x [min_y, max_y)`.
    pub open spec fn spec_in_bounds(self, min_x: int, max_x: int, min_y: int, max_y: int) -> bool {
        min_x <= self.x < max_x && min_y <= self.y < max_y
    }

    fn in_bounds(&self, min_x: isize, max_x: isize, min_y: isize, max_y: isize) -> (r: bool)
        ensures
            r == self.spec_in_bounds(min_x as int, max_x as int, min_y as int, max_y as int),
    {
        self.x >= min_x && self.x < max_x && self.y >= min_y && self.y < max_y
    }
}

/// A grid position validated against a fixed world size. Once `wf` holds it
/// stays valid for every grid of the same dimensions.
#[derive(Debug, Clone, Copy, PartialEq, Eq, Structural)]
pub struct Coord {
    pub p: Point,
    pub world_width: isize,
    pub world_height: isize,
}

impl Coord {
    /// Validity: the position lies inside the world, and the world is small
    /// enough that every cell index fits in a `usize`.
    pub open spec fn wf(self) -> bool {
        &&& 0 < self.world_width
        &&& 0 < self.world_height
        &&& self.world_width * self.world_height <= usize::MAX as int
        &&& 0 <= self.p.x < self.world_width
        &&& 0 <= self.p.y < self.world_height
    }

    /// Row-major index of this coordinate in a dense backing store.
    pub open spec fn idx(self) -> int {
        self.p.y * self.world_width + self.p.x
    }

    /// The index of a valid coordinate lies within the cell array.
    pub proof fn lemma_idx_in_range(self)
        requires
            self.wf(),
        ensures
            0 <= self.idx() < self.world_width * self.world_height,
    {
        assert(self.p.y * self.world_width + self.p.x < self.world_width * self.world_height)
            by (nonlinear_arith)
            requires
                0 <= self.p.x < self.world_width,
                0 <= self.p.y < self.world_height,
        ;
        assert(0 <= self.p.y * self.world_width) by (nonlinear_arith)
            requires
                0 <= self.p.y,
                0 < self.world_width,
        ;
    }

    /// Two valid coordinates of one world with the same row-major index are equal.
    pub proof fn lemma_idx_injective(a: Coord, b: Coord)
        requires
            a.wf(),
            b.wf(),
            a.world_width == b.world_width,
            a.world_height == b.world_height,
            a.idx() == b.idx(),
        ensures
            a == b,
    {
        assert(a.p.y == b.p.y && a.p.x == b.p.x) by (nonlinear_arith)
            requires
                0 <= a.p.x < a.world_width,
                0 <= b.p.x < a.world_width,
                a.p.y * a.world_width + a.p.x == b.p.y * a.world_width + b.p.x,
                0 <= a.p.y,
                0 <= b.p.y,
        ;
    }

    /// The one bounds check of the system: builds a coordinate, or nothing if
    /// the point lies outside `[0, world_width) x [0, world_height)`.
    pub fn new(p: Point, world_width: isize, world_height: isize) -> (r: Option<Coord>)
        requires
            world_width * world_height <= usize::MAX as int,
        ensures
            r is Some <==> p.spec_in_bounds(0, world_width as int, 0, world_height as int),
            r is Some ==> r->0 == (Coord { p, world_width, world_height }) && r->0.wf(),
    {
        if p.in_bounds(0, world_width, 0, world_height) {
            Some(Coord { p, world_width, world_height })
        } else {
            None
        }
    }

    /// Where a relative motion `(x, y)` lands, as a mathematical point.
    pub open spec fn moved(self, x: int, y: int) -> Point {
        Point { x: (self.p.x + x) as isize, y: (self.p.y + y) as isize }
    }

    /// Whether the relative motion `(x, y)` stays inside the world.
    pub open spec fn can_move(self, x: int, y: int) -> bool {
        0 <= self.p.x + x < self.world_width && 0 <= self.p.y + y < self.world_height
    }

    /// Offsets this coordinate, or returns nothing if the result would leave
    /// the world; out-of-bounds motions are routine, not an error.
    pub fn move_by(&self, x: isize, y: isize) -> (r: Option<Coord>)
        requires
            self.wf(),
        ensures
            r is Some <==> self.can_move(x as int, y as int),
            r is Some ==> r->0 == (Coord {
                p: self.moved(x as int, y as int),
                world_width: self.world_width,
                world_height: self.world_height,
            }) && r->0.wf(),
    {
        let in_x = if x >= 0 {
            x <= self.world_width - 1 - self.p.x
        } else {
            x >= 0 - self.p.x
        };
        let in_y = if y >= 0 {
            y <= self.world_height - 1 - self.p.y
        } else {
            y >= 0 - self.p.y
        };
        if in_x && in_y {
            self.move_to(Point { x: self.p.x + x, y: self.p.y + y })
        } else {
            None
        }
    }

    fn move_to(&self, p: Point) -> (r: Option<Coord>)
        requires
            self.wf(),
        ensures
            r is Some <==> p.spec_in_bounds(0, self.world_width as int, 0, self.world_height as int),
            r is Some ==> r->0 == (Coord {
                p,
                world_width: self.world_width,
                world_height: self.world_height,
            }) && r->0.wf(),
    {
        Coord::new(p, self.world_width, self.world_height)
    }

    pub open spec fn at_bottom(self) -> bool {
        self.p.y == self.world_height - 1
    }

    /// True iff the coordinate sits on the lowest row of the world.
    pub fn is_at_bottom(&self) -> (r: bool)
        requires
            self.wf(),
        ensures
            r == self.at_bottom(),
    {
        self.p.y == self.world_height - 1
    }

    /// The valid landings of a motion list, in the list's order: each motion
    /// is applied relative to `self` and out-of-bounds results are dropped.
    pub open spec fn moves_of(self, m: Seq<(isize, isize)>) -> Seq<Coord>
        decreases m.len(),
    {
        if m.len() == 0 {
            Seq::empty()
        } else {
            let rest = self.moves_of(m.drop_first());
            if self.can_move(m[0].0 as int, m[0].1 as int) {
                seq![
                    Coord {
                        p: self.moved(m[0].0 as int, m[0].1 as int),
                        world_width: self.world_width,
                        world_height: self.world_height,
                    },
                ] + rest
            } else {
                rest
            }
        }
    }

    proof fn lemma_moves_of_push(self, m: Seq<(isize, isize)>, e: (isize, isize))
        ensures
            self.moves_of(m.push(e)) == self.moves_of(m) + (if self.can_move(
                e.0 as int,
                e.1 as int,
            ) {
                seq![
                    Coord {
                        p: self.moved(e.0 as int, e.1 as int),
                        world_width: self.world_width,
                        world_height: self.world_height,
                    },
                ]
            } else {
                Seq::empty()
            }),
        decreases m.len(),
    {
        let tail = if self.can_move(e.0 as int, e.1 as int) {
            seq![
                Coord {
                    p: self.moved(e.0 as int, e.1 as int),
                    world_width: self.world_width,
                    world_height: self.world_height,
                },
            ]
        } else {
            Seq::empty()
        };
        if m.len() == 0 {
            assert(m.push(e).drop_first() =~= m);
            assert(self.moves_of(m.push(e)) =~= self.moves_of(m) + tail);
        } else {
            assert(m.push(e).drop_first() =~= m.drop_first().push(e));
            self.lemma_moves_of_push(m.drop_first(), e);
            assert(self.moves_of(m.push(e)) =~= self.moves_of(m) + tail);
        }
    }

    /// The given relative motions in a uniformly random order, each applied
    /// through `move_by` with invalid landings filtered out: the tie-break
    /// mechanism between equally valid destinations. Exactly the landings of
    /// some reordering of `motions` are returned, in that reordering's order.
    pub fn random_neighbors(&self, motions: Vec<(isize, isize)>, rng: &mut SimRng) -> (r: Vec<
        Coord,
    >)
        requires
            self.wf(),
        ensures
            exists|m: Seq<(isize, isize)>|
                m.to_multiset() == motions@.to_multiset() && r@ == self.moves_of(m),
    {
        let mut motions = motions;
        rng.shuffle_motions(&mut motions);
        let ghost m = motions@;
        let mut r: Vec<Coord> = Vec::new();
        let mut i: usize = 0;
        while i < motions.len()
            invariant
                self.wf(),
                i <= motions@.len(),
                motions@ == m,
                r@ == self.moves_of(m.take(i as int)),
            decreases motions@.len() - i,
        {
            let (dx, dy) = motions[i];
            proof {
                self.lemma_moves_of_push(m.take(i as int), m[i as int]);
                assert(m.take(i as int).push(m[i as int]) =~= m.take(i as int + 1));
            }
            match self.move_by(dx, dy) {
                Some(c) => {
                    r.push(c);
                    proof {
                        assert(r@ =~= self.moves_of(m.take(i as int + 1)));
                    }
                },
                None => {
                    proof {
                        assert(r@ =~= self.moves_of(m.take(i as int + 1)));
                    }
                },
            }
            i = i + 1;
        }
        proof {
            assert(m.take(motions@.len() as int) =~= m);
            assert(m.to_multiset() == motions@.to_multiset() && r@ == self.moves_of(m));
        }
        r
    }

    /// Whether `q` lies in the disc brushed around `self` with the given
    /// radius: the rounded Euclidean distance is strictly below `radius`,
    /// which for integer squared distance `d2` is exactly
    /// `d2 <= radius * (radius - 1)`.
    pub open spec fn in_disc(self, q: Point, radius: int) -> bool {
        let dx = q.x - self.p.x;
        let dy = q.y - self.p.y;
        0 < radius && dx * dx + dy * dy <= radius * radius - radius
    }

    fn disc_test(&self, q: Point, radius: isize) -> (r: bool)
        requires
            self.wf(),
            0 < radius,
            2 * radius * radius <= isize::MAX as int,
            q.spec_in_bounds(0, self.world_width as int, 0, self.world_height as int),
        ensures
            r == self.in_disc(q, radius as int),
    {
        let dx = q.x - self.p.x;
        let dy = q.y - self.p.y;
        if dx >= 0 - radius && dx <= radius && dy >= 0 - radius && dy <= radius {
            proof {
                assert(0 <= dx * dx <= radius * radius && 0 <= dy * dy <= radius * radius && dx * dx
                    + dy * dy <= 2 * radius * radius && radius * radius <= 2 * radius * radius)
                    by (nonlinear_arith)
                    requires
                        -radius <= dx <= radius,
                        -radius <= dy <= radius,
                        0 < radius,
                ;
            }
            let d2 = dx * dx + dy * dy;
            d2 <= radius * radius - radius
        } else {
            proof {
                assert(dx * dx + dy * dy > radius * radius - radius) by (nonlinear_arith)
                    requires
                        0 < radius,
                        dx < -radius || dx > radius || dy < -radius || dy > radius,
                ;
            }
            false
        }
    }

    /// The bounded coordinates within a roughly circular region of the given
    /// radius around `self`, in row-major order: the brush shape for
    /// painting. The bound on `radius` is what the machine forces on the
    /// squared distances.
    pub fn neighbors(&self, radius: isize) -> (r: Vec<Coord>)
        requires
            self.wf(),
            0 < radius ==> 2 * radius * radius <= isize::MAX as int,
        ensures
            forall|k: int|
                0 <= k < r@.len() ==> {
                    let c = #[trigger] r@[k];
                    &&& c.wf()
                    &&& c.world_width == self.world_width
                    &&& c.world_height == self.world_height
                    &&& self.in_disc(c.p, radius as int)
                },
            forall|k1: int, k2: int|
                #![trigger r@[k1], r@[k2]]
                0 <= k1 < k2 < r@.len() ==> row_major_before(r@[k1].p, r@[k2].p),
            forall|q: Point|
                q.spec_in_bounds(0, self.world_width as int, 0, self.world_height as int)
                    && #[trigger] self.in_disc(q, radius as int) ==> exists|k: int|
                    0 <= k < r@.len() && (#[trigger] r@[k]).p == q,
    {
        let mut r: Vec<Coord> = Vec::new();
        if radius <= 0 {
            return r;
        }
        let w = self.world_width;
        let h = self.world_height;
        let mut j: isize = 0;
        while j < h
            invariant
                self.wf(),
                w == self.world_width,
                h == self.world_height,
                0 < radius,
                2 * radius * radius <= isize::MAX as int,
                0 <= j <= h,
                forall|k: int|
                    0 <= k < r@.len() ==> {
                        let c = #[trigger] r@[k];
                        &&& c.wf()
                        &&& c.world_width == self.world_width
                        &&& c.world_height == self.world_height
                        &&& self.in_disc(c.p, radius as int)
                        &&& row_major_before(c.p, (Point { x: 0, y: j }))
                    },
                forall|k1: int, k2: int|
                    #![trigger r@[k1], r@[k2]]
                    0 <= k1 < k2 < r@.len() ==> row_major_before(r@[k1].p, r@[k2].p),
                forall|q: Point|
                    q.spec_in_bounds(0, self.world_width as int, 0, self.world_height as int)
                        && #[trigger] self.in_disc(q, radius as int) && row_major_before(
                        q,
                        (Point { x: 0, y: j }),
                    ) ==> exists|k: int| 0 <= k < r@.len() && (#[trigger] r@[k]).p == q,
            decreases h - j,
        {
            let mut i: isize = 0;
            while i < w
                invariant
                    self.wf(),
                    w == self.world_width,
                    h == self.world_height,
                    0 < radius,
                    2 * radius * radius <= isize::MAX as int,
                    0 <= j < h,
                    0 <= i <= w,
                    forall|k: int|
                        0 <= k < r@.len() ==> {
                            let c = #[trigger] r@[k];
                            &&& c.wf()
                            &&& c.world_width == self.world_width
                            &&& c.world_height == self.world_height
                            &&& self.in_disc(c.p, radius as int)
                            &&& row_major_before(c.p, (Point { x: i, y: j }))
                        },
                    forall|k1: int, k2: int|
                        #![trigger r@[k1], r@[k2]]
                        0 <= k1 < k2 < r@.len() ==> row_major_before(r@[k1].p, r@[k2].p),
                    forall|q: Point|
                        q.spec_in_bounds(0, self.world_width as int, 0, self.world_height as int)
                            && #[trigger] self.in_disc(q, radius as int) && row_major_before(
                            q,
                            (Point { x: i, y: j }),
                        ) ==> exists|k: int| 0 <= k < r@.len() && (#[trigger] r@[k]).p == q,
                decreases w - i,
            {
                let ghost r0 = r@;
                if self.disc_test(Point { x: i, y: j }, radius) {
                    r.push(Coord { p: Point { x: i, y: j }, world_width: w, world_height: h });
                }
                proof {
                    assert forall|q: Point|
                        q.spec_in_bounds(0, self.world_width as int, 0, self.world_height as int)
                            && #[trigger] self.in_disc(q, radius as int) && row_major_before(
                            q,
                            (Point { x: (i + 1) as isize, y: j }),
                        ) implies exists|k: int|
                        0 <= k < r@.len() && (#[trigger] r@[k]).p == q by {
                        if row_major_before(q, (Point { x: i, y: j })) {
                            let k = choose|k: int| 0 <= k < r0.len() && (#[trigger] r0[k]).p == q;
                            assert(r@[k].p == q);
                        } else {
                            assert(q == (Point { x: i, y: j }));
                            assert(r@[r@.len() - 1].p == q);
                        }
                    }
                }
                i = i + 1;
            }
            j = j + 1;
        }
        r
    }
}

/// One grid slot: an owning coordinate that never changes, and an optional
/// occupant (`None` = empty).
#[derive(Debug, Clone, Copy)]
pub struct Cell<T> {
    pub value: Option<T>,
    pub coord: Coord,
}

impl<T> Cell<T> {
    fn empty(coord: Coord) -> (c: Cell<T>)
        ensures
            c == (Cell::<T> { value: None, coord }),
    {
        Cell { value: None, coord }
    }

    /// True iff the cell has no occupant.
    pub fn is_empty(&self) -> (r: bool)
        ensures
            r == (self.value is None),
    {
        self.value.is_none()
    }
}

/// A dense, row-major store of `width * height` cells with fixed dimensions.
/// Cells never move; only their occupants do.
#[derive(Debug, Clone)]
pub struct Grid<T> {
    pub cells: Vec<Cell<T>>,
    pub width: isize,
    pub height: isize,
}

impl<T> Grid<T> {
    /// Validity: the cell count equals `width * height` for the grid's whole
    /// lifetime, and the cell at each index owns the coordinate of that index.
    pub open spec fn wf(self) -> bool {
        &&& 0 <= self.width
        &&& 0 <= self.height
        &&& self.width * self.height <= usize::MAX as int
        &&& self.cells@.len() == self.width * self.height
        &&& forall|j: int|
            0 <= j < self.cells@.len() ==> {
                let c = (#[trigger] self.cells@[j]).coord;
                c.wf() && c.world_width == self.width && c.world_height == self.height && c.idx()
                    == j
            }
    }

    /// The occupants alone, in row-major order: the mathematical content of
    /// the grid that the simulation rules speak about.
    pub open spec fn occupants(self) -> Seq<Option<T>> {
        self.cells@.map_values(|c: Cell<T>| c.value)
    }

    /// The occupant at position `(x, y)`.
    pub open spec fn at(self, x: int, y: int) -> Option<T> {
        self.occupants()[y * self.width + x]
    }

    /// Whether a coordinate was validated against this grid's dimensions.
    pub open spec fn fits(self, c: Coord) -> bool {
        c.world_width == self.width && c.world_height == self.height
    }

    /// Builds the grid with all cells empty; the dimensions are fixed from
    /// here on. The bound on `width * height` is what the machine forces: the
    /// cell count must fit in a `usize`.
    pub fn new(width: isize, height: isize) -> (g: Grid<T>)
        requires
            0 <= width,
            0 <= height,
            width * height <= usize::MAX as int,
        ensures
            g.wf(),
            g.width == width,
            g.height == height,
            g.occupants().len() == width * height,
            forall|j: int| 0 <= j < g.occupants().len() ==> #[trigger] g.occupants()[j] is None,
    {
        let mut cells: Vec<Cell<T>> = Vec::new();
        let mut y: isize = 0;
        while y < height
            invariant
                0 <= y <= height,
                0 <= width,
                width * height <= usize::MAX as int,
                cells@.len() == y * width,
                forall|j: int|
                    0 <= j < cells@.len() ==> {
                        let c = (#[trigger] cells@[j]).coord;
                        c.wf() && c.world_width == width && c.world_height == height && c.idx() == j
                    },
                forall|j: int| 0 <= j < cells@.len() ==> (#[trigger] cells@[j]).value is None,
            decreases height - y,
        {
            let mut x: isize = 0;
            while x < width
                invariant
                    0 <= y < height,
                    0 <= x <= width,
                    width * height <= usize::MAX as int,
                    cells@.len() == y * width + x,
                    forall|j: int|
                        0 <= j < cells@.len() ==> {
                            let c = (#[trigger] cells@[j]).coord;
                            c.wf() && c.world_width == width && c.world_height == height && c.idx()
                                == j
                        },
                    forall|j: int| 0 <= j < cells@.len() ==> (#[trigger] cells@[j]).value is None,
                decreases width - x,
            {
                proof {
                    assert(y * width + x < width * height) by (nonlinear_arith)
                        requires
                            0 <= x < width,
                            0 <= y < height,
                    ;
                }
                let coord = Coord::new(Point { x, y }, width, height).unwrap();
                cells.push(Cell::empty(coord));
                x = x + 1;
            }
            proof {
                assert((y + 1) * width == y * width + width) by (nonlinear_arith);
            }
            y = y + 1;
        }
        proof {
            assert(height * width == width * height) by (nonlinear_arith);
        }
        Grid { cells, width, height }
    }

    fn cell_index(&self, coord: &Coord) -> (i: usize)
        requires
            self.wf(),
            coord.wf(),
            self.fits(*coord),
        ensures
            i == coord.idx(),
            i < self.cells@.len(),
    {
        proof {
            coord.lemma_idx_in_range();
        }
        (coord.p.y as usize) * (self.width as usize) + (coord.p.x as usize)
    }

    /// Direct indexed access; never fails for a coordinate validated against
    /// this grid's dimensions.
    pub fn get(&self, coord: &Coord) -> (c: &Cell<T>)
        requires
            self.wf(),
            coord.wf(),
            self.fits(*coord),
        ensures
            *c == self.cells@[coord.idx()],
            c.value == self.at(coord.p.x as int, coord.p.y as int),
            c.coord == *coord,
    {
        let i = self.cell_index(coord);
        let c = &self.cells[i];
        proof {
            Coord::lemma_idx_injective(c.coord, *coord);
        }
        c
    }

    /// True iff the cell at `coord` has no occupant.
    pub fn is_empty(&self, coord: &Coord) -> (r: bool)
        requires
            self.wf(),
            coord.wf(),
            self.fits(*coord),
        ensures
            r == (self.at(coord.p.x as int, coord.p.y as int) is None),
    {
        self.get(coord).is_empty()
    }

    /// Validates a raw point against this grid's dimensions.
    pub fn to_coord(&self, p: Point) -> (r: Option<Coord>)
        requires
            self.wf(),
        ensures
            r is Some <==> p.spec_in_bounds(0, self.width as int, 0, self.height as int),
            r is Some ==> r->0 == (Coord {
                p,
                world_width: self.width,
                world_height: self.height,
            }) && r->0.wf() && self.fits(r->0),
    {
        Coord::new(p, self.width, self.height)
    }

    /// Direct mutable access to one cell. The caller must leave the owning
    /// coordinate untouched for the grid to stay well-formed.
    pub fn get_mut(&mut self, coord: &Coord) -> (c: &mut Cell<T>)
        requires
            old(self).wf(),
            coord.wf(),
            old(self).fits(*coord),
        ensures
            *c == old(self).cells@[coord.idx()],
            c.coord == *coord,
            final(self).cells@ == old(self).cells@.update(coord.idx(), *final(c)),
            final(self).width == old(self).width,
            final(self).height == old(self).height,
    {
        let i = self.cell_index(coord);
        let c = &mut self.cells[i];
        proof {
            Coord::lemma_idx_injective(c.coord, *coord);
        }
        c
    }

    /// Empties the cell at `coord`.
    pub fn clear(&mut self, coord: &Coord)
        requires
            old(self).wf(),
            coord.wf(),
            old(self).fits(*coord),
        ensures
            final(self).wf(),
            final(self).width == old(self).width,
            final(self).height == old(self).height,
            final(self).occupants() == old(self).occupants().update(coord.idx(), None::<T>),
            forall|j: int|
                0 <= j < final(self).cells@.len() ==> (#[trigger] final(self).cells@[j]).coord
                    == old(self).cells@[j].coord,
    {
        let ghost pre = *self;
        let i = self.cell_index(coord);
        let c = &mut self.cells[i];
        c.value = None;
        proof {
            assert(self.occupants() =~= pre.occupants().update(coord.idx(), None::<T>));
        }
    }

    /// Replaces the occupant of the cell at `coord`.
    pub fn set(&mut self, coord: &Coord, value: T)
        requires
            old(self).wf(),
            coord.wf(),
            old(self).fits(*coord),
        ensures
            final(self).wf(),
            final(self).width == old(self).width,
            final(self).height == old(self).height,
            final(self).occupants() == old(self).occupants().update(coord.idx(), Some(value)),
            forall|j: int|
                0 <= j < final(self).cells@.len() ==> (#[trigger] final(self).cells@[j]).coord
                    == old(self).cells@[j].coord,
    {
        let ghost pre = *self;
        let i = self.cell_index(coord);
        let c = &mut self.cells[i];
        c.value = Some(value);
        proof {
            assert(self.occupants() =~= pre.occupants().update(
                coord.idx(),
                self.cells@[coord.idx()].value,
            ));
        }
    }

    /// Exchanges the occupants of two cells of the one backing store, by
    /// taking both values out and reinserting them swapped; no two mutable
    /// references into the store are ever held at once. The two coordinates
    /// may coincide, in which case nothing changes.
    pub fn swap(&mut self, a: &Coord, b: &Coord)
        requires
            old(self).wf(),
            a.wf(),
            b.wf(),
            old(self).fits(*a),
            old(self).fits(*b),
        ensures
            final(self).wf(),
            final(self).width == old(self).width,
            final(self).height == old(self).height,
            final(self).occupants() == old(self).occupants().update(
                a.idx(),
                old(self).occupants()[b.idx()],
            ).update(b.idx(), old(self).occupants()[a.idx()]),
            forall|j: int|
                0 <= j < final(self).cells@.len() ==> (#[trigger] final(self).cells@[j]).coord
                    == old(self).cells@[j].coord,
    {
        let ghost pre = *self;
        let ia = self.cell_index(a);
        let ib = self.cell_index(b);
        let ca = &mut self.cells[ia];
        let va = ca.value.take();
        let cb = &mut self.cells[ib];
        let vb = cb.value.take();
        let ca = &mut self.cells[ia];
        ca.value = vb;
        let cb = &mut self.cells[ib];
        cb.value = va;
        proof {
            assert(self.occupants() =~= pre.occupants().update(
                a.idx(),
                pre.occupants()[b.idx()],
            ).update(b.idx(), pre.occupants()[a.idx()]));
        }
    }

    /// The cells in row-major order, for preprocessing and rendering.
    pub fn iter(&self) -> (r: &Vec<Cell<T>>)
        ensures
            r@ == self.cells@,
    {
        &self.cells
    }

    /// Mutable access to the cells in row-major order. A caller that leaves
    /// every cell's owning coordinate in place leaves the grid well-formed.
    pub fn iter_mut(&mut self) -> (r: &mut Vec<Cell<T>>)
        ensures
            *r == old(self).cells,
            final(self).cells == *final(r),
            final(self).width == old(self).width,
            final(self).height == old(self).height,
    {
        &mut self.cells
    }
}

} // verus!
