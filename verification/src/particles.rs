use vstd::prelude::*;
use crate::grid::{Cell, Coord, Grid, Point};
use crate::rng::SimRng;

verus! {

/// The closed set of material kinds.
#[derive(Debug, Clone, Copy, PartialEq, Eq, Structural)]
pub enum ParticleKind {
    Sand,
    Water,
    Wood,
}

impl ParticleKind {
    /// Solidity: the capability to block downward passage of falling sand.
    /// Sand and wood are solid; water is not.
    pub open spec fn solid(self) -> bool {
        self != ParticleKind::Water
    }

    /// True iff this kind is solid.
    pub fn is_solid(&self) -> (r: bool)
        ensures
            r == self.solid(),
    {
        match self {
            ParticleKind::Sand | ParticleKind::Wood => true,
            ParticleKind::Water => false,
        }
    }
}

/// A material occupant: an immutable kind, and a transient flag marking that
/// the particle has already been handled in the current frame.
#[derive(Debug, Clone, Copy, PartialEq, Eq, Structural)]
pub struct Particle {
    pub kind: ParticleKind,
    pub ticked: bool,
}

impl Particle {
    /// A fresh particle of the given kind, not yet handled this frame.
    pub fn new(kind: ParticleKind) -> (p: Particle)
        ensures
            p == (Particle { kind, ticked: false }),
    {
        Particle { kind, ticked: false }
    }
}

impl Cell<Particle> {
    /// True iff the cell's occupant is solid; an empty cell is not.
    pub fn is_solid(&self) -> (r: bool)
        ensures
            r == occ_solid(self.value),
    {
        if let Some(particle) = &self.value {
            particle.kind.is_solid()
        } else {
            false
        }
    }
}

impl Grid<Particle> {
    /// True iff the occupant at `coord` blocks falling sand.
    pub fn is_solid(&self, coord: &Coord) -> (r: bool)
        requires
            self.wf(),
            coord.wf(),
            self.fits(*coord),
        ensures
            r == solid_at(
                self.occupants(),
                self.width as int,
                coord.p.x as int,
                coord.p.y as int,
            ),
    {
        let cell = self.get(coord);
        cell.is_solid()
    }
}

// ---------------------------------------------------------------------------
// The mathematical model of one simulation step. The occupant sequence of a
// grid (row-major, `None` for an empty cell) is the state these functions
// transform; `simulate_spec` is the exact meaning of `Simulator::simulate`.
// ---------------------------------------------------------------------------

/// Whether an occupant is solid; an empty cell is not.
pub open spec fn occ_solid(o: Option<Particle>) -> bool {
    match o {
        Some(p) => p.kind.solid(),
        None => false,
    }
}

/// Row-major index of `(x, y)` in a world `w` cells wide.
pub open spec fn sidx(w: int, x: int, y: int) -> int {
    y * w + x
}

/// Whether the occupant at `(x, y)` is solid.
pub open spec fn solid_at(s: Seq<Option<Particle>>, w: int, x: int, y: int) -> bool {
    occ_solid(s[sidx(w, x, y)])
}

/// Whether the cell at `(x, y)` is empty.
pub open spec fn empty_at(s: Seq<Option<Particle>>, w: int, x: int, y: int) -> bool {
    s[sidx(w, x, y)] is None
}

/// The occupants with the contents of positions `i` and `j` exchanged.
pub open spec fn swap_at(s: Seq<Option<Particle>>, i: int, j: int) -> Seq<Option<Particle>> {
    s.update(i, s[j]).update(j, s[i])
}

/// The occupants with the particle at `i`, if any, marked as handled.
pub open spec fn tick_at(s: Seq<Option<Particle>>, i: int) -> Seq<Option<Particle>> {
    match s[i] {
        Some(p) => s.update(i, Some(Particle { kind: p.kind, ticked: true })),
        None => s,
    }
}

/// Whether sand may take the diagonal landing in column `tx`, one row below
/// `y`: the column exists and the landing is not solid.
pub open spec fn sand_diag_ok(s: Seq<Option<Particle>>, w: int, tx: int, y: int) -> bool {
    0 <= tx < w && !solid_at(s, w, tx, y + 1)
}

/// The diagonal column sand picks: the first acceptable one of the two
/// diagonal-down neighbors, in the order the tie-break chose.
pub open spec fn sand_diag(s: Seq<Option<Particle>>, w: int, x: int, y: int, right_first: bool) -> Option<int> {
    let first = if right_first { x + 1 } else { x - 1 };
    let second = if right_first { x - 1 } else { x + 1 };
    if sand_diag_ok(s, w, first, y) {
        Some(first)
    } else if sand_diag_ok(s, w, second, y) {
        Some(second)
    } else {
        None
    }
}

/// Sand's diagonal move into column `tx`: if the cell directly above the
/// landing is empty, the landing's occupant is first relocated up into it —
/// the anti-climb correction, which keeps a liquid from riding up a slope of
/// sand — and then the sand swaps into the landing.
pub open spec fn sand_diag_move(s: Seq<Option<Particle>>, w: int, x: int, y: int, tx: int) -> Seq<
    Option<Particle>,
> {
    let s2 = if empty_at(s, w, tx, y) {
        swap_at(s, sidx(w, tx, y + 1), sidx(w, tx, y))
    } else {
        s
    };
    swap_at(s2, sidx(w, x, y), sidx(w, tx, y + 1))
}

/// One sand move from `(x, y)`: rest on the bottom row; else fall straight
/// down when the cell below is not solid; else take the first acceptable
/// diagonal; else rest.
pub open spec fn sand_move(s: Seq<Option<Particle>>, w: int, h: int, x: int, y: int, right_first: bool) -> Seq<Option<Particle>> {
    if y == h - 1 {
        s
    } else if !solid_at(s, w, x, y + 1) {
        swap_at(s, sidx(w, x, y), sidx(w, x, y + 1))
    } else {
        match sand_diag(s, w, x, y, right_first) {
            Some(tx) => sand_diag_move(s, w, x, y, tx),
            None => s,
        }
    }
}

/// Whether water may take the diagonal landing in column `tx`: the column
/// exists and the landing is empty.
pub open spec fn water_diag_ok(s: Seq<Option<Particle>>, w: int, tx: int, y: int) -> bool {
    0 <= tx < w && empty_at(s, w, tx, y + 1)
}

/// The diagonal column water picks, in the order the tie-break chose.
pub open spec fn water_diag(s: Seq<Option<Particle>>, w: int, x: int, y: int, right_first: bool) -> Option<int> {
    let first = if right_first { x + 1 } else { x - 1 };
    let second = if right_first { x - 1 } else { x + 1 };
    if water_diag_ok(s, w, first, y) {
        Some(first)
    } else if water_diag_ok(s, w, second, y) {
        Some(second)
    } else {
        None
    }
}

/// Whether water may spread sideways into column `tx` on its own row.
pub open spec fn water_side_ok(s: Seq<Option<Particle>>, w: int, tx: int, y: int) -> bool {
    0 <= tx < w && empty_at(s, w, tx, y)
}

/// The lateral column water picks, in the order the tie-break chose.
pub open spec fn water_side(s: Seq<Option<Particle>>, w: int, x: int, y: int, right_first: bool) -> Option<int> {
    let first = if right_first { x + 1 } else { x - 1 };
    let second = if right_first { x - 1 } else { x + 1 };
    if water_side_ok(s, w, first, y) {
        Some(first)
    } else if water_side_ok(s, w, second, y) {
        Some(second)
    } else {
        None
    }
}

/// One water move from `(x, y)`: rest on the bottom row; else fall into an
/// empty cell below; else take the first empty diagonal; else spread into
/// the first empty lateral neighbor; else rest.
pub open spec fn water_move(s: Seq<Option<Particle>>, w: int, h: int, x: int, y: int, diag_right_first: bool, side_right_first: bool) -> Seq<Option<Particle>> {
    if y == h - 1 {
        s
    } else if empty_at(s, w, x, y + 1) {
        swap_at(s, sidx(w, x, y), sidx(w, x, y + 1))
    } else {
        match water_diag(s, w, x, y, diag_right_first) {
            Some(tx) => swap_at(s, sidx(w, x, y), sidx(w, tx, y + 1)),
            None => match water_side(s, w, x, y, side_right_first) {
                Some(tx) => swap_at(s, sidx(w, x, y), sidx(w, tx, y)),
                None => s,
            },
        }
    }
}

/// One simulation step at `(x, y)`: nothing happens at an empty cell or to
/// an already-handled particle; otherwise the particle is marked handled and
/// moved by its kind's rule. `diag_right_first` and `side_right_first`
/// record which neighbor each tie-break tried first.
pub open spec fn simulate_spec(s: Seq<Option<Particle>>, w: int, h: int, x: int, y: int, diag_right_first: bool, side_right_first: bool) -> Seq<Option<Particle>> {
    match s[sidx(w, x, y)] {
        None => s,
        Some(p) => {
            if p.ticked {
                s
            } else {
                let s1 = tick_at(s, sidx(w, x, y));
                match p.kind {
                    ParticleKind::Sand => sand_move(s1, w, h, x, y, diag_right_first),
                    ParticleKind::Water => water_move(
                        s1,
                        w,
                        h,
                        x,
                        y,
                        diag_right_first,
                        side_right_first,
                    ),
                    ParticleKind::Wood => s1,
                }
            }
        },
    }
}

/// An occupant with its per-frame flag cleared.
pub open spec fn untick(o: Option<Particle>) -> Option<Particle> {
    match o {
        Some(p) => Some(Particle { kind: p.kind, ticked: false }),
        None => None,
    }
}

/// The occupants with every per-frame flag cleared: the state `init` leaves.
pub open spec fn unticked(s: Seq<Option<Particle>>) -> Seq<Option<Particle>> {
    s.map_values(|o: Option<Particle>| untick(o))
}

/// One row's sweep, with `done` cells of the row already behind: each
/// element of `cell_draws` steps the next cell, whose column is counted
/// from the left, or from the right when `rtl` holds.
pub open spec fn row_scan(
    s: Seq<Option<Particle>>,
    w: int,
    h: int,
    y: int,
    rtl: bool,
    done: int,
    cell_draws: Seq<(bool, bool)>,
) -> Seq<Option<Particle>>
    decreases cell_draws.len(),
{
    if cell_draws.len() == 0 {
        s
    } else {
        let x = if rtl {
            w - 1 - done
        } else {
            done
        };
        let s2 = simulate_spec(s, w, h, x, y, cell_draws[0].0, cell_draws[0].1);
        row_scan(s2, w, h, y, rtl, done + 1, cell_draws.drop_first())
    }
}

/// The sweep of the rows still ahead, with `done` rows already behind: the
/// next row is `h - 1 - done`, so the rows run from the bottom up. Each
/// element of `rows` holds one row's sweep direction and the two tie-break
/// draws of each of its cells.
pub open spec fn rows_scan(
    s: Seq<Option<Particle>>,
    w: int,
    h: int,
    done: int,
    rows: Seq<(bool, Seq<(bool, bool)>)>,
) -> Seq<Option<Particle>>
    decreases rows.len(),
{
    if rows.len() == 0 {
        s
    } else {
        let s2 = row_scan(s, w, h, h - 1 - done, rows[0].0, 0, rows[0].1);
        rows_scan(s2, w, h, done + 1, rows.drop_first())
    }
}

/// One whole frame of the protocol: every per-frame flag cleared, then
/// every row from the bottom up swept once, one simulation step per cell.
/// `rows[r]` records the direction drawn for the r-th row from the bottom
/// and the tie-break draws of each of its cells; `frame` promises to be
/// this function for some such record of full length.
pub open spec fn frame_spec(
    s: Seq<Option<Particle>>,
    w: int,
    h: int,
    rows: Seq<(bool, Seq<(bool, bool)>)>,
) -> Seq<Option<Particle>> {
    rows_scan(unticked(s), w, h, 0, rows)
}

/// Every occupant on row `y` and the rows below it carries the handled
/// mark.
pub open spec fn marked_from(s: Seq<Option<Particle>>, w: int, h: int, y: int) -> bool {
    forall|px: int, py: int|
        0 <= px < w && y <= py < h && (#[trigger] s[sidx(w, px, py)]) is Some ==> s[sidx(
            w,
            px,
            py,
        )]->0.ticked
}

/// How many occupants of `s` satisfy `f`.
pub open spec fn count_matching(s: Seq<Option<Particle>>, f: spec_fn(Option<Particle>) -> bool) -> int
    decreases s.len(),
{
    if s.len() == 0 {
        0
    } else {
        (if f(s[0]) {
            1int
        } else {
            0int
        }) + count_matching(s.drop_first(), f)
    }
}

/// The kind of an occupant, if any.
pub open spec fn kind_of(o: Option<Particle>) -> Option<ParticleKind> {
    match o {
        Some(p) => Some(p.kind),
        None => None,
    }
}

/// The number of non-empty cells.
pub open spec fn count_occupied(s: Seq<Option<Particle>>) -> int {
    count_matching(s, |o: Option<Particle>| o is Some)
}

/// The number of occupants of kind `k`.
pub open spec fn count_kind(s: Seq<Option<Particle>>, k: ParticleKind) -> int {
    count_matching(s, |o: Option<Particle>| kind_of(o) == Some(k))
}

/// Extending a row's sweep by one more cell steps that cell on the state
/// the sweep so far produced.
proof fn lemma_row_scan_push(
    s: Seq<Option<Particle>>,
    w: int,
    h: int,
    y: int,
    rtl: bool,
    done: int,
    cd: Seq<(bool, bool)>,
    e: (bool, bool),
)
    ensures
        row_scan(s, w, h, y, rtl, done, cd.push(e)) == simulate_spec(
            row_scan(s, w, h, y, rtl, done, cd),
            w,
            h,
            (if rtl {
                w - 1 - (done + cd.len())
            } else {
                done + cd.len()
            }),
            y,
            e.0,
            e.1,
        ),
    decreases cd.len(),
{
    let x0 = if rtl {
        w - 1 - done
    } else {
        done
    };
    if cd.len() == 0 {
        assert(cd.push(e)[0] == e);
        assert(cd.push(e).drop_first() =~= cd);
        let s2 = simulate_spec(s, w, h, x0, y, e.0, e.1);
        assert(row_scan(s2, w, h, y, rtl, done + 1, cd) == s2);
        assert(row_scan(s, w, h, y, rtl, done, cd.push(e)) == s2);
    } else {
        assert(cd.push(e)[0] == cd[0]);
        assert(cd.push(e).drop_first() =~= cd.drop_first().push(e));
        let s1 = simulate_spec(s, w, h, x0, y, cd[0].0, cd[0].1);
        lemma_row_scan_push(s1, w, h, y, rtl, done + 1, cd.drop_first(), e);
        assert(row_scan(s, w, h, y, rtl, done, cd.push(e)) == row_scan(
            s1,
            w,
            h,
            y,
            rtl,
            done + 1,
            cd.drop_first().push(e),
        ));
    }
}

/// Extending the record of swept rows by one more row sweeps that row on
/// the state the rows so far produced.
proof fn lemma_rows_scan_push(
    s: Seq<Option<Particle>>,
    w: int,
    h: int,
    done: int,
    rows: Seq<(bool, Seq<(bool, bool)>)>,
    e: (bool, Seq<(bool, bool)>),
)
    ensures
        rows_scan(s, w, h, done, rows.push(e)) == row_scan(
            rows_scan(s, w, h, done, rows),
            w,
            h,
            h - 1 - (done + rows.len()),
            e.0,
            0,
            e.1,
        ),
    decreases rows.len(),
{
    if rows.len() == 0 {
        assert(rows.push(e)[0] == e);
        assert(rows.push(e).drop_first() =~= rows);
        let s2 = row_scan(s, w, h, h - 1 - done, e.0, 0, e.1);
        assert(rows_scan(s2, w, h, done + 1, rows) == s2);
        assert(rows_scan(s, w, h, done, rows.push(e)) == s2);
    } else {
        assert(rows.push(e)[0] == rows[0]);
        assert(rows.push(e).drop_first() =~= rows.drop_first().push(e));
        let s2 = row_scan(s, w, h, h - 1 - done, rows[0].0, 0, rows[0].1);
        lemma_rows_scan_push(s2, w, h, done + 1, rows.drop_first(), e);
        assert(rows_scan(s, w, h, done, rows.push(e)) == rows_scan(
            s2,
            w,
            h,
            done + 1,
            rows.drop_first().push(e),
        ));
    }
}

/// The per-frame driver of the movement rules. It carries only the random
/// source that breaks ties; all per-particle state lives on the grid.
pub struct Simulator {
    rng: SimRng,
}

impl Simulator {
    /// A simulator drawing its tie-breaks from operating-system entropy.
    pub fn new() -> Simulator {
        Simulator { rng: SimRng::from_entropy() }
    }

    /// A simulator whose tie-breaks are reproducible from `seed`: two
    /// simulators built from one seed drive identical runs.
    pub fn from_seed(seed: u64) -> Simulator {
        Simulator { rng: SimRng::from_seed(seed) }
    }

    /// Clears the per-frame flag on every occupant. Must run exactly once
    /// per frame, before any `simulate` call of that frame; everything else
    /// about the grid is untouched.
    pub fn init(&mut self, grid: &mut Grid<Particle>)
        requires
            old(grid).wf(),
        ensures
            final(grid).wf(),
            final(grid).width == old(grid).width,
            final(grid).height == old(grid).height,
            final(grid).occupants() == unticked(old(grid).occupants()),
            forall|j: int|
                0 <= j < final(grid).cells@.len() ==> (#[trigger] final(grid).cells@[j]).coord
                    == old(grid).cells@[j].coord,
    {
        let ghost g0 = *grid;
        let n = grid.cells.len();
        let mut i: usize = 0;
        while i < n
            invariant
                grid.wf(),
                n == grid.cells@.len(),
                grid.cells@.len() == g0.cells@.len(),
                grid.width == g0.width,
                grid.height == g0.height,
                i <= n,
                forall|j: int|
                    0 <= j < g0.cells@.len() ==> (#[trigger] grid.cells@[j]).coord
                        == g0.cells@[j].coord,
                forall|j: int|
                    0 <= j < i ==> (#[trigger] grid.cells@[j]).value == untick(g0.cells@[j].value),
                forall|j: int|
                    i <= j < g0.cells@.len() ==> (#[trigger] grid.cells@[j]).value
                        == g0.cells@[j].value,
            decreases n - i,
        {
            let v = grid.cells[i].value;
            match v {
                Some(p) => {
                    let c = &mut grid.cells[i];
                    c.value = Some(Particle { kind: p.kind, ticked: false });
                },
                None => {},
            }
            i = i + 1;
        }
        proof {
            assert(grid.occupants() =~= unticked(g0.occupants()));
        }
    }

    /// One simulation step at `coord`, with the two tie-break draws passed
    /// in explicitly: `diag_right_first` names the diagonal the falling
    /// rules try first, `side_right_first` the lateral side water tries
    /// first. The grid afterwards is exactly the mathematical step
    /// `simulate_spec` on the grid before.
    pub fn simulate_with(
        grid: &mut Grid<Particle>,
        coord: &Coord,
        diag_right_first: bool,
        side_right_first: bool,
    )
        requires
            old(grid).wf(),
            coord.wf(),
            old(grid).fits(*coord),
        ensures
            final(grid).wf(),
            final(grid).width == old(grid).width,
            final(grid).height == old(grid).height,
            forall|j: int|
                0 <= j < final(grid).cells@.len() ==> (#[trigger] final(grid).cells@[j]).coord
                    == old(grid).cells@[j].coord,
            final(grid).occupants() == simulate_spec(
                old(grid).occupants(),
                old(grid).width as int,
                old(grid).height as int,
                coord.p.x as int,
                coord.p.y as int,
                diag_right_first,
                side_right_first,
            ),
    {
        let ghost s0 = grid.occupants();
        let ghost w = grid.width as int;
        let ghost h = grid.height as int;
        let ghost x = coord.p.x as int;
        let ghost y = coord.p.y as int;

        let cell_value = grid.get(coord).value;
        let p = match cell_value {
            None => {
                return ;
            },
            Some(p) => p,
        };
        if p.ticked {
            return ;
        }
        grid.set(coord, Particle { kind: p.kind, ticked: true });
        proof {
            assert(grid.occupants() =~= tick_at(s0, sidx(w, x, y)));
        }
        let ghost s1 = grid.occupants();

        match p.kind {
            ParticleKind::Wood => {},
            ParticleKind::Sand => {
                if coord.is_at_bottom() {
                    return ;
                }
                let below = coord.move_by(0, 1).unwrap();
                if !grid.is_solid(&below) {
                    grid.swap(coord, &below);
                    proof {
                        assert(grid.occupants() == sand_move(s1, w, h, x, y, diag_right_first));
                    }
                    return ;
                }
                let first_dx: isize = if diag_right_first {
                    1
                } else {
                    -1
                };
                if let Some(t) = coord.move_by(first_dx, 1) {
                    if !grid.is_solid(&t) {
                        proof {
                            assert(sand_diag(s1, w, x, y, diag_right_first) == Some(
                                x + first_dx as int,
                            ));
                        }
                        Self::sand_into(grid, coord, &t);
                        return ;
                    }
                }
                let second_dx: isize = if diag_right_first {
                    -1
                } else {
                    1
                };
                if let Some(t) = coord.move_by(second_dx, 1) {
                    if !grid.is_solid(&t) {
                        proof {
                            assert(sand_diag(s1, w, x, y, diag_right_first) == Some(
                                x + second_dx as int,
                            ));
                        }
                        Self::sand_into(grid, coord, &t);
                        return ;
                    }
                }
                proof {
                    assert(sand_diag(s1, w, x, y, diag_right_first) is None);
                }
            },
            ParticleKind::Water => {
                if coord.is_at_bottom() {
                    return ;
                }
                let below = coord.move_by(0, 1).unwrap();
                if grid.is_empty(&below) {
                    grid.swap(coord, &below);
                    return ;
                }
                let first_dx: isize = if diag_right_first {
                    1
                } else {
                    -1
                };
                if let Some(t) = coord.move_by(first_dx, 1) {
                    if grid.is_empty(&t) {
                        proof {
                            assert(water_diag(s1, w, x, y, diag_right_first) == Some(
                                x + first_dx as int,
                            ));
                        }
                        grid.swap(coord, &t);
                        return ;
                    }
                }
                let second_dx: isize = if diag_right_first {
                    -1
                } else {
                    1
                };
                if let Some(t) = coord.move_by(second_dx, 1) {
                    if grid.is_empty(&t) {
                        proof {
                            assert(water_diag(s1, w, x, y, diag_right_first) == Some(
                                x + second_dx as int,
                            ));
                        }
                        grid.swap(coord, &t);
                        return ;
                    }
                }
                proof {
                    assert(water_diag(s1, w, x, y, diag_right_first) is None);
                }
                let first_lx: isize = if side_right_first {
                    1
                } else {
                    -1
                };
                if let Some(t) = coord.move_by(first_lx, 0) {
                    if grid.is_empty(&t) {
                        proof {
                            assert(water_side(s1, w, x, y, side_right_first) == Some(
                                x + first_lx as int,
                            ));
                        }
                        grid.swap(coord, &t);
                        return ;
                    }
                }
                let second_lx: isize = if side_right_first {
                    -1
                } else {
                    1
                };
                if let Some(t) = coord.move_by(second_lx, 0) {
                    if grid.is_empty(&t) {
                        proof {
                            assert(water_side(s1, w, x, y, side_right_first) == Some(
                                x + second_lx as int,
                            ));
                        }
                        grid.swap(coord, &t);
                        return ;
                    }
                }
                proof {
                    assert(water_side(s1, w, x, y, side_right_first) is None);
                }
            },
        }
    }

    /// One simulation step at `coord`, drawing the tie-breaks from the
    /// simulator's random source: the grid afterwards is the mathematical
    /// step for some pair of draws, whichever way the coins fell, and in
    /// particular every count of occupants is preserved.
    pub fn simulate(&mut self, grid: &mut Grid<Particle>, coord: &Coord)
        requires
            old(grid).wf(),
            coord.wf(),
            old(grid).fits(*coord),
        ensures
            final(grid).wf(),
            final(grid).width == old(grid).width,
            final(grid).height == old(grid).height,
            forall|j: int|
                0 <= j < final(grid).cells@.len() ==> (#[trigger] final(grid).cells@[j]).coord
                    == old(grid).cells@[j].coord,
            exists|b1: bool, b2: bool|
                final(grid).occupants() == simulate_spec(
                    old(grid).occupants(),
                    old(grid).width as int,
                    old(grid).height as int,
                    coord.p.x as int,
                    coord.p.y as int,
                    b1,
                    b2,
                ),
            count_occupied(final(grid).occupants()) == count_occupied(old(grid).occupants()),
            forall|k: ParticleKind| #[trigger] count_kind(final(grid).occupants(), k) == count_kind(
                old(grid).occupants(),
                k,
            ),
    {
        let ghost s0 = grid.occupants();
        let diag_right_first = self.rng.coin();
        let side_right_first = self.rng.coin();
        Self::simulate_with(grid, coord, diag_right_first, side_right_first);
        proof {
            crate::laws::lemma_simulate_conserves(
                s0,
                grid.width as int,
                grid.height as int,
                coord.p.x as int,
                coord.p.y as int,
                diag_right_first,
                side_right_first,
            );
        }
    }

    /// One full frame: clears the per-frame flags, then scans every row from
    /// the bottom up, sweeping each row's columns in an order drawn at
    /// random, and applies one simulation step at every coordinate. Movement
    /// is swap-only, so the number of occupied cells, and of occupants of
    /// each kind, is exactly what it was before the frame.
    /// One full frame of the protocol: clears the per-frame flags, then
    /// scans every row from the bottom up, sweeping each row's columns in a
    /// direction drawn at random, and applies one simulation step at every
    /// coordinate. The grid afterwards is exactly `frame_spec` for some
    /// full-length record of the draws — one direction per row and one pair
    /// of tie-breaks per cell — and in particular the number of occupied
    /// cells, and of occupants of each kind, is what it was before.
    #[verifier::loop_isolation(false)]
    pub fn frame(&mut self, grid: &mut Grid<Particle>)
        requires
            old(grid).wf(),
        ensures
            final(grid).wf(),
            final(grid).width == old(grid).width,
            final(grid).height == old(grid).height,
            forall|j: int|
                0 <= j < final(grid).cells@.len() ==> (#[trigger] final(grid).cells@[j]).coord
                    == old(grid).cells@[j].coord,
            exists|rows: Seq<(bool, Seq<(bool, bool)>)>|
                #![auto]
                rows.len() == old(grid).height as int && (forall|r: int|
                    0 <= r < rows.len() ==> rows[r].1.len() == old(grid).width as int)
                    && final(grid).occupants() == frame_spec(
                    old(grid).occupants(),
                    old(grid).width as int,
                    old(grid).height as int,
                    rows,
                ),
            count_occupied(final(grid).occupants()) == count_occupied(old(grid).occupants()),
            forall|k: ParticleKind| #[trigger] count_kind(final(grid).occupants(), k) == count_kind(
                old(grid).occupants(),
                k,
            ),
            marked_from(
                final(grid).occupants(),
                old(grid).width as int,
                old(grid).height as int,
                0,
            ),
    {
        let ghost g0 = *grid;
        let ghost w = g0.width as int;
        let ghost h = g0.height as int;
        self.init(grid);
        proof {
            crate::laws::lemma_counts_unticked(g0.occupants());
        }
        let ghost mut rows_acc = Seq::<(bool, Seq<(bool, bool)>)>::empty();
        let mut y: isize = grid.height;
        while y > 0
            invariant
                grid.wf(),
                grid.width == g0.width,
                grid.height == g0.height,
                0 <= y <= grid.height,
                grid.cells@.len() == g0.cells@.len(),
                forall|j: int|
                    0 <= j < g0.cells@.len() ==> (#[trigger] grid.cells@[j]).coord
                        == g0.cells@[j].coord,
                rows_acc.len() == h - y,
                forall|r: int| 0 <= r < rows_acc.len() ==> (#[trigger] rows_acc[r]).1.len() == w,
                grid.occupants() == rows_scan(unticked(g0.occupants()), w, h, 0, rows_acc),
                count_occupied(grid.occupants()) == count_occupied(g0.occupants()),
                forall|k: ParticleKind| #[trigger] count_kind(grid.occupants(), k) == count_kind(
                    g0.occupants(),
                    k,
                ),
            decreases y,
        {
            y = y - 1;
            let right_to_left = self.rng.coin();
            let ghost s_row = grid.occupants();
            let ghost mut cells_acc = Seq::<(bool, bool)>::empty();
            if right_to_left {
                let mut x: isize = grid.width;
                while x > 0
                    invariant
                        grid.wf(),
                        grid.width == g0.width,
                        grid.height == g0.height,
                        0 <= y < grid.height,
                        0 <= x <= grid.width,
                        grid.cells@.len() == g0.cells@.len(),
                        forall|j: int|
                            0 <= j < g0.cells@.len() ==> (#[trigger] grid.cells@[j]).coord
                                == g0.cells@[j].coord,
                        cells_acc.len() == w - x,
                        grid.occupants() == row_scan(s_row, w, h, y as int, true, 0, cells_acc),
                        count_occupied(grid.occupants()) == count_occupied(g0.occupants()),
                        forall|k: ParticleKind| #[trigger] count_kind(grid.occupants(), k)
                            == count_kind(g0.occupants(), k),
                    decreases x,
                {
                    x = x - 1;
                    let ghost prev = grid.occupants();
                    let ghost cd0 = cells_acc;
                    match grid.to_coord(Point { x, y }) {
                        Some(coord) => {
                            self.simulate(grid, &coord);
                            proof {
                                let (b1, b2) = choose|b1: bool, b2: bool|
                                    grid.occupants() == simulate_spec(
                                        prev,
                                        w,
                                        h,
                                        x as int,
                                        y as int,
                                        b1,
                                        b2,
                                    );
                                lemma_row_scan_push(s_row, w, h, y as int, true, 0, cd0, (b1, b2));
                                cells_acc = cd0.push((b1, b2));
                            }
                        },
                        None => {
                            proof {
                                assert(false);
                            }
                        },
                    }
                }
            } else {
                let mut x: isize = 0;
                while x < grid.width
                    invariant
                        grid.wf(),
                        grid.width == g0.width,
                        grid.height == g0.height,
                        0 <= y < grid.height,
                        0 <= x <= grid.width,
                        grid.cells@.len() == g0.cells@.len(),
                        forall|j: int|
                            0 <= j < g0.cells@.len() ==> (#[trigger] grid.cells@[j]).coord
                                == g0.cells@[j].coord,
                        cells_acc.len() == x,
                        grid.occupants() == row_scan(s_row, w, h, y as int, false, 0, cells_acc),
                        count_occupied(grid.occupants()) == count_occupied(g0.occupants()),
                        forall|k: ParticleKind| #[trigger] count_kind(grid.occupants(), k)
                            == count_kind(g0.occupants(), k),
                    decreases grid.width - x,
                {
                    let ghost prev = grid.occupants();
                    let ghost cd0 = cells_acc;
                    match grid.to_coord(Point { x, y }) {
                        Some(coord) => {
                            self.simulate(grid, &coord);
                            proof {
                                let (b1, b2) = choose|b1: bool, b2: bool|
                                    grid.occupants() == simulate_spec(
                                        prev,
                                        w,
                                        h,
                                        x as int,
                                        y as int,
                                        b1,
                                        b2,
                                    );
                                lemma_row_scan_push(s_row, w, h, y as int, false, 0, cd0, (b1, b2));
                                cells_acc = cd0.push((b1, b2));
                            }
                        },
                        None => {
                            proof {
                                assert(false);
                            }
                        },
                    }
                    x = x + 1;
                }
            }
            proof {
                lemma_rows_scan_push(
                    unticked(g0.occupants()),
                    w,
                    h,
                    0,
                    rows_acc,
                    (right_to_left, cells_acc),
                );
                rows_acc = rows_acc.push((right_to_left, cells_acc));
            }
        }
        proof {
            assert(rows_acc.len() == h && (forall|r: int|
                0 <= r < rows_acc.len() ==> (#[trigger] rows_acc[r]).1.len() == w)
                && grid.occupants() == frame_spec(g0.occupants(), w, h, rows_acc));
            crate::laws::lemma_frame_spec_all_marked(g0.occupants(), w, h, rows_acc);
        }
    }

    /// Sand's diagonal landing, with the anti-climb correction: if the cell
    /// directly above the landing is empty, the landing's occupant is first
    /// relocated up into it, and only then does the sand swap in.
    fn sand_into(grid: &mut Grid<Particle>, coord: &Coord, t: &Coord)
        requires
            old(grid).wf(),
            coord.wf(),
            t.wf(),
            old(grid).fits(*coord),
            old(grid).fits(*t),
            t.p.y as int == coord.p.y as int + 1,
        ensures
            final(grid).wf(),
            final(grid).width == old(grid).width,
            final(grid).height == old(grid).height,
            forall|j: int|
                0 <= j < final(grid).cells@.len() ==> (#[trigger] final(grid).cells@[j]).coord
                    == old(grid).cells@[j].coord,
            final(grid).occupants() == sand_diag_move(
                old(grid).occupants(),
                old(grid).width as int,
                coord.p.x as int,
                coord.p.y as int,
                t.p.x as int,
            ),
    {
        if let Some(side) = t.move_by(0, -1) {
            if grid.is_empty(&side) {
                grid.swap(t, &side);
            }
        }
        grid.swap(coord, t);
    }
}

} // verus!
