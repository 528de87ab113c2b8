use vstd::prelude::*;
use crate::particles::{
    count_kind, count_matching, count_occupied, empty_at, frame_spec, kind_of, marked_from,
    row_scan, rows_scan, sand_diag, sand_move, sidx, simulate_spec, swap_at, tick_at, untick,
    unticked, water_diag, water_move, water_side, Particle, ParticleKind,
};

verus! {

/// A position inside the world has its row-major index inside the store.
pub proof fn lemma_sidx_bounds(w: int, h: int, x: int, y: int)
    requires
        0 <= x < w,
        0 <= y < h,
    ensures
        0 <= sidx(w, x, y) < w * h,
{
    assert(0 <= y * w + x < w * h) by (nonlinear_arith)
        requires
            0 <= x < w,
            0 <= y < h,
    ;
}

/// Positions on distinct rows, or distinct columns of one row, have
/// distinct row-major indexes.
pub proof fn lemma_sidx_distinct(w: int, x1: int, y1: int, x2: int, y2: int)
    requires
        0 <= x1 < w,
        0 <= x2 < w,
        (x1, y1) != ((x2, y2)),
    ensures
        sidx(w, x1, y1) != sidx(w, x2, y2),
{
    assert(y1 * w + x1 != y2 * w + x2) by (nonlinear_arith)
        requires
            0 <= x1 < w,
            0 <= x2 < w,
            x1 != x2 || y1 != y2,
    ;
}

proof fn lemma_count_matching_update(
    s: Seq<Option<Particle>>,
    i: int,
    v: Option<Particle>,
    f: spec_fn(Option<Particle>) -> bool,
)
    requires
        0 <= i < s.len(),
    ensures
        count_matching(s.update(i, v), f) == count_matching(s, f) - (if f(s[i]) {
            1int
        } else {
            0int
        }) + (if f(v) {
            1int
        } else {
            0int
        }),
    decreases s.len(),
{
    if i == 0 {
        assert(s.update(0, v).drop_first() =~= s.drop_first());
    } else {
        assert(s.update(i, v).drop_first() =~= s.drop_first().update(i - 1, v));
        lemma_count_matching_update(s.drop_first(), i - 1, v, f);
    }
}

proof fn lemma_count_matching_swap(
    s: Seq<Option<Particle>>,
    i: int,
    j: int,
    f: spec_fn(Option<Particle>) -> bool,
)
    requires
        0 <= i < s.len(),
        0 <= j < s.len(),
    ensures
        count_matching(swap_at(s, i, j), f) == count_matching(s, f),
{
    lemma_count_matching_update(s, i, s[j], f);
    lemma_count_matching_update(s.update(i, s[j]), j, s[i], f);
}

/// Exchanging two occupants moves particles without creating or destroying
/// any: every count is unchanged.
proof fn lemma_counts_swap(s: Seq<Option<Particle>>, i: int, j: int)
    requires
        0 <= i < s.len(),
        0 <= j < s.len(),
    ensures
        count_occupied(swap_at(s, i, j)) == count_occupied(s),
        forall|k: ParticleKind| #[trigger] count_kind(swap_at(s, i, j), k) == count_kind(s, k),
{
    lemma_count_matching_swap(s, i, j, |o: Option<Particle>| o is Some);
    assert forall|k: ParticleKind| #[trigger] count_kind(swap_at(s, i, j), k) == count_kind(
        s,
        k,
    ) by {
        lemma_count_matching_swap(s, i, j, |o: Option<Particle>| kind_of(o) == Some(k));
    }
}

/// Marking a particle as handled keeps it in place and keeps its kind:
/// every count is unchanged.
proof fn lemma_counts_tick(s: Seq<Option<Particle>>, i: int)
    requires
        0 <= i < s.len(),
    ensures
        count_occupied(tick_at(s, i)) == count_occupied(s),
        forall|k: ParticleKind| #[trigger] count_kind(tick_at(s, i), k) == count_kind(s, k),
{
    match s[i] {
        Some(p) => {
            let v = Some(Particle { kind: p.kind, ticked: true });
            lemma_count_matching_update(s, i, v, |o: Option<Particle>| o is Some);
            assert forall|k: ParticleKind| #[trigger] count_kind(tick_at(s, i), k) == count_kind(
                s,
                k,
            ) by {
                lemma_count_matching_update(s, i, v, |o: Option<Particle>| kind_of(o) == Some(k));
            }
        },
        None => {},
    }
}

proof fn lemma_count_matching_map_untick(
    s: Seq<Option<Particle>>,
    f: spec_fn(Option<Particle>) -> bool,
)
    requires
        forall|o: Option<Particle>| #[trigger] f(untick(o)) == f(o),
    ensures
        count_matching(unticked(s), f) == count_matching(s, f),
    decreases s.len(),
{
    if s.len() == 0 {
        assert(unticked(s) =~= Seq::<Option<Particle>>::empty());
    } else {
        assert(unticked(s).drop_first() =~= unticked(s.drop_first()));
        lemma_count_matching_map_untick(s.drop_first(), f);
        assert(unticked(s)[0] == untick(s[0]));
    }
}

/// Clearing every per-frame flag neither moves nor changes any particle:
/// every count is unchanged.
pub proof fn lemma_counts_unticked(s: Seq<Option<Particle>>)
    ensures
        count_occupied(unticked(s)) == count_occupied(s),
        forall|k: ParticleKind| #[trigger] count_kind(unticked(s), k) == count_kind(s, k),
{
    lemma_count_matching_map_untick(s, |o: Option<Particle>| o is Some);
    assert forall|k: ParticleKind| #[trigger] count_kind(unticked(s), k) == count_kind(s, k) by {
        lemma_count_matching_map_untick(s, |o: Option<Particle>| kind_of(o) == Some(k));
    }
}

/// Conservation, and each occupant traced to one origin: one simulation
/// step moves particles by swaps only, so for any grid, either tie-break
/// choice and every kind, the number of occupied cells and the number of
/// occupants of each kind are exactly preserved.
pub proof fn lemma_simulate_conserves(
    s: Seq<Option<Particle>>,
    w: int,
    h: int,
    x: int,
    y: int,
    b1: bool,
    b2: bool,
)
    requires
        0 <= x < w,
        0 <= y < h,
        s.len() == w * h,
    ensures
        count_occupied(simulate_spec(s, w, h, x, y, b1, b2)) == count_occupied(s),
        forall|k: ParticleKind| #[trigger] count_kind(simulate_spec(s, w, h, x, y, b1, b2), k)
            == count_kind(s, k),
        simulate_spec(s, w, h, x, y, b1, b2).len() == s.len(),
{
    let i = sidx(w, x, y);
    lemma_sidx_bounds(w, h, x, y);
    match s[i] {
        None => {},
        Some(p) => {
            if p.ticked {
            } else {
                let s1 = tick_at(s, i);
                lemma_counts_tick(s, i);
                assert(s1.len() == s.len());
                match p.kind {
                    ParticleKind::Wood => {},
                    ParticleKind::Sand => {
                        lemma_sand_move_conserves(s1, w, h, x, y, b1);
                    },
                    ParticleKind::Water => {
                        lemma_water_move_conserves(s1, w, h, x, y, b1, b2);
                    },
                }
            }
        },
    }
}

/// Bottom-row stability: a step at a coordinate on the bottom row never
/// moves its particle — whatever its kind and whatever the tie-breaks, the
/// step at most marks the occupant as handled, and every other cell is
/// untouched.
pub proof fn lemma_simulate_bottom_row(
    s: Seq<Option<Particle>>,
    w: int,
    h: int,
    x: int,
    y: int,
    b1: bool,
    b2: bool,
)
    requires
        0 <= x < w,
        0 <= y,
        y == h - 1,
        s.len() == w * h,
    ensures
        simulate_spec(s, w, h, x, y, b1, b2) == tick_at(s, sidx(w, x, y)),
{
    let i = sidx(w, x, y);
    lemma_sidx_bounds(w, h, x, y);
    match s[i] {
        None => {},
        Some(p) => {
            if p.ticked {
                assert(p == (Particle { kind: p.kind, ticked: true }));
                assert(tick_at(s, i) =~= s);
            }
        },
    }
}

/// A step at an empty cell, or at a particle already marked as handled this
/// frame, changes nothing at all.
pub proof fn lemma_simulate_handled_noop(
    s: Seq<Option<Particle>>,
    w: int,
    h: int,
    x: int,
    y: int,
    b1: bool,
    b2: bool,
)
    requires
        s[sidx(w, x, y)] is Some ==> s[sidx(w, x, y)]->0.ticked,
    ensures
        simulate_spec(s, w, h, x, y, b1, b2) == s,
{
}

/// After a step at `(x, y)` in a scan where the three cells directly below
/// hold no unhandled particle, the cell at `(x, y)` itself is empty or
/// holds a handled particle: its own occupant was marked in place, moved
/// away, or was replaced by something already handled.
pub proof fn lemma_simulate_steps_cell(
    s: Seq<Option<Particle>>,
    w: int,
    h: int,
    x: int,
    y: int,
    b1: bool,
    b2: bool,
)
    requires
        0 <= x < w,
        0 <= y < h,
        s.len() == w * h,
        forall|tx: int|
            x - 1 <= tx <= x + 1 && 0 <= tx < w && y + 1 < h && (#[trigger] s[sidx(
                w,
                tx,
                y + 1,
            )]) is Some ==> s[sidx(w, tx, y + 1)]->0.ticked,
    ensures
        simulate_spec(s, w, h, x, y, b1, b2)[sidx(w, x, y)] is Some ==> simulate_spec(
            s,
            w,
            h,
            x,
            y,
            b1,
            b2,
        )[sidx(w, x, y)]->0.ticked,
{
    let i = sidx(w, x, y);
    let r1 = simulate_spec(s, w, h, x, y, b1, b2);
    lemma_sidx_bounds(w, h, x, y);
    match s[i] {
        None => {},
        Some(p) => {
            if !p.ticked {
                let s1 = tick_at(s, i);
                match p.kind {
                    ParticleKind::Wood => {},
                    ParticleKind::Sand => {
                        if y == h - 1 {
                        } else if !crate::particles::solid_at(s1, w, x, y + 1) {
                            lemma_sidx_bounds(w, h, x, y + 1);
                            lemma_sidx_distinct(w, x, y, x, y + 1);
                            assert(r1[i] == s1[sidx(w, x, y + 1)]);
                            assert(s1[sidx(w, x, y + 1)] == s[sidx(w, x, y + 1)]);
                        } else {
                            match sand_diag(s1, w, x, y, b1) {
                                Some(tx) => {
                                    lemma_sidx_bounds(w, h, tx, y + 1);
                                    lemma_sidx_bounds(w, h, tx, y);
                                    lemma_sidx_distinct(w, x, y, tx, y + 1);
                                    lemma_sidx_distinct(w, x, y, tx, y);
                                    lemma_sidx_distinct(w, tx, y, tx, y + 1);
                                    if empty_at(s1, w, tx, y) {
                                        let s2 = swap_at(s1, sidx(w, tx, y + 1), sidx(w, tx, y));
                                        assert(r1[i] == s2[sidx(w, tx, y + 1)]);
                                        assert(s2[sidx(w, tx, y + 1)] == s1[sidx(w, tx, y)]);
                                        assert(r1[i] is None);
                                    } else {
                                        assert(r1[i] == s1[sidx(w, tx, y + 1)]);
                                        assert(s1[sidx(w, tx, y + 1)] == s[sidx(w, tx, y + 1)]);
                                    }
                                },
                                None => {},
                            }
                        }
                    },
                    ParticleKind::Water => {
                        if y == h - 1 {
                        } else if empty_at(s1, w, x, y + 1) {
                            lemma_sidx_bounds(w, h, x, y + 1);
                            lemma_sidx_distinct(w, x, y, x, y + 1);
                            assert(r1[i] == s1[sidx(w, x, y + 1)]);
                        } else {
                            match water_diag(s1, w, x, y, b1) {
                                Some(tx) => {
                                    lemma_sidx_bounds(w, h, tx, y + 1);
                                    lemma_sidx_distinct(w, x, y, tx, y + 1);
                                    assert(r1[i] == s1[sidx(w, tx, y + 1)]);
                                },
                                None => {
                                    match water_side(s1, w, x, y, b2) {
                                        Some(tx) => {
                                            lemma_sidx_bounds(w, h, tx, y);
                                            lemma_sidx_distinct(w, x, y, tx, y);
                                            assert(r1[i] == s1[sidx(w, tx, y)]);
                                        },
                                        None => {},
                                    }
                                },
                            }
                        }
                    },
                }
            }
        },
    }
    assert(r1[i] is Some ==> r1[i]->0.ticked);
}

/// Idempotent re-invocation: a second step at the same coordinate within
/// one frame changes nothing further. The hypothesis is what the bottom-up
/// scan provides: the three cells directly below the coordinate hold no
/// particle that is still unhandled, so whatever the first step left at the
/// coordinate is empty or already marked.
pub proof fn lemma_simulate_idempotent(
    s: Seq<Option<Particle>>,
    w: int,
    h: int,
    x: int,
    y: int,
    b1: bool,
    b2: bool,
    b3: bool,
    b4: bool,
)
    requires
        0 <= x < w,
        0 <= y < h,
        s.len() == w * h,
        forall|tx: int|
            x - 1 <= tx <= x + 1 && 0 <= tx < w && y + 1 < h && (#[trigger] s[sidx(
                w,
                tx,
                y + 1,
            )]) is Some ==> s[sidx(w, tx, y + 1)]->0.ticked,
    ensures
        simulate_spec(simulate_spec(s, w, h, x, y, b1, b2), w, h, x, y, b3, b4) == simulate_spec(
            s,
            w,
            h,
            x,
            y,
            b1,
            b2,
        ),
{
    lemma_simulate_steps_cell(s, w, h, x, y, b1, b2);
    lemma_simulate_handled_noop(simulate_spec(s, w, h, x, y, b1, b2), w, h, x, y, b3, b4);
}

/// At-most-once movement: whatever one step moved now carries the handled
/// mark, so by `lemma_simulate_handled_noop` no later step of the frame
/// moves it again — every occupant still unmarked after the step sits
/// exactly where it sat before. The hypothesis is what the bottom-up scan
/// provides: the three cells directly below the coordinate hold no particle
/// that is still unhandled.
pub proof fn lemma_simulate_moved_is_marked(
    s: Seq<Option<Particle>>,
    w: int,
    h: int,
    x: int,
    y: int,
    b1: bool,
    b2: bool,
)
    requires
        0 <= x < w,
        0 <= y < h,
        s.len() == w * h,
        forall|tx: int|
            x - 1 <= tx <= x + 1 && 0 <= tx < w && y + 1 < h && (#[trigger] s[sidx(
                w,
                tx,
                y + 1,
            )]) is Some ==> s[sidx(w, tx, y + 1)]->0.ticked,
    ensures
        forall|j: int|
            0 <= j < s.len() && (#[trigger] simulate_spec(s, w, h, x, y, b1, b2)[j]) is Some && !(
            simulate_spec(s, w, h, x, y, b1, b2)[j]->0.ticked) ==> simulate_spec(
                s,
                w,
                h,
                x,
                y,
                b1,
                b2,
            )[j] == s[j],
{
    let i = sidx(w, x, y);
    let r1 = simulate_spec(s, w, h, x, y, b1, b2);
    lemma_sidx_bounds(w, h, x, y);
    match s[i] {
        None => {},
        Some(p) => {
            if !p.ticked {
                let s1 = tick_at(s, i);
                assert forall|j: int|
                    0 <= j < s.len() && (#[trigger] r1[j]) is Some && !(r1[j]->0.ticked) implies r1[j]
                    == s[j] by {
                    match p.kind {
                        ParticleKind::Wood => {},
                        ParticleKind::Sand => {
                            if y == h - 1 {
                            } else if !crate::particles::solid_at(s1, w, x, y + 1) {
                                lemma_sidx_bounds(w, h, x, y + 1);
                                lemma_sidx_distinct(w, x, y, x, y + 1);
                                assert(r1[sidx(w, x, y + 1)] == s1[i]);
                                assert(r1[i] == s1[sidx(w, x, y + 1)]);
                            } else {
                                match sand_diag(s1, w, x, y, b1) {
                                    Some(tx) => {
                                        let it = sidx(w, tx, y + 1);
                                        let is_ = sidx(w, tx, y);
                                        lemma_sidx_bounds(w, h, tx, y + 1);
                                        lemma_sidx_bounds(w, h, tx, y);
                                        lemma_sidx_distinct(w, x, y, tx, y + 1);
                                        lemma_sidx_distinct(w, x, y, tx, y);
                                        lemma_sidx_distinct(w, tx, y, tx, y + 1);
                                        if empty_at(s1, w, tx, y) {
                                            let s2 = swap_at(s1, it, is_);
                                            assert(r1[i] == s2[it] && s2[it] == s1[is_]);
                                            assert(r1[it] == s2[i] && s2[i] == s1[i]);
                                            assert(r1[is_] == s2[is_] && s2[is_] == s1[it]);
                                        } else {
                                            assert(r1[i] == s1[it]);
                                            assert(r1[it] == s1[i]);
                                        }
                                    },
                                    None => {},
                                }
                            }
                        },
                        ParticleKind::Water => {
                            if y == h - 1 {
                            } else if empty_at(s1, w, x, y + 1) {
                                lemma_sidx_bounds(w, h, x, y + 1);
                                lemma_sidx_distinct(w, x, y, x, y + 1);
                                assert(r1[sidx(w, x, y + 1)] == s1[i]);
                                assert(r1[i] == s1[sidx(w, x, y + 1)]);
                            } else {
                                match water_diag(s1, w, x, y, b1) {
                                    Some(tx) => {
                                        lemma_sidx_bounds(w, h, tx, y + 1);
                                        lemma_sidx_distinct(w, x, y, tx, y + 1);
                                        assert(r1[sidx(w, tx, y + 1)] == s1[i]);
                                        assert(r1[i] == s1[sidx(w, tx, y + 1)]);
                                    },
                                    None => {
                                        match water_side(s1, w, x, y, b2) {
                                            Some(tx) => {
                                                lemma_sidx_bounds(w, h, tx, y);
                                                lemma_sidx_distinct(w, x, y, tx, y);
                                                assert(r1[sidx(w, tx, y)] == s1[i]);
                                                assert(r1[i] == s1[sidx(w, tx, y)]);
                                            },
                                            None => {},
                                        }
                                    },
                                }
                            }
                        },
                    }
                }
            }
        },
    }
}

/// Determinism apart from the explicit random draws: two equal grids
/// stepped at one coordinate with equal tie-break draws are equal
/// afterwards. A fixed seed fixes the draw stream, so whole frame sequences
/// reproduce bit for bit.
pub proof fn lemma_simulate_deterministic(
    s: Seq<Option<Particle>>,
    t: Seq<Option<Particle>>,
    w: int,
    h: int,
    x: int,
    y: int,
    b1: bool,
    b2: bool,
)
    requires
        s == t,
    ensures
        simulate_spec(s, w, h, x, y, b1, b2) == simulate_spec(t, w, h, x, y, b1, b2),
{
}

proof fn lemma_sand_move_conserves(
    s: Seq<Option<Particle>>,
    w: int,
    h: int,
    x: int,
    y: int,
    b: bool,
)
    requires
        0 <= x < w,
        0 <= y < h,
        s.len() == w * h,
    ensures
        count_occupied(sand_move(s, w, h, x, y, b)) == count_occupied(s),
        forall|k: ParticleKind| #[trigger] count_kind(sand_move(s, w, h, x, y, b), k) == count_kind(
            s,
            k,
        ),
        sand_move(s, w, h, x, y, b).len() == s.len(),
{
    if y == h - 1 {
    } else if !crate::particles::solid_at(s, w, x, y + 1) {
        lemma_sidx_bounds(w, h, x, y);
        lemma_sidx_bounds(w, h, x, y + 1);
        lemma_counts_swap(s, sidx(w, x, y), sidx(w, x, y + 1));
    } else {
        match sand_diag(s, w, x, y, b) {
            Some(tx) => {
                lemma_sidx_bounds(w, h, x, y);
                lemma_sidx_bounds(w, h, tx, y);
                lemma_sidx_bounds(w, h, tx, y + 1);
                if empty_at(s, w, tx, y) {
                    let s2 = swap_at(s, sidx(w, tx, y + 1), sidx(w, tx, y));
                    lemma_counts_swap(s, sidx(w, tx, y + 1), sidx(w, tx, y));
                    lemma_counts_swap(s2, sidx(w, x, y), sidx(w, tx, y + 1));
                } else {
                    lemma_counts_swap(s, sidx(w, x, y), sidx(w, tx, y + 1));
                }
            },
            None => {},
        }
    }
}

proof fn lemma_water_move_conserves(
    s: Seq<Option<Particle>>,
    w: int,
    h: int,
    x: int,
    y: int,
    b1: bool,
    b2: bool,
)
    requires
        0 <= x < w,
        0 <= y < h,
        s.len() == w * h,
    ensures
        count_occupied(water_move(s, w, h, x, y, b1, b2)) == count_occupied(s),
        forall|k: ParticleKind| #[trigger] count_kind(water_move(s, w, h, x, y, b1, b2), k)
            == count_kind(s, k),
        water_move(s, w, h, x, y, b1, b2).len() == s.len(),
{
    if y == h - 1 {
    } else if empty_at(s, w, x, y + 1) {
        lemma_sidx_bounds(w, h, x, y);
        lemma_sidx_bounds(w, h, x, y + 1);
        lemma_counts_swap(s, sidx(w, x, y), sidx(w, x, y + 1));
    } else {
        match water_diag(s, w, x, y, b1) {
            Some(tx) => {
                lemma_sidx_bounds(w, h, x, y);
                lemma_sidx_bounds(w, h, tx, y + 1);
                lemma_counts_swap(s, sidx(w, x, y), sidx(w, tx, y + 1));
            },
            None => {
                match water_side(s, w, x, y, b2) {
                    Some(tx) => {
                        lemma_sidx_bounds(w, h, x, y);
                        lemma_sidx_bounds(w, h, tx, y);
                        lemma_counts_swap(s, sidx(w, x, y), sidx(w, tx, y));
                    },
                    None => {},
                }
            },
        }
    }
}

proof fn lemma_row_scan_marks(
    s: Seq<Option<Particle>>,
    w: int,
    h: int,
    y: int,
    rtl: bool,
    done: int,
    cd: Seq<(bool, bool)>,
)
    requires
        0 <= y < h,
        s.len() == w * h,
        0 <= done,
        done + cd.len() == w,
        marked_from(s, w, h, y + 1),
        forall|px: int|
            0 <= px < w && (if rtl {
                px >= w - done
            } else {
                px < done
            }) && (#[trigger] s[sidx(w, px, y)]) is Some ==> s[sidx(w, px, y)]->0.ticked,
    ensures
        marked_from(row_scan(s, w, h, y, rtl, done, cd), w, h, y),
        row_scan(s, w, h, y, rtl, done, cd).len() == s.len(),
    decreases cd.len(),
{
    if cd.len() == 0 {
        assert(marked_from(s, w, h, y)) by {
            assert forall|px: int, py: int|
                0 <= px < w && y <= py < h && (#[trigger] s[sidx(w, px, py)]) is Some implies s[
                sidx(w, px, py)]->0.ticked by {
                if py == y {
                    assert(px >= w - done || px < done);
                }
            }
        }
    } else {
        let x0 = if rtl {
            w - 1 - done
        } else {
            done
        };
        let s2 = simulate_spec(s, w, h, x0, y, cd[0].0, cd[0].1);
        lemma_simulate_moved_is_marked(s, w, h, x0, y, cd[0].0, cd[0].1);
        lemma_simulate_steps_cell(s, w, h, x0, y, cd[0].0, cd[0].1);
        lemma_simulate_conserves(s, w, h, x0, y, cd[0].0, cd[0].1);
        assert(s2.len() == s.len());
        assert(marked_from(s2, w, h, y + 1)) by {
            assert forall|px: int, py: int|
                0 <= px < w && y + 1 <= py < h && (#[trigger] s2[sidx(w, px, py)]) is Some implies
                s2[sidx(w, px, py)]->0.ticked by {
                lemma_sidx_bounds(w, h, px, py);
                if !s2[sidx(w, px, py)]->0.ticked {
                    assert(s2[sidx(w, px, py)] == s[sidx(w, px, py)]);
                }
            }
        }
        assert forall|px: int|
            0 <= px < w && (if rtl {
                px >= w - (done + 1)
            } else {
                px < done + 1
            }) && (#[trigger] s2[sidx(w, px, y)]) is Some implies s2[sidx(w, px, y)]->0.ticked by {
            lemma_sidx_bounds(w, h, px, y);
            if px != x0 && !s2[sidx(w, px, y)]->0.ticked {
                assert(s2[sidx(w, px, y)] == s[sidx(w, px, y)]);
            }
        }
        lemma_row_scan_marks(s2, w, h, y, rtl, done + 1, cd.drop_first());
    }
}

proof fn lemma_rows_scan_marks(
    s: Seq<Option<Particle>>,
    w: int,
    h: int,
    done: int,
    rows: Seq<(bool, Seq<(bool, bool)>)>,
)
    requires
        s.len() == w * h,
        0 <= done,
        done + rows.len() == h,
        forall|r: int| 0 <= r < rows.len() ==> (#[trigger] rows[r]).1.len() == w,
        marked_from(s, w, h, h - done),
    ensures
        marked_from(rows_scan(s, w, h, done, rows), w, h, h - done - rows.len()),
    decreases rows.len(),
{
    if rows.len() == 0 {
    } else {
        let y = h - 1 - done;
        let s2 = row_scan(s, w, h, y, rows[0].0, 0, rows[0].1);
        lemma_row_scan_marks(s, w, h, y, rows[0].0, 0, rows[0].1);
        assert(forall|r: int|
            0 <= r < rows.drop_first().len() ==> (#[trigger] rows.drop_first()[r]).1.len() == w);
        lemma_rows_scan_marks(s2, w, h, done + 1, rows.drop_first());
    }
}

/// After one full frame — every row swept once, one step per cell — every
/// occupant of the grid carries the handled mark. Together with
/// `lemma_simulate_handled_noop` this is the frame-level at-most-once
/// guarantee: each particle got at most its one turn, and re-running any
/// step of the finished frame would change nothing.
pub proof fn lemma_frame_spec_all_marked(
    s: Seq<Option<Particle>>,
    w: int,
    h: int,
    rows: Seq<(bool, Seq<(bool, bool)>)>,
)
    requires
        s.len() == w * h,
        rows.len() == h,
        forall|r: int| 0 <= r < rows.len() ==> (#[trigger] rows[r]).1.len() == w,
    ensures
        marked_from(frame_spec(s, w, h, rows), w, h, 0),
{
    assert(unticked(s).len() == s.len());
    lemma_rows_scan_marks(unticked(s), w, h, 0, rows);
}

} // verus!
