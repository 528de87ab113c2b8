use sander::grid::{Coord, Grid, Point};
use sander::particles::{Particle, ParticleKind, Simulator};

fn coord(g: &Grid<Particle>, x: isize, y: isize) -> Coord {
    g.to_coord(Point { x, y }).unwrap()
}

fn put(g: &mut Grid<Particle>, x: isize, y: isize, kind: ParticleKind) {
    let c = coord(g, x, y);
    g.set(&c, Particle::new(kind));
}

fn kind_at(g: &Grid<Particle>, x: isize, y: isize) -> Option<ParticleKind> {
    let c = coord(g, x, y);
    g.get(&c).value.map(|p| p.kind)
}

fn occupied(g: &Grid<Particle>) -> usize {
    g.iter().iter().filter(|c| !c.value.is_none()).count()
}

fn kind_count(g: &Grid<Particle>, k: ParticleKind) -> usize {
    g.iter()
        .iter()
        .filter(|c| c.value.map(|p| p.kind) == Some(k))
        .count()
}

fn snapshot(g: &Grid<Particle>) -> Vec<Option<(ParticleKind, bool)>> {
    g.iter().iter().map(|c| c.value.map(|p| (p.kind, p.ticked))).collect()
}

#[test]
fn sand_settles_to_the_bottom() {
    // A single grain over an empty 3x3 world falls one row per frame and
    // then rests on the bottom row.
    let mut g: Grid<Particle> = Grid::new(3, 3);
    put(&mut g, 1, 0, ParticleKind::Sand);
    let mut sim = Simulator::from_seed(42);

    sim.frame(&mut g);
    assert_eq!(kind_at(&g, 1, 0), None);
    assert_eq!(kind_at(&g, 1, 1), Some(ParticleKind::Sand));

    sim.frame(&mut g);
    assert_eq!(kind_at(&g, 1, 1), None);
    assert_eq!(kind_at(&g, 1, 2), Some(ParticleKind::Sand));

    sim.frame(&mut g);
    assert_eq!(kind_at(&g, 1, 2), Some(ParticleKind::Sand));
    assert_eq!(occupied(&g), 1);
}

#[test]
fn water_spreads_to_the_first_empty_side() {
    // Water on a solid floor with both sides free moves laterally; which
    // side is taken is decided by the tie-break draw.
    for side_right_first in [false, true] {
        let mut g: Grid<Particle> = Grid::new(5, 2);
        for x in 0..5 {
            put(&mut g, x, 1, ParticleKind::Wood);
        }
        put(&mut g, 2, 0, ParticleKind::Water);
        let c = coord(&g, 2, 0);
        Simulator::simulate_with(&mut g, &c, false, side_right_first);
        assert_eq!(kind_at(&g, 2, 0), None);
        if side_right_first {
            assert_eq!(kind_at(&g, 3, 0), Some(ParticleKind::Water));
        } else {
            assert_eq!(kind_at(&g, 1, 0), Some(ParticleKind::Water));
        }
    }
}

#[test]
fn water_spread_is_taken_under_full_frames() {
    // The same scenario driven by whole frames with varied seeds: the water
    // always ends on one of the two free sides, and over many seeds both
    // sides occur.
    let mut to_left = 0;
    let mut to_right = 0;
    for seed in 0..64u64 {
        let mut g: Grid<Particle> = Grid::new(5, 2);
        for x in 0..5 {
            put(&mut g, x, 1, ParticleKind::Wood);
        }
        put(&mut g, 2, 0, ParticleKind::Water);
        let mut sim = Simulator::from_seed(seed);
        sim.frame(&mut g);
        assert_eq!(kind_at(&g, 2, 0), None);
        match (kind_at(&g, 1, 0), kind_at(&g, 3, 0)) {
            (Some(ParticleKind::Water), None) => to_left += 1,
            (None, Some(ParticleKind::Water)) => to_right += 1,
            other => panic!("water in an unexpected place: {:?}", other),
        }
    }
    assert!(to_left > 0);
    assert!(to_right > 0);
}

#[test]
fn sand_blocked_by_wood_never_moves() {
    // Wood fills the whole row below the grain, diagonals included: the
    // sand's coordinate never changes, frame after frame.
    let mut g: Grid<Particle> = Grid::new(3, 3);
    put(&mut g, 1, 1, ParticleKind::Sand);
    for x in 0..3 {
        put(&mut g, x, 2, ParticleKind::Wood);
    }
    let mut sim = Simulator::from_seed(5);
    for _ in 0..10 {
        sim.frame(&mut g);
        assert_eq!(kind_at(&g, 1, 1), Some(ParticleKind::Sand));
        for x in 0..3 {
            assert_eq!(kind_at(&g, x, 2), Some(ParticleKind::Wood));
        }
        assert_eq!(kind_at(&g, 1, 0), None);
    }
}

#[test]
fn frames_conserve_every_count() {
    // Movement is swap-only: over many frames of a mixed scene, the number
    // of occupied cells and of occupants of each kind never changes.
    let mut g: Grid<Particle> = Grid::new(8, 8);
    for x in 0..8 {
        put(&mut g, x, 7, ParticleKind::Wood);
    }
    for x in 1..6 {
        put(&mut g, x, 0, ParticleKind::Sand);
    }
    for x in 2..7 {
        put(&mut g, x, 2, ParticleKind::Water);
    }
    put(&mut g, 4, 4, ParticleKind::Wood);
    let before_occupied = occupied(&g);
    let before_sand = kind_count(&g, ParticleKind::Sand);
    let before_water = kind_count(&g, ParticleKind::Water);
    let before_wood = kind_count(&g, ParticleKind::Wood);

    let mut sim = Simulator::from_seed(2024);
    for _ in 0..20 {
        sim.frame(&mut g);
        assert_eq!(occupied(&g), before_occupied);
        assert_eq!(kind_count(&g, ParticleKind::Sand), before_sand);
        assert_eq!(kind_count(&g, ParticleKind::Water), before_water);
        assert_eq!(kind_count(&g, ParticleKind::Wood), before_wood);
    }
}

#[test]
fn bottom_row_particle_never_moves() {
    // A step at a bottom-row coordinate at most marks the occupant.
    let mut g: Grid<Particle> = Grid::new(3, 2);
    put(&mut g, 1, 1, ParticleKind::Water);
    let c = coord(&g, 1, 1);
    Simulator::simulate_with(&mut g, &c, true, true);
    assert_eq!(kind_at(&g, 1, 1), Some(ParticleKind::Water));
    assert_eq!(occupied(&g), 1);
}

#[test]
fn second_step_at_a_coordinate_changes_nothing() {
    // Once the first step has run at a coordinate, running it again in the
    // same frame has no further effect: the grain moved away and left an
    // empty cell behind.
    let mut g: Grid<Particle> = Grid::new(3, 3);
    put(&mut g, 1, 0, ParticleKind::Sand);
    let c = coord(&g, 1, 0);
    Simulator::simulate_with(&mut g, &c, true, true);
    let after_first = snapshot(&g);
    Simulator::simulate_with(&mut g, &c, true, true);
    assert_eq!(snapshot(&g), after_first);
    Simulator::simulate_with(&mut g, &c, false, false);
    assert_eq!(snapshot(&g), after_first);
}

#[test]
fn handled_particle_does_not_move_again() {
    // A particle whose flag is already set is skipped entirely.
    let mut g: Grid<Particle> = Grid::new(3, 3);
    put(&mut g, 1, 1, ParticleKind::Wood);
    let c = coord(&g, 1, 1);
    Simulator::simulate_with(&mut g, &c, true, true);
    assert!(g.get(&c).value.unwrap().ticked);
    let after_first = snapshot(&g);
    Simulator::simulate_with(&mut g, &c, false, true);
    assert_eq!(snapshot(&g), after_first);
}

#[test]
fn fixed_seed_reproduces_frames_exactly() {
    // Two simulators built from one seed drive bit-identical runs on equal
    // initial grids.
    let build = || {
        let mut g: Grid<Particle> = Grid::new(6, 6);
        for x in 0..6 {
            put(&mut g, x, 5, ParticleKind::Wood);
        }
        for x in 0..4 {
            put(&mut g, x, 0, ParticleKind::Sand);
        }
        for x in 3..6 {
            put(&mut g, x, 1, ParticleKind::Water);
        }
        g
    };
    let mut g1 = build();
    let mut g2 = build();
    let mut sim1 = Simulator::from_seed(99);
    let mut sim2 = Simulator::from_seed(99);
    for _ in 0..15 {
        sim1.frame(&mut g1);
        sim2.frame(&mut g2);
        assert_eq!(snapshot(&g1), snapshot(&g2));
    }
}

#[test]
fn sand_falls_through_water() {
    // The cell below holds water, which is not solid: the two swap, so the
    // water ends up where the sand was.
    let mut g: Grid<Particle> = Grid::new(1, 3);
    put(&mut g, 0, 0, ParticleKind::Sand);
    put(&mut g, 0, 1, ParticleKind::Water);
    let c = coord(&g, 0, 0);
    Simulator::simulate_with(&mut g, &c, true, true);
    assert_eq!(kind_at(&g, 0, 0), Some(ParticleKind::Water));
    assert_eq!(kind_at(&g, 0, 1), Some(ParticleKind::Sand));
}

#[test]
fn sand_takes_the_free_diagonal() {
    // Straight down is wood; the first diagonal tried is taken when free.
    let mut g: Grid<Particle> = Grid::new(3, 2);
    put(&mut g, 1, 0, ParticleKind::Sand);
    put(&mut g, 1, 1, ParticleKind::Wood);
    let c = coord(&g, 1, 0);
    Simulator::simulate_with(&mut g, &c, true, true);
    assert_eq!(kind_at(&g, 1, 0), None);
    assert_eq!(kind_at(&g, 2, 1), Some(ParticleKind::Sand));
}

#[test]
fn sand_diagonal_relocates_water_upward() {
    // The anti-climb correction: the water occupying the diagonal landing
    // is first moved up into the empty cell above it, then the sand swaps
    // into the landing, so the water does not ride up the slope.
    let mut g: Grid<Particle> = Grid::new(3, 2);
    put(&mut g, 1, 0, ParticleKind::Sand);
    put(&mut g, 1, 1, ParticleKind::Wood);
    put(&mut g, 0, 1, ParticleKind::Water);
    put(&mut g, 2, 1, ParticleKind::Wood);
    let c = coord(&g, 1, 0);
    // Left diagonal first: its occupant is water, which does not block.
    Simulator::simulate_with(&mut g, &c, false, false);
    assert_eq!(kind_at(&g, 0, 0), Some(ParticleKind::Water));
    assert_eq!(kind_at(&g, 0, 1), Some(ParticleKind::Sand));
    assert_eq!(kind_at(&g, 1, 0), None);
}

#[test]
fn water_falls_into_the_empty_cell_below() {
    let mut g: Grid<Particle> = Grid::new(1, 3);
    put(&mut g, 0, 0, ParticleKind::Water);
    let c = coord(&g, 0, 0);
    Simulator::simulate_with(&mut g, &c, true, true);
    assert_eq!(kind_at(&g, 0, 0), None);
    assert_eq!(kind_at(&g, 0, 1), Some(ParticleKind::Water));
}

#[test]
fn water_does_not_fall_into_water() {
    // Water below is not empty, the diagonals are wood, both sides are
    // walls: the water rests.
    let mut g: Grid<Particle> = Grid::new(1, 3);
    put(&mut g, 0, 0, ParticleKind::Water);
    put(&mut g, 0, 1, ParticleKind::Water);
    let c = coord(&g, 0, 0);
    Simulator::simulate_with(&mut g, &c, true, true);
    assert_eq!(kind_at(&g, 0, 0), Some(ParticleKind::Water));
    assert_eq!(kind_at(&g, 0, 1), Some(ParticleKind::Water));
}

#[test]
fn water_takes_the_free_diagonal() {
    let mut g: Grid<Particle> = Grid::new(3, 2);
    put(&mut g, 1, 0, ParticleKind::Water);
    put(&mut g, 1, 1, ParticleKind::Wood);
    put(&mut g, 2, 1, ParticleKind::Wood);
    let c = coord(&g, 1, 0);
    // Right diagonal first, but it is wood; the left one is empty.
    Simulator::simulate_with(&mut g, &c, true, true);
    assert_eq!(kind_at(&g, 1, 0), None);
    assert_eq!(kind_at(&g, 0, 1), Some(ParticleKind::Water));
}

#[test]
fn wood_never_moves() {
    let mut g: Grid<Particle> = Grid::new(3, 3);
    put(&mut g, 1, 0, ParticleKind::Wood);
    let mut sim = Simulator::from_seed(1);
    for _ in 0..5 {
        sim.frame(&mut g);
        assert_eq!(kind_at(&g, 1, 0), Some(ParticleKind::Wood));
        assert_eq!(occupied(&g), 1);
    }
}

#[test]
fn init_clears_every_flag() {
    let mut g: Grid<Particle> = Grid::new(2, 2);
    put(&mut g, 0, 1, ParticleKind::Wood);
    put(&mut g, 1, 1, ParticleKind::Sand);
    let c0 = coord(&g, 0, 1);
    let c1 = coord(&g, 1, 1);
    Simulator::simulate_with(&mut g, &c0, true, true);
    Simulator::simulate_with(&mut g, &c1, true, true);
    assert!(g.get(&c0).value.unwrap().ticked);
    assert!(g.get(&c1).value.unwrap().ticked);
    let mut sim = Simulator::new();
    sim.init(&mut g);
    assert!(!g.get(&c0).value.unwrap().ticked);
    assert!(!g.get(&c1).value.unwrap().ticked);
    assert_eq!(kind_at(&g, 0, 1), Some(ParticleKind::Wood));
    assert_eq!(kind_at(&g, 1, 1), Some(ParticleKind::Sand));
}

#[test]
fn frame_marks_every_occupant() {
    // After one full frame every occupant carries the handled mark: each
    // particle had at most its one turn.
    let mut g: Grid<Particle> = Grid::new(6, 5);
    for x in 0..6 {
        put(&mut g, x, 4, ParticleKind::Wood);
    }
    for x in 0..4 {
        put(&mut g, x, 0, ParticleKind::Sand);
    }
    for x in 2..6 {
        put(&mut g, x, 1, ParticleKind::Water);
    }
    let mut sim = Simulator::from_seed(7);
    sim.frame(&mut g);
    for cell in g.iter() {
        if let Some(p) = &cell.value {
            assert!(p.ticked);
        }
    }
}

#[test]
fn empty_grid_frame_is_a_no_op() {
    let mut g: Grid<Particle> = Grid::new(4, 4);
    let mut sim = Simulator::from_seed(0);
    sim.frame(&mut g);
    assert_eq!(occupied(&g), 0);
}
