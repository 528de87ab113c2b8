use sander::grid::{Coord, Grid, Point};
use sander::particles::{Particle, ParticleKind};
use sander::rng::SimRng;

fn coord(x: isize, y: isize, w: isize, h: isize) -> Coord {
    Coord::new(Point { x, y }, w, h).unwrap()
}

#[test]
fn coord_new_accepts_in_bounds() {
    let c = Coord::new(Point { x: 2, y: 3 }, 4, 5).unwrap();
    assert_eq!(c.p.x, 2);
    assert_eq!(c.p.y, 3);
    assert_eq!(c.world_width, 4);
    assert_eq!(c.world_height, 5);
}

#[test]
fn coord_new_rejects_out_of_bounds() {
    assert!(Coord::new(Point { x: 4, y: 0 }, 4, 5).is_none());
    assert!(Coord::new(Point { x: 0, y: 5 }, 4, 5).is_none());
    assert!(Coord::new(Point { x: -1, y: 0 }, 4, 5).is_none());
    assert!(Coord::new(Point { x: 0, y: -1 }, 4, 5).is_none());
}

#[test]
fn move_by_stays_in_bounds() {
    let c = coord(1, 1, 3, 3);
    let moved = c.move_by(1, 1).unwrap();
    assert_eq!(moved.p.x, 2);
    assert_eq!(moved.p.y, 2);
    assert!(c.move_by(-2, 0).is_none());
    assert!(c.move_by(0, 2).is_none());
    assert!(c.move_by(2, 0).is_none());
}

#[test]
fn move_by_extreme_offsets_are_filtered() {
    let c = coord(1, 1, 3, 3);
    assert!(c.move_by(isize::MAX, 0).is_none());
    assert!(c.move_by(isize::MIN, 0).is_none());
    assert!(c.move_by(0, isize::MIN).is_none());
}

#[test]
fn is_at_bottom_only_on_last_row() {
    assert!(!coord(0, 0, 3, 3).is_at_bottom());
    assert!(!coord(2, 1, 3, 3).is_at_bottom());
    assert!(coord(1, 2, 3, 3).is_at_bottom());
}

#[test]
fn neighbors_radius_two_is_the_three_by_three_block() {
    // Squared distance at most r*(r-1) = 2: the eight neighbors and the
    // center itself, in row-major order.
    let c = coord(2, 2, 5, 5);
    let n = c.neighbors(2);
    let got: Vec<(isize, isize)> = n.iter().map(|c| (c.p.x, c.p.y)).collect();
    let expected = vec![
        (1, 1),
        (2, 1),
        (3, 1),
        (1, 2),
        (2, 2),
        (3, 2),
        (1, 3),
        (2, 3),
        (3, 3),
    ];
    assert_eq!(got, expected);
}

#[test]
fn neighbors_radius_one_is_the_center() {
    let c = coord(2, 2, 5, 5);
    let got: Vec<(isize, isize)> = c.neighbors(1).iter().map(|c| (c.p.x, c.p.y)).collect();
    assert_eq!(got, vec![(2, 2)]);
}

#[test]
fn neighbors_nonpositive_radius_is_empty() {
    let c = coord(2, 2, 5, 5);
    assert!(c.neighbors(0).is_empty());
    assert!(c.neighbors(-3).is_empty());
}

#[test]
fn neighbors_clip_at_the_border() {
    let c = coord(0, 0, 5, 5);
    let got: Vec<(isize, isize)> = c.neighbors(2).iter().map(|c| (c.p.x, c.p.y)).collect();
    assert_eq!(got, vec![(0, 0), (1, 0), (0, 1), (1, 1)]);
}

#[test]
fn random_neighbors_keeps_exactly_the_valid_landings() {
    let c = coord(0, 0, 3, 3);
    let mut rng = SimRng::from_seed(7);
    let n = c.random_neighbors(vec![(-1, 0), (1, 0), (0, 1), (0, -1)], &mut rng);
    let mut got: Vec<(isize, isize)> = n.iter().map(|c| (c.p.x, c.p.y)).collect();
    got.sort();
    assert_eq!(got, vec![(0, 1), (1, 0)]);
}

#[test]
fn grid_new_is_empty_everywhere() {
    let g: Grid<Particle> = Grid::new(4, 3);
    assert_eq!(g.width, 4);
    assert_eq!(g.height, 3);
    assert_eq!(g.iter().len(), 12);
    for cell in g.iter() {
        assert!(cell.is_empty());
        assert!(cell.value.is_none());
    }
}

#[test]
fn grid_cells_own_their_coordinates() {
    let g: Grid<Particle> = Grid::new(3, 2);
    let mut expected = Vec::new();
    for y in 0..2isize {
        for x in 0..3isize {
            expected.push((x, y));
        }
    }
    let got: Vec<(isize, isize)> = g.iter().iter().map(|c| (c.coord.p.x, c.coord.p.y)).collect();
    assert_eq!(got, expected);
}

#[test]
fn grid_set_get_clear_round_trip() {
    let mut g: Grid<Particle> = Grid::new(3, 3);
    let c = coord(1, 2, 3, 3);
    assert!(g.is_empty(&c));
    g.set(&c, Particle::new(ParticleKind::Sand));
    assert!(!g.is_empty(&c));
    let cell = g.get(&c);
    assert_eq!(cell.value.unwrap().kind, ParticleKind::Sand);
    assert_eq!(cell.coord.p.x, 1);
    assert_eq!(cell.coord.p.y, 2);
    g.clear(&c);
    assert!(g.is_empty(&c));
}

#[test]
fn grid_get_mut_changes_the_occupant() {
    let mut g: Grid<Particle> = Grid::new(2, 2);
    let c = coord(0, 1, 2, 2);
    g.get_mut(&c).value = Some(Particle::new(ParticleKind::Wood));
    assert_eq!(g.get(&c).value.unwrap().kind, ParticleKind::Wood);
}

#[test]
fn grid_swap_exchanges_occupants() {
    let mut g: Grid<Particle> = Grid::new(3, 3);
    let a = coord(0, 0, 3, 3);
    let b = coord(2, 2, 3, 3);
    g.set(&a, Particle::new(ParticleKind::Sand));
    g.swap(&a, &b);
    assert!(g.is_empty(&a));
    assert_eq!(g.get(&b).value.unwrap().kind, ParticleKind::Sand);
    // The cells' own coordinates stay put.
    assert_eq!(g.get(&b).coord.p.x, 2);
}

#[test]
fn grid_swap_same_coordinate_changes_nothing() {
    let mut g: Grid<Particle> = Grid::new(2, 2);
    let a = coord(1, 0, 2, 2);
    g.set(&a, Particle::new(ParticleKind::Water));
    g.swap(&a, &a);
    assert_eq!(g.get(&a).value.unwrap().kind, ParticleKind::Water);
}

#[test]
fn to_coord_validates_against_grid_dimensions() {
    let g: Grid<Particle> = Grid::new(3, 2);
    assert!(g.to_coord(Point { x: 2, y: 1 }).is_some());
    assert!(g.to_coord(Point { x: 3, y: 0 }).is_none());
    assert!(g.to_coord(Point { x: 0, y: 2 }).is_none());
}

#[test]
fn solidity_follows_the_kind() {
    assert!(ParticleKind::Sand.is_solid());
    assert!(ParticleKind::Wood.is_solid());
    assert!(!ParticleKind::Water.is_solid());

    let mut g: Grid<Particle> = Grid::new(3, 1);
    let a = coord(0, 0, 3, 1);
    let b = coord(1, 0, 3, 1);
    g.set(&a, Particle::new(ParticleKind::Sand));
    g.set(&b, Particle::new(ParticleKind::Water));
    assert!(g.is_solid(&a));
    assert!(!g.is_solid(&b));
    // An empty cell is not solid.
    assert!(!g.is_solid(&coord(2, 0, 3, 1)));
    assert!(g.get(&a).is_solid());
    assert!(!g.get(&b).is_solid());
}

#[test]
fn particle_new_is_unhandled() {
    let p = Particle::new(ParticleKind::Water);
    assert_eq!(p.kind, ParticleKind::Water);
    assert!(!p.ticked);
}

#[test]
fn zero_sized_grid_has_no_cells() {
    let g: Grid<Particle> = Grid::new(0, 0);
    assert_eq!(g.iter().len(), 0);
    assert!(g.to_coord(Point { x: 0, y: 0 }).is_none());
}
