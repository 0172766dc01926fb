use particle_life::geom::{Boundary, Position, Velocity};
use particle_life::particle::{ColorTag, Particle};
use particle_life::quadtree::QuadTree;
use particle_life::units::SCALE;

fn red_at(x: i64, y: i64) -> Particle {
    Particle::new(
        Position { x, y },
        ColorTag::Red,
        Velocity { x: 0, y: 0 },
    )
}

fn domain(w: i64, h: i64) -> Boundary {
    Boundary { x: 0, y: 0, width: w, height: h }
}

#[test]
fn insert_within_boundary_is_accepted() {
    let mut tree = QuadTree::new(domain(100 * SCALE, 100 * SCALE), 4);
    let p = red_at(10 * SCALE, 20 * SCALE);
    assert_eq!(tree.insert(p), None);
    let found = tree.query(&domain(100 * SCALE, 100 * SCALE));
    assert_eq!(found, vec![p]);
}

#[test]
fn insert_outside_boundary_is_handed_back() {
    let mut tree = QuadTree::new(domain(100 * SCALE, 100 * SCALE), 4);
    let p = red_at(200 * SCALE, 20 * SCALE);
    assert_eq!(tree.insert(p), Some(p));
    let found = tree.query(&domain(100 * SCALE, 100 * SCALE));
    assert_eq!(found.len(), 0);
}

#[test]
fn boundary_test_is_inclusive() {
    let tree = QuadTree::new(domain(100, 50), 4);
    assert!(tree.within_boundary(&Position { x: 0, y: 0 }));
    assert!(tree.within_boundary(&Position { x: 100, y: 50 }));
    assert!(!tree.within_boundary(&Position { x: 101, y: 50 }));
    assert!(!tree.within_boundary(&Position { x: 100, y: 51 }));
    assert!(!tree.within_boundary(&Position { x: -1, y: 0 }));
}

#[test]
fn overlap_test_is_inclusive() {
    let tree = QuadTree::new(domain(100, 100), 4);
    assert!(tree.does_range_overlap(&Boundary { x: 100, y: 100, width: 10, height: 10 }));
    assert!(tree.does_range_overlap(&Boundary { x: -10, y: -10, width: 10, height: 10 }));
    assert!(!tree.does_range_overlap(&Boundary { x: 101, y: 0, width: 10, height: 10 }));
    assert!(!tree.does_range_overlap(&Boundary { x: 0, y: 101, width: 10, height: 10 }));
}

#[test]
fn capacity_overflow_subdivides() {
    let mut tree = QuadTree::new(domain(100, 100), 2);
    assert_eq!(tree.insert(red_at(10, 10)), None);
    assert_eq!(tree.insert(red_at(90, 10)), None);
    assert!(!tree.is_divided);
    // the third insertion exceeds the capacity of 2 and forces a split
    assert_eq!(tree.insert(red_at(10, 90)), None);
    assert!(tree.is_divided);
    assert_eq!(tree.points.len(), 2);
    // all three particles are still found exactly once
    let found = tree.query(&domain(100, 100));
    assert_eq!(found.len(), 3);
}

#[test]
fn query_returns_exactly_the_particles_in_range() {
    let mut tree = QuadTree::new(domain(100, 100), 1);
    let inside = red_at(10, 10);
    let edge = red_at(50, 50);
    let outside = red_at(90, 90);
    tree.insert(inside);
    tree.insert(edge);
    tree.insert(outside);
    let found = tree.query(&Boundary { x: 0, y: 0, width: 50, height: 50 });
    assert_eq!(found.len(), 2);
    assert!(found.contains(&inside));
    assert!(found.contains(&edge));
    assert!(!found.contains(&outside));
}

#[test]
fn query_far_from_all_particles_is_empty() {
    let mut tree = QuadTree::new(domain(100, 100), 2);
    for i in 0..10 {
        tree.insert(red_at(i * 10, i * 10));
    }
    let found = tree.query(&Boundary { x: 1000, y: 1000, width: 5, height: 5 });
    assert_eq!(found.len(), 0);
}

#[test]
fn root_query_returns_every_inserted_particle_once() {
    let mut tree = QuadTree::new(domain(1000, 1000), 3);
    let mut inserted = Vec::new();
    for i in 0..50 {
        let p = red_at((i * 37) % 1000, (i * 101) % 1000);
        assert_eq!(tree.insert(p), None);
        inserted.push(p);
    }
    let found = tree.query(&domain(1000, 1000));
    assert_eq!(found.len(), inserted.len());
    // count each value exactly as often as it was inserted
    for p in &inserted {
        let in_found = found.iter().filter(|q| *q == p).count();
        let in_inserted = inserted.iter().filter(|q| *q == p).count();
        assert_eq!(in_found, in_inserted);
    }
}

#[test]
fn equal_positions_are_all_kept() {
    let mut tree = QuadTree::new(domain(100, 100), 2);
    let p = red_at(40, 40);
    for _ in 0..5 {
        assert_eq!(tree.insert(p), None);
    }
    let found = tree.query(&domain(100, 100));
    assert_eq!(found.len(), 5);
}

#[test]
fn subdivision_quarters_tile_the_boundary() {
    let mut tree = QuadTree::new(Boundary { x: 3, y: 7, width: 11, height: 9 }, 1);
    tree.insert(red_at(4, 8));
    tree.insert(red_at(5, 9));
    assert!(tree.is_divided);
    let nw = tree.top_left.as_ref().unwrap();
    let ne = tree.top_right.as_ref().unwrap();
    let sw = tree.bottom_left.as_ref().unwrap();
    let se = tree.bottom_right.as_ref().unwrap();
    // the four quarters partition [3, 14] x [7, 16] with no gap
    assert_eq!((nw.boundary.x, nw.boundary.y, nw.boundary.width, nw.boundary.height), (3, 7, 5, 4));
    assert_eq!((ne.boundary.x, ne.boundary.y, ne.boundary.width, ne.boundary.height), (8, 7, 6, 4));
    assert_eq!((sw.boundary.x, sw.boundary.y, sw.boundary.width, sw.boundary.height), (3, 11, 5, 5));
    assert_eq!((se.boundary.x, se.boundary.y, se.boundary.width, se.boundary.height), (8, 11, 6, 5));
    assert_eq!(nw.boundary.x + nw.boundary.width, ne.boundary.x);
    assert_eq!(ne.boundary.x + ne.boundary.width, tree.boundary.x + tree.boundary.width);
    assert_eq!(nw.boundary.y + nw.boundary.height, sw.boundary.y);
    assert_eq!(sw.boundary.y + sw.boundary.height, tree.boundary.y + tree.boundary.height);
}

#[test]
fn clear_resets_the_tree() {
    let mut tree = QuadTree::new(domain(100, 100), 1);
    for i in 0..10 {
        tree.insert(red_at(i, i));
    }
    assert!(tree.is_divided);
    tree.clear_quadtree();
    assert!(!tree.is_divided);
    assert_eq!(tree.points.len(), 0);
    assert_eq!(tree.query(&domain(100, 100)).len(), 0);
    // the cleared tree accepts insertions again
    assert_eq!(tree.insert(red_at(5, 5)), None);
    assert_eq!(tree.query(&domain(100, 100)).len(), 1);
}
