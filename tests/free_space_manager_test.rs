use market_and_mastery::behaviour::free_space_manager::FreeSpaceManager;
use market_and_mastery::geometry::Point;

fn gaussian(dx: i64, dy: i64, reference: u64) -> u64 {
    let d2 = (dx * dx + dy * dy) as f64;
    let r2 = (reference * reference) as f64;
    if r2 == 0.0 {
        return if d2 == 0.0 { 1 << 32 } else { 0 };
    }
    ((-d2 / r2).exp() * 4294967296.0) as u64
}

fn chebyshev(a: (i64, i64), b: (i64, i64)) -> i64 {
    (a.0 - b.0).abs().max((a.1 - b.1).abs())
}

#[test]
fn cell_ids_floor_around_half_cells() {
    let grid = FreeSpaceManager::new(200, 200);
    assert_eq!(grid.cell_id_from_position(Point::new(0, 0)), (-1, -1));
    assert_eq!(grid.cell_id_from_position(Point::new(100, 99)), (0, -1));
    assert_eq!(grid.cell_id_from_position(Point::new(299, 300)), (0, 1));
    assert_eq!(grid.cell_id_from_position(Point::new(-101, -100)), (-2, -1));
}

#[test]
fn cell_points_are_cell_centres() {
    let grid = FreeSpaceManager::new(200, 200);
    // cell 0 spans [100, 300): its centre is 200
    assert_eq!(grid.position_from_cell_id(0, 0), Point::new(200, 200));
    assert_eq!(grid.position_from_cell_id(-1, 2), Point::new(0, 600));
}

#[test]
fn cell_centers_map_back_to_their_cells() {
    let grid = FreeSpaceManager::new(7, 200);
    for k in -3i64..=3 {
        let p = grid.position_from_cell_id(k, -k);
        assert_eq!(grid.cell_id_from_position(p), (k, -k));
    }
}

#[test]
fn empty_grid_search_stays_in_the_target_cell_neighbourhood() {
    let grid = FreeSpaceManager::new(200, 200);
    for _ in 0..50 {
        let p = grid.find_random_free_position_near(Point::new(0, 0), 100, &gaussian).unwrap();
        let k = grid.cell_id_from_position(p);
        assert!(chebyshev(k, (-1, -1)) <= 1);
        assert_eq!(grid.position_from_cell_id(k.0, k.1), p);
    }
}

#[test]
fn empty_grid_search_with_target_weight_returns_target_cell() {
    let grid = FreeSpaceManager::new(200, 200);
    let only_centre = |dx: i64, dy: i64, _r: u64| if dx == 0 && dy == 0 { 1 } else { 0 };
    let p = grid.find_random_free_position_near(Point::new(0, 0), 100, &only_centre).unwrap();
    assert_eq!(p, Point::new(0, 0));
    assert!(-100 <= p.x && p.x < 100 && -100 <= p.y && p.y < 100);
}

#[test]
fn found_position_is_never_occupied() {
    let mut grid = FreeSpaceManager::new(200, 200);
    for _ in 0..30 {
        let p = grid.find_random_free_position_near(Point::new(50, 50), 300, &gaussian).unwrap();
        assert!(!grid.is_occupied(p));
        grid.add_occupied_position(p);
        assert!(grid.is_occupied(p));
    }
}

#[test]
fn full_first_band_moves_search_outward() {
    let mut grid = FreeSpaceManager::new(200, 200);
    for x in -2i64..=0 {
        for y in -2i64..=0 {
            let p = grid.position_from_cell_id(x, y);
            grid.add_occupied_position(p);
        }
    }
    for _ in 0..20 {
        let p = grid.find_random_free_position_near(Point::new(0, 0), 100, &gaussian).unwrap();
        let k = grid.cell_id_from_position(p);
        let d = chebyshev(k, (-1, -1));
        assert!(d >= 2 && d <= 4);
        assert!(!grid.is_occupied(p));
    }
}

#[test]
fn non_positive_radius_searches_target_cell_first() {
    let grid = FreeSpaceManager::new(200, 200);
    let uniform = |_: i64, _: i64, _: u64| 1u64;
    for radius in [0i64, -500] {
        let p = grid.find_random_free_position_near(Point::new(250, 250), radius, &uniform).unwrap();
        assert_eq!(p, Point::new(200, 200));
    }
}

#[test]
fn zero_weights_fall_back_to_an_even_draw() {
    let grid = FreeSpaceManager::new(200, 200);
    let none = |_: i64, _: i64, _: u64| 0u64;
    let p = grid.find_random_free_position_near(Point::new(0, 0), 100, &none).unwrap();
    let k = grid.cell_id_from_position(p);
    assert!(chebyshev(k, (-1, -1)) <= 1);
}

#[test]
fn release_after_reserve_frees_the_cell() {
    let mut grid = FreeSpaceManager::new(200, 200);
    let other = Point::new(500, 500);
    grid.add_occupied_position(other);
    let p = Point::new(130, -40);
    assert!(!grid.is_occupied(p));
    grid.add_occupied_position(p);
    assert!(grid.is_occupied(p));
    grid.remove_occupied_position(p);
    assert!(!grid.is_occupied(p));
    assert!(grid.is_occupied(other));
}

#[test]
fn reserving_twice_is_one_reservation() {
    let mut grid = FreeSpaceManager::new(200, 200);
    let p = Point::new(130, -40);
    grid.add_occupied_position(p);
    grid.add_occupied_position(Point::new(150, 0));
    grid.remove_occupied_position(p);
    assert!(!grid.is_occupied(Point::new(150, 0)));
}

#[test]
fn releasing_a_free_cell_is_a_no_op() {
    let mut grid = FreeSpaceManager::new(200, 200);
    grid.remove_occupied_position(Point::new(0, 0));
    assert!(!grid.is_occupied(Point::new(0, 0)));
}

#[test]
fn ring_enumeration_lists_each_free_cell_once() {
    let mut grid = FreeSpaceManager::new(10, 10);
    let band0 = grid.expand_available_cells(0, 0, 0, 1);
    assert_eq!(band0.len(), 9);
    let ring = grid.expand_available_cells(0, 0, 2, 4);
    assert_eq!(ring.len(), 81 - 9);
    grid.add_occupied_position(grid.position_from_cell_id(1, 1));
    let band0 = grid.expand_available_cells(0, 0, 0, 1);
    assert_eq!(band0.len(), 8);
    assert!(band0.iter().all(|c| (c.cell_x, c.cell_y) != (1, 1)));
}
