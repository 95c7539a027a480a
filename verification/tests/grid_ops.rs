use flowers::color::Color;
use flowers::grid::Cell;
use flowers::grid::Grid;

#[test]
fn in_bounds_edges_1x1() {
    let g = Grid::new(1, 1);
    assert!(g.in_bounds(0, 0));
    assert!(!g.in_bounds(-1, 0));
    assert!(!g.in_bounds(0, -1));
    assert!(!g.in_bounds(1, 0));
    assert!(!g.in_bounds(0, 1));
}

#[test]
fn in_bounds_edges_3x7() {
    let g = Grid::new(3, 7);
    assert!(g.in_bounds(0, 0));
    assert!(g.in_bounds(2, 6));
    assert!(!g.in_bounds(3, 6));
    assert!(!g.in_bounds(2, 7));
    assert!(!g.in_bounds(-1, 3));
    assert!(!g.in_bounds(1, -1));
}

#[test]
fn at_out_of_bounds_is_empty() {
    let mut g = Grid::new(4, 4);
    let _ = g.place(0, 0, Color::new(9, 9, 9));
    assert_eq!(g.at(-1, 0), Cell::Empty);
    assert_eq!(g.at(0, -1), Cell::Empty);
    assert_eq!(g.at(4, 0), Cell::Empty);
    assert_eq!(g.at(0, 4), Cell::Empty);
    assert_eq!(g.at(isize::MIN, isize::MAX), Cell::Empty);
}

#[test]
fn new_grid_is_all_empty() {
    let g = Grid::new(5, 3);
    assert_eq!(g.dimensions(), (5, 3));
    assert_eq!(g.width(), 5);
    assert_eq!(g.height(), 3);
    assert_eq!(g.count_occupied(), 0);
    for y in 0..3 {
        for x in 0..5 {
            assert_eq!(g.at(x, y), Cell::Empty);
        }
    }
}

#[test]
fn place_reports_single_change() {
    let mut g = Grid::new(8, 8);
    let changed = g.place(3, 4, Color::new(10, 20, 30));
    assert_eq!(g.at(3, 4), Cell::Occupied(Color::new(10, 20, 30)));
    assert_eq!(changed, vec![(3, 4)]);
    for y in 0..8 {
        for x in 0..8 {
            if (x, y) != (3, 4) {
                assert_eq!(g.at(x, y), Cell::Empty);
            }
        }
    }
}

#[test]
fn place_overwrites_previous_color() {
    let mut g = Grid::new(4, 4);
    let _ = g.place(1, 1, Color::new(1, 2, 3));
    let changed = g.place(1, 1, Color::new(7, 8, 9));
    assert_eq!(changed, vec![(1, 1)]);
    assert_eq!(g.at(1, 1), Cell::Occupied(Color::new(7, 8, 9)));
}

#[test]
fn set_and_get_mut_update_one_cell() {
    let mut g = Grid::new(3, 3);
    g.set(2, 0, Cell::Occupied(Color::new(5, 6, 7)));
    assert_eq!(g.at(2, 0), Cell::Occupied(Color::new(5, 6, 7)));
    let slot = g.get_mut(2, 0);
    assert_eq!(*slot, Cell::Occupied(Color::new(5, 6, 7)));
    *slot = Cell::Empty;
    assert_eq!(g.at(2, 0), Cell::Empty);
    assert_eq!(g.count_occupied(), 0);
}

#[test]
fn color_at_background_and_stored() {
    let mut g = Grid::new(2, 2);
    let _ = g.place(0, 1, Color::new(40, 50, 60));
    assert_eq!(g.color_at(0, 1), Color::new(40, 50, 60));
    assert_eq!(g.color_at(1, 1), Color::new(0, 0, 0));
    assert_eq!(g.color_at(-3, 9), Color::new(0, 0, 0));
}

#[test]
fn from_grid_copies_every_cell() {
    let mut g = Grid::new(3, 2);
    let _ = g.place(2, 1, Color::new(11, 22, 33));
    let snap = Grid::from_grid(&g);
    assert_eq!(snap.dimensions(), (3, 2));
    for y in 0..2 {
        for x in 0..3 {
            assert_eq!(snap.at(x, y), g.at(x, y));
        }
    }
}

#[test]
fn clear_area_radius_zero() {
    let mut g = Grid::new(20, 20);
    let _ = g.place(10, 10, Color::new(1, 2, 3));
    let changed = g.clear_area(10, 10, 0);
    assert_eq!(changed, vec![(10, 10)]);
    assert_eq!(g.at(10, 10), Cell::Empty);
}

#[test]
fn clear_area_radius_zero_on_empty_cell_still_reports() {
    let mut g = Grid::new(20, 20);
    let changed = g.clear_area(5, 5, 0);
    assert_eq!(changed, vec![(5, 5)]);
    assert_eq!(g.at(5, 5), Cell::Empty);
}

#[test]
fn clear_area_clipped_at_corner() {
    let mut g = Grid::new(5, 5);
    for y in 0..5 {
        for x in 0..5 {
            let _ = g.place(x, y, Color::new(100, 100, 100));
        }
    }
    let mut changed = g.clear_area(0, 0, 1);
    changed.sort();
    assert_eq!(changed, vec![(0, 0), (0, 1), (1, 0), (1, 1)]);
    assert_eq!(g.at(0, 0), Cell::Empty);
    assert_eq!(g.at(1, 1), Cell::Empty);
    assert_eq!(g.at(2, 0), Cell::Occupied(Color::new(100, 100, 100)));
    assert_eq!(g.count_occupied(), 21);
}

#[test]
fn clear_area_square_inside() {
    let mut g = Grid::new(10, 10);
    for y in 0..10 {
        for x in 0..10 {
            let _ = g.place(x, y, Color::new(1, 1, 1));
        }
    }
    let changed = g.clear_area(4, 4, 2);
    assert_eq!(changed.len(), 25);
    for &(x, y) in &changed {
        assert!((2..=6).contains(&x) && (2..=6).contains(&y));
        assert_eq!(g.at(x, y), Cell::Empty);
    }
    assert_eq!(g.count_occupied(), 75);
}
