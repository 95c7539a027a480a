use flowers::color::Color;
use flowers::color::MUTATION_DELTA;
use flowers::engine::tick;
use flowers::grid::Cell;
use flowers::grid::Grid;
use rand::SeedableRng;

#[test]
fn tick_on_empty_grid_changes_nothing() {
    let mut rng = rand::rngs::StdRng::seed_from_u64(10);
    let mut g = Grid::new(6, 6);
    for _ in 0..5 {
        let changed = tick(&mut g, &mut rng);
        assert!(changed.is_empty());
        assert_eq!(g.count_occupied(), 0);
    }
}

#[test]
fn tick_on_fully_occupied_grid_changes_nothing() {
    // With no Empty cell anywhere, growth is fully saturated: ticking any
    // number of times never changes any cell and never overwrites a color.
    let mut rng = rand::rngs::StdRng::seed_from_u64(11);
    let mut g = Grid::new(4, 4);
    for y in 0..4 {
        for x in 0..4 {
            let _ = g.place(x, y, Color::new(x as u8, y as u8, 77));
        }
    }
    for _ in 0..10 {
        let changed = tick(&mut g, &mut rng);
        assert!(changed.is_empty());
    }
    for y in 0..4 {
        for x in 0..4 {
            assert_eq!(g.at(x, y), Cell::Occupied(Color::new(x as u8, y as u8, 77)));
        }
    }
}

#[test]
fn tick_grows_from_seed_and_never_shrinks() {
    let mut rng = rand::rngs::StdRng::seed_from_u64(12);
    let mut g = Grid::new(9, 9);
    let _ = g.place(4, 4, Color::new(120, 130, 140));
    let mut prev = g.count_occupied();
    assert_eq!(prev, 1);
    let mut ticks = 0;
    while g.count_occupied() < 81 {
        let _ = tick(&mut g, &mut rng);
        let now = g.count_occupied();
        assert!(now >= prev, "organism count dropped from {} to {}", prev, now);
        prev = now;
        ticks += 1;
        assert!(ticks < 200, "grid failed to fill");
    }
    assert_eq!(g.count_occupied(), 81);
}

#[test]
fn tick_never_overwrites_an_organism() {
    let mut rng = rand::rngs::StdRng::seed_from_u64(13);
    let mut g = Grid::new(7, 7);
    let _ = g.place(3, 3, Color::new(200, 10, 10));
    for _ in 0..3 {
        let before = Grid::from_grid(&g);
        let _ = tick(&mut g, &mut rng);
        for y in 0..7 {
            for x in 0..7 {
                if let Cell::Occupied(c) = before.at(x, y) {
                    assert_eq!(g.at(x, y), Cell::Occupied(c));
                }
            }
        }
    }
}

#[test]
fn tick_reports_exactly_the_real_transitions() {
    let mut rng = rand::rngs::StdRng::seed_from_u64(14);
    let mut g = Grid::new(8, 8);
    let _ = g.place(2, 2, Color::new(60, 70, 80));
    for _ in 0..4 {
        let before = Grid::from_grid(&g);
        let changed = tick(&mut g, &mut rng);
        // every reported position underwent Empty -> Occupied
        for &(x, y) in &changed {
            assert_eq!(before.at(x, y), Cell::Empty);
            assert!(matches!(g.at(x, y), Cell::Occupied(_)));
        }
        // no position is reported twice
        let mut unique = changed.clone();
        unique.sort();
        unique.dedup();
        assert_eq!(unique.len(), changed.len());
        // every difference was reported
        for y in 0..8 {
            for x in 0..8 {
                if before.at(x, y) != g.at(x, y) {
                    assert!(changed.contains(&(x, y)));
                }
            }
        }
    }
}

#[test]
fn grown_cells_copy_their_parents_color_within_the_delta() {
    let mut rng = rand::rngs::StdRng::seed_from_u64(15);
    let mut g = Grid::new(3, 3);
    let _ = g.place(1, 1, Color::new(100, 150, 200));
    let before = Grid::from_grid(&g);
    let changed = tick(&mut g, &mut rng);
    let d = MUTATION_DELTA;
    for &(x, y) in &changed {
        assert_eq!(before.at(x, y), Cell::Empty);
        // the parent of a first-generation cell is the seed
        if (x - 1).abs() + (y - 1).abs() == 1 {
            if let Cell::Occupied(c) = g.at(x, y) {
                assert!(c.r >= 100 - d && c.r <= 100 + d);
                assert!(c.g >= 150 - d && c.g <= 150 + d);
                assert!(c.b >= 200 - d && c.b <= 200 + d);
            } else {
                panic!("reported cell is not occupied");
            }
        }
    }
}
