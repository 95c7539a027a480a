use flowers::color::Color;
use flowers::color::MUTATION_DELTA;
use rand::SeedableRng;

fn channel_close(before: u8, after: u8) {
    let lo = before.saturating_sub(MUTATION_DELTA);
    let hi = before.saturating_add(MUTATION_DELTA);
    assert!(after >= lo && after <= hi, "channel {} drifted to {}", before, after);
}

#[test]
fn mutate_channels_stay_in_range_1000_draws() {
    let mut rng = rand::rngs::StdRng::seed_from_u64(1);
    let parents = [
        Color::new(0, 0, 0),
        Color::new(255, 255, 255),
        Color::new(2, 253, 128),
        Color::new(90, 160, 40),
    ];
    for parent in parents {
        for _ in 0..1000 {
            let child = parent.mutate(&mut rng);
            // u8 channels are in [0, 255] by construction; the drift is
            // bounded by the mutation delta and clamped at the ends.
            channel_close(parent.r, child.r);
            channel_close(parent.g, child.g);
            channel_close(parent.b, child.b);
        }
    }
}

#[test]
fn mutate_actually_draws_offsets() {
    // Over many draws from a mid-range parent, some child must differ from
    // the parent: the offset really comes from the random source.
    let mut rng = rand::rngs::StdRng::seed_from_u64(2);
    let parent = Color::new(128, 128, 128);
    let mut saw_change = false;
    for _ in 0..100 {
        let child = parent.mutate(&mut rng);
        if child != parent {
            saw_change = true;
        }
    }
    assert!(saw_change);
}

#[test]
fn mutate_at_black_never_underflows() {
    let mut rng = rand::rngs::StdRng::seed_from_u64(3);
    let parent = Color::new(0, 0, 0);
    for _ in 0..500 {
        let child = parent.mutate(&mut rng);
        assert!(child.r <= MUTATION_DELTA);
        assert!(child.g <= MUTATION_DELTA);
        assert!(child.b <= MUTATION_DELTA);
    }
}
