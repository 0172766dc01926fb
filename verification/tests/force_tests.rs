use particle_life::force::{
    color_to_index, colour_attraction_factor_matrix, get_force, green_to_red, red_to_red,
};
use particle_life::particle::ColorTag;
use particle_life::sim::schedule_update;
use particle_life::units::{BETA, SCALE};

#[test]
fn color_indices_match_the_matrix_layout() {
    assert_eq!(color_to_index(ColorTag::Red), 0);
    assert_eq!(color_to_index(ColorTag::Green), 1);
    assert_eq!(color_to_index(ColorTag::Blue), 2);
    assert_eq!(color_to_index(ColorTag::Other), 3);
}

#[test]
fn fresh_matrix_is_all_zero() {
    let m = colour_attraction_factor_matrix();
    let colors = [ColorTag::Red, ColorTag::Green, ColorTag::Blue, ColorTag::Other];
    for a in colors {
        for b in colors {
            assert_eq!(m.get(a, b), 0);
        }
    }
}

#[test]
fn schedule_entries_set_single_factors() {
    let mut m = colour_attraction_factor_matrix();
    red_to_red(&mut m);
    assert_eq!(m.get(ColorTag::Red, ColorTag::Red), SCALE);
    assert_eq!(m.get(ColorTag::Red, ColorTag::Green), 0);
    green_to_red(&mut m);
    assert_eq!(m.get(ColorTag::Green, ColorTag::Red), 300_000);
    assert_eq!(m.get(ColorTag::Red, ColorTag::Red), SCALE);
    assert_eq!(m.get(ColorTag::Green, ColorTag::Green), 0);
}

#[test]
fn schedule_update_follows_the_frame_counter() {
    let mut m = colour_attraction_factor_matrix();
    schedule_update(&mut m, 1);
    assert_eq!(m.get(ColorTag::Red, ColorTag::Red), 0);
    assert_eq!(m.get(ColorTag::Green, ColorTag::Red), 0);
    schedule_update(&mut m, 300);
    assert_eq!(m.get(ColorTag::Red, ColorTag::Red), SCALE);
    assert_eq!(m.get(ColorTag::Green, ColorTag::Red), 0);
    schedule_update(&mut m, 600);
    assert_eq!(m.get(ColorTag::Red, ColorTag::Red), SCALE);
    assert_eq!(m.get(ColorTag::Green, ColorTag::Red), 300_000);
}

#[test]
fn force_at_zero_distance_is_minus_one() {
    let mut m = colour_attraction_factor_matrix();
    red_to_red(&mut m);
    // the repulsion core does not depend on the attraction factor
    assert_eq!(get_force(0, ColorTag::Red, ColorTag::Red, &m), -SCALE);
    assert_eq!(get_force(0, ColorTag::Blue, ColorTag::Other, &m), -SCALE);
}

#[test]
fn force_vanishes_at_the_band_edges() {
    let mut m = colour_attraction_factor_matrix();
    red_to_red(&mut m);
    green_to_red(&mut m);
    for (a, b) in [
        (ColorTag::Red, ColorTag::Red),
        (ColorTag::Green, ColorTag::Red),
        (ColorTag::Blue, ColorTag::Green),
    ] {
        assert_eq!(get_force(BETA, a, b, &m), 0);
        assert_eq!(get_force(SCALE, a, b, &m), 0);
        assert_eq!(get_force(2 * SCALE, a, b, &m), 0);
    }
}

#[test]
fn repulsion_grows_toward_zero_distance() {
    let m = colour_attraction_factor_matrix();
    // r = 0.15 = BETA / 2: force = r / BETA - 1 = -0.5 exactly
    assert_eq!(get_force(BETA / 2, ColorTag::Red, ColorTag::Red, &m), -SCALE / 2);
    // the repulsion regime ignores the (zero) attraction factor
    assert_eq!(get_force(100_000, ColorTag::Red, ColorTag::Red, &m), 100_000 * SCALE / BETA - SCALE);
}

#[test]
fn attraction_peaks_between_the_band_edges() {
    let mut m = colour_attraction_factor_matrix();
    red_to_red(&mut m);
    // the kernel peaks at r = (1 + BETA) / 2 = 0.65 with value 1.0
    assert_eq!(get_force(650_000, ColorTag::Red, ColorTag::Red, &m), SCALE);
    // a pair with zero factor feels nothing in the attraction band
    assert_eq!(get_force(650_000, ColorTag::Green, ColorTag::Green, &m), 0);
}

#[test]
fn attraction_scales_with_the_factor() {
    let mut m = colour_attraction_factor_matrix();
    green_to_red(&mut m);
    // kernel value at the peak is 1.0; scaled by the 0.3 factor
    assert_eq!(get_force(650_000, ColorTag::Green, ColorTag::Red, &m), 300_000);
}
