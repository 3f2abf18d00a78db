use particle_life::fixed::{div_toward_zero, floor_sqrt_between, saturate};

#[test]
fn floor_sqrt_of_squares_and_between() {
    assert_eq!(floor_sqrt_between(100, 0, 11), 10);
    assert_eq!(floor_sqrt_between(99, 0, 11), 9);
    assert_eq!(floor_sqrt_between(2, 1, 2), 1);
    assert_eq!(floor_sqrt_between(1_000_000_000_000, 0, 1_000_001), 1_000_000);
}

#[test]
fn division_rounds_toward_zero() {
    assert_eq!(div_toward_zero(7, 2), 3);
    assert_eq!(div_toward_zero(-7, 2), -3);
    assert_eq!(div_toward_zero(-250_000, 1000), -250);
}

#[test]
fn saturation_clips_both_ends() {
    assert_eq!(saturate(5, 3), 3);
    assert_eq!(saturate(-5, 3), -3);
    assert_eq!(saturate(2, 3), 2);
}
