use doppler_color_shift::quadrature::{
    sample_count, sample_position, FIRST_NM, LAST_NM, SAMPLES_PER_NM,
};

#[test]
fn grid_constants() {
    assert_eq!(FIRST_NM, 350);
    assert_eq!(LAST_NM, 800);
    assert_eq!(SAMPLES_PER_NM, 10);
}

#[test]
fn grid_has_one_sample_per_step_with_both_ends() {
    assert_eq!(sample_count(), 4501);
}

#[test]
fn grid_starts_and_stops_at_the_ends_of_the_range() {
    assert_eq!(sample_position(0), Some(3500));
    assert_eq!(sample_position(1), Some(3501));
    assert_eq!(sample_position(2000), Some(5500));
    assert_eq!(sample_position(4500), Some(8000));
}

#[test]
fn grid_ends_after_the_last_sample() {
    assert_eq!(sample_position(4501), None);
    assert_eq!(sample_position(4502), None);
    assert_eq!(sample_position(u32::MAX), None);
}

#[test]
fn grid_walk_visits_every_tenth_of_a_nanometre_once() {
    let mut k = 0u32;
    let mut expected = 3500u32;
    while let Some(position) = sample_position(k) {
        assert_eq!(position, expected);
        expected += 1;
        k += 1;
    }
    assert_eq!(k, sample_count());
    assert_eq!(expected, 8001);
}
