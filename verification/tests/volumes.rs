//! Exact values of the volume arithmetic.

use pavucontrolrs::entries::Volumes;
use pavucontrolrs::entries::VOLUME_MAX;
use pavucontrolrs::entries::VOLUME_NORM;

#[test]
fn max_level_picks_the_loudest_channel() {
    assert_eq!(Volumes::new(vec![3, 9, 6]).max_level(), 9);
    assert_eq!(Volumes::new(vec![]).max_level(), 0);
}

#[test]
fn scaling_keeps_channel_proportions() {
    // Loudest channel to 66191; the half-loud channel follows at half.
    let v = Volumes::new(vec![65536, 32768]);
    let s = v.scaled(66191);
    assert_eq!(s.levels, vec![66191, 33095]);
}

#[test]
fn scaling_silence_sets_every_channel() {
    let v = Volumes::new(vec![0, 0]);
    let s = v.scaled(100);
    assert_eq!(s.levels, vec![100, 100]);
}

#[test]
fn increase_adds_the_step_to_the_loudest_channel() {
    let v = Volumes::new(vec![65536, 32768]);
    let s = v.increased(655);
    assert_eq!(s.levels, vec![66191, 33095]);
}

#[test]
fn increase_saturates_at_the_maximum() {
    let v = Volumes::new(vec![VOLUME_MAX]);
    let s = v.increased(655);
    assert_eq!(s.levels, vec![VOLUME_MAX]);
}

#[test]
fn decrease_subtracts_the_step_from_the_loudest_channel() {
    let v = Volumes::new(vec![65536, 32768]);
    let s = v.decreased(6554);
    assert_eq!(s.levels, vec![58982, 29491]);
}

#[test]
fn decrease_saturates_at_silence() {
    let v = Volumes::new(vec![100, 50]);
    let s = v.decreased(500);
    assert_eq!(s.levels, vec![0, 0]);
}

#[test]
fn set_all_levels_every_channel() {
    let v = Volumes::new(vec![1, 2, 3]);
    assert_eq!(v.set_all(VOLUME_NORM).levels, vec![65536, 65536, 65536]);
    assert_eq!(v.set_all(0).levels, vec![0, 0, 0]);
}

#[test]
fn avg_is_the_integer_mean() {
    assert_eq!(Volumes::new(vec![10, 20, 31]).avg(), 20);
    assert_eq!(Volumes::new(vec![]).avg(), 0);
    assert_eq!(Volumes::new(vec![7]).avg(), 7);
}
