use playback_engine::format::{
    choose_format, choose_format_index, format_rank, prefer, takes_next, Format, SampleFormat, MIN_PREFERRED_RATE,
};

fn fmt(data_type: SampleFormat, sample_rate: u32, channels: u16) -> Format {
    Format { channels, sample_rate, data_type }
}

#[test]
fn float_preference_dominates() {
    let formats = vec![fmt(SampleFormat::F32, 48000, 2), fmt(SampleFormat::I16, 44100, 2)];
    assert_eq!(choose_format(&formats), fmt(SampleFormat::F32, 48000, 2));
}

#[test]
fn rate_then_channels_break_ties() {
    let formats = vec![fmt(SampleFormat::I16, 22050, 1), fmt(SampleFormat::I16, 44100, 2)];
    assert_eq!(choose_format(&formats), fmt(SampleFormat::I16, 44100, 2));
}

#[test]
fn single_format_is_chosen() {
    let formats = vec![fmt(SampleFormat::U16, 8000, 6)];
    assert_eq!(choose_format(&formats), fmt(SampleFormat::U16, 8000, 6));
}

#[test]
fn later_float_replaces_integer() {
    let formats = vec![
        fmt(SampleFormat::I16, 48000, 2),
        fmt(SampleFormat::U16, 96000, 2),
        fmt(SampleFormat::F32, 22050, 1),
    ];
    assert_eq!(choose_format(&formats), fmt(SampleFormat::F32, 22050, 1));
}

#[test]
fn slow_float_beats_fast_integer() {
    let formats = vec![fmt(SampleFormat::F32, 22050, 2), fmt(SampleFormat::I16, 44100, 1)];
    assert_eq!(choose_format(&formats), fmt(SampleFormat::F32, 22050, 2));
}

#[test]
fn float_wins_at_equal_rate() {
    let formats = vec![fmt(SampleFormat::F32, 22050, 2), fmt(SampleFormat::I16, 22050, 2)];
    assert_eq!(choose_format(&formats), fmt(SampleFormat::F32, 22050, 2));
}

#[test]
fn float_outranks_stereo_in_either_order() {
    let forward = [fmt(SampleFormat::F32, 48000, 1), fmt(SampleFormat::I16, 48000, 2)];
    let backward = [fmt(SampleFormat::I16, 48000, 2), fmt(SampleFormat::F32, 48000, 1)];
    assert_eq!(choose_format_index(&forward), 0);
    assert_eq!(choose_format_index(&backward), 1);
    assert_eq!(choose_format(&forward), choose_format(&backward));
}

#[test]
fn rank_weights_each_criterion() {
    assert_eq!(format_rank(&fmt(SampleFormat::F32, 48000, 2)), 7);
    assert_eq!(format_rank(&fmt(SampleFormat::F32, 22050, 1)), 4);
    assert_eq!(format_rank(&fmt(SampleFormat::I16, 44100, 1)), 2);
    assert_eq!(format_rank(&fmt(SampleFormat::U16, 8000, 2)), 1);
    assert_eq!(format_rank(&fmt(SampleFormat::U16, 8000, 6)), 0);
}

#[test]
fn stereo_preferred_at_equal_standing() {
    let formats = vec![
        fmt(SampleFormat::I16, 44100, 1),
        fmt(SampleFormat::I16, 48000, 2),
        fmt(SampleFormat::I16, 96000, 2),
    ];
    assert_eq!(choose_format(&formats), fmt(SampleFormat::I16, 48000, 2));
}

#[test]
fn first_seen_kept_when_nothing_improves() {
    let formats = vec![
        fmt(SampleFormat::I16, 44100, 2),
        fmt(SampleFormat::I16, 48000, 2),
        fmt(SampleFormat::U16, 96000, 1),
    ];
    assert_eq!(choose_format(&formats), fmt(SampleFormat::I16, 44100, 2));
}

#[test]
fn rate_threshold_is_inclusive() {
    assert_eq!(MIN_PREFERRED_RATE, 44100);
    let at = fmt(SampleFormat::I16, 44100, 2);
    let below = fmt(SampleFormat::I16, 44099, 2);
    let other = fmt(SampleFormat::U16, 8000, 1);
    assert_eq!(prefer(at, other), at);
    assert_eq!(prefer(below, other), below);
    assert_eq!(prefer(other, below), below);
}

#[test]
fn index_keeps_first_among_equal_rank() {
    let good = fmt(SampleFormat::I16, 44100, 2);
    assert_eq!(choose_format_index(&[good, good]), 0);
    let slow = fmt(SampleFormat::I16, 8000, 2);
    assert_eq!(choose_format_index(&[slow, slow, slow]), 0);
    assert_eq!(choose_format_index(&[good, slow, fmt(SampleFormat::F32, 44100, 1)]), 2);
}

#[test]
fn takes_next_on_each_criterion() {
    let base = fmt(SampleFormat::I16, 44100, 2);
    assert!(takes_next(&base, &fmt(SampleFormat::F32, 8000, 1)));
    assert!(!takes_next(&fmt(SampleFormat::F32, 44100, 1), &fmt(SampleFormat::F32, 48000, 1)));
    assert!(takes_next(&fmt(SampleFormat::I16, 44100, 1), &base));
    assert!(!takes_next(&base, &fmt(SampleFormat::U16, 96000, 2)));
    assert!(!takes_next(&base, &fmt(SampleFormat::I16, 96000, 6)));
}
