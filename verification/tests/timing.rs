use zuchsya::scroll::{ScrollConfig, MAX_TIME_RANGE, MIN_TIME_RANGE};
use zuchsya::selection::SelectedBeatmap;
use zuchsya::timing::{TimingPoint, BEAT_SCALE};

#[test]
fn beat_length_is_a_minute_over_the_tempo() {
    assert_eq!(TimingPoint::default().beat_length(), Some(500_000));
    assert_eq!(TimingPoint::new(0, 60_000).beat_length(), Some(1_000_000));
    // 60000 / 174 = 344.8275... ms
    assert_eq!(TimingPoint::new(0, 174_000).beat_length(), Some(344_827));
    assert_eq!(TimingPoint::new(0, 1).beat_length(), Some(BEAT_SCALE));
    assert_eq!(TimingPoint::new(0, u32::MAX).beat_length(), Some(13));
    assert_eq!(TimingPoint::new(0, 0).beat_length(), None);
}

#[test]
fn snapping_goes_to_the_nearest_line() {
    let point = TimingPoint::default();
    // Quarter beats at 120 beats per minute lie 125 ms apart.
    assert_eq!(point.snap_to_beat(130_000, 4), Some(125_000));
    assert_eq!(point.snap_to_beat(60_000, 4), Some(0));
    assert_eq!(point.snap_to_beat(62_499, 4), Some(0));
    assert_eq!(point.snap_to_beat(62_501, 4), Some(125_000));
    assert_eq!(point.snap_to_beat(1_000_000, 4), Some(1_000_000));
    assert_eq!(point.snap_to_beat(0, 4), Some(0));
    assert_eq!(point.snap_to_beat(490_000, 1), Some(500_000));
    assert_eq!(point.snap_to_beat(-130_000, 4), Some(-125_000));
}

#[test]
fn snapping_halfway_goes_away_from_the_timing_point() {
    let point = TimingPoint::default();
    assert_eq!(point.snap_to_beat(62_500, 4), Some(125_000));
    assert_eq!(point.snap_to_beat(187_500, 4), Some(250_000));
    assert_eq!(point.snap_to_beat(-62_500, 4), Some(-125_000));
    assert_eq!(point.snap_to_beat(-187_500, 4), Some(-250_000));
}

#[test]
fn snapping_counts_from_the_timing_point() {
    let point = TimingPoint::with_signature(1_000, 120_000, 3);
    assert_eq!(point.snap_to_beat(126_000, 4), Some(126_000));
    assert_eq!(point.snap_to_beat(130_000, 4), Some(126_000));
    assert_eq!(point.snap_to_beat(0, 4), Some(1_000));
    assert_eq!(point.snap_to_beat(-100_000, 4), Some(-124_000));
}

#[test]
fn snapping_on_a_grid_of_broken_microseconds() {
    // Thirds of a beat at 174 beats per minute: 114942.528... us apart.
    let point = TimingPoint::new(0, 174_000);
    assert_eq!(point.snap_to_beat(230_000, 3), Some(229_885));
    assert_eq!(point.snap_to_beat(114_000, 3), Some(114_943));
    assert_eq!(point.snap_to_beat(344_827, 3), Some(344_828));
    assert_eq!(point.snap_to_beat(-230_000, 3), Some(-229_885));
    // A beat is a line of every grid.
    for divisor in 1u8..=16 {
        assert_eq!(TimingPoint::default().snap_to_beat(1_500_000, divisor), Some(1_500_000));
    }
}

#[test]
fn snapping_fails_without_a_grid_or_out_of_range() {
    let point = TimingPoint::default();
    assert_eq!(point.snap_to_beat(130_000, 0), None);
    assert_eq!(TimingPoint::new(0, 0).snap_to_beat(130_000, 4), None);
    // One beat in a thousand minutes: lines 60000 s apart.
    let slow = TimingPoint::new(i64::MAX - 40_000_000_000, 1);
    assert_eq!(slow.snap_to_beat(i64::MAX - 40_000_000_000, 1), Some(i64::MAX - 40_000_000_000));
    assert_eq!(slow.snap_to_beat(i64::MAX - 20_000_000_000, 1), Some(i64::MAX - 40_000_000_000));
    assert_eq!(slow.snap_to_beat(i64::MAX, 1), None);
    let far = TimingPoint::new(i64::MIN, u32::MAX);
    assert_eq!(far.snap_to_beat(i64::MAX, 255), Some(i64::MAX));
}

#[test]
fn scroll_speed_sets_the_time_range() {
    assert_eq!(ScrollConfig::from_speed(1), ScrollConfig { speed: 1, time_range_us: MAX_TIME_RANGE });
    assert_eq!(ScrollConfig::from_speed(40), ScrollConfig { speed: 40, time_range_us: MIN_TIME_RANGE });
    assert_eq!(MAX_TIME_RANGE, 11_485_000);
    assert_eq!(MIN_TIME_RANGE, 290_000);
    // 11485 - 19 / 39 * 11195 = 6031.0256... ms
    assert_eq!(ScrollConfig::from_speed(20).time_range_us, 6_031_025);
    assert_eq!(ScrollConfig::from_speed(2).time_range_us, 11_197_948);
    assert_eq!(ScrollConfig::default(), ScrollConfig::from_speed(20));
    assert_eq!(ScrollConfig::from_speed(0), ScrollConfig::from_speed(1));
    assert_eq!(ScrollConfig::from_speed(41), ScrollConfig::from_speed(40));
    assert_eq!(ScrollConfig::from_speed(255), ScrollConfig::from_speed(40));
    for speed in 1u8..40 {
        assert!(
            ScrollConfig::from_speed(speed + 1).time_range_us
                < ScrollConfig::from_speed(speed).time_range_us
        );
    }
}

#[test]
fn scroll_speed_steps_by_two_within_its_range() {
    let config = ScrollConfig::default();
    assert_eq!(config.adjust_scroll_speed(true, false), (ScrollConfig::from_speed(22), true));
    assert_eq!(config.adjust_scroll_speed(false, true), (ScrollConfig::from_speed(18), true));
    assert_eq!(config.adjust_scroll_speed(true, true), (config, false));
    assert_eq!(config.adjust_scroll_speed(false, false), (config, false));
    let fastest = ScrollConfig::from_speed(40);
    assert_eq!(fastest.adjust_scroll_speed(true, false), (fastest, false));
    assert_eq!(fastest.adjust_scroll_speed(false, true), (ScrollConfig::from_speed(38), true));
    let slowest = ScrollConfig::from_speed(1);
    assert_eq!(slowest.adjust_scroll_speed(false, true), (slowest, false));
    assert_eq!(slowest.adjust_scroll_speed(true, false), (ScrollConfig::from_speed(3), true));
    assert_eq!(
        ScrollConfig::from_speed(39).adjust_scroll_speed(true, false),
        (fastest, true)
    );
    assert_eq!(
        ScrollConfig::from_speed(2).adjust_scroll_speed(false, true),
        (slowest, true)
    );
}

#[test]
fn selection_wraps_around() {
    let mut selected = SelectedBeatmap::default();
    assert_eq!(selected.index, 0);
    selected.select_next(3);
    assert_eq!(selected.index, 1);
    selected.select_next(3);
    assert_eq!(selected.index, 2);
    selected.select_next(3);
    assert_eq!(selected.index, 0);
    selected.select_previous(3);
    assert_eq!(selected.index, 2);
    selected.select_previous(3);
    assert_eq!(selected.index, 1);
    selected.select_previous(1);
    assert_eq!(selected.index, 0);
    selected.select_previous(1);
    assert_eq!(selected.index, 0);
    selected.select_next(1);
    assert_eq!(selected.index, 0);
}

#[test]
fn selection_in_an_empty_list_stays() {
    let mut selected = SelectedBeatmap { index: 2 };
    selected.select_next(0);
    assert_eq!(selected.index, 2);
    selected.select_previous(0);
    assert_eq!(selected.index, 2);
    // A selection beyond the list comes back into it.
    let mut selected = SelectedBeatmap { index: 9 };
    selected.select_next(3);
    assert_eq!(selected.index, 0);
    let mut selected = SelectedBeatmap { index: 9 };
    selected.select_previous(3);
    assert_eq!(selected.index, 8);
}
