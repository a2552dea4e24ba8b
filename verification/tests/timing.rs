use ssfseq::timing::{measure_tick_to_ms, ms_to_dt};

#[test]
fn ms_at_origin_is_zero() {
    assert_eq!(measure_tick_to_ms(0, 0, 120), 0);
}

#[test]
fn ms_of_whole_measures() {
    // 60000 / 120 = 500 ms per beat, 2000 ms per measure
    assert_eq!(measure_tick_to_ms(1, 0, 120), 2000);
    assert_eq!(measure_tick_to_ms(3, 0, 120), 6000);
}

#[test]
fn ms_of_tick_fraction_truncates() {
    // 96 ticks = half a measure exactly
    assert_eq!(measure_tick_to_ms(0, 96, 120), 1000);
    // 50 * 2000 / 192 = 520.83..., truncated toward zero
    assert_eq!(measure_tick_to_ms(0, 50, 120), 520);
    // 191 * 34284 / 192 at bpm 7 (ms per measure (60000/7)*4 = 34284)
    assert_eq!(measure_tick_to_ms(0, 191, 7), 34105);
}

#[test]
fn ms_clamps_at_u32_range() {
    assert_eq!(measure_tick_to_ms(u32::MAX, 0, 1), u32::MAX);
}

#[test]
fn dt_is_ms_times_eight_thousandths_times_bpm() {
    assert_eq!(ms_to_dt(0, 120), 0);
    assert_eq!(ms_to_dt(1000, 120), 960);
    // 520 * 120 / 125 = 499.2, truncated
    assert_eq!(ms_to_dt(520, 120), 499);
    assert_eq!(ms_to_dt(12345, 0), 0);
}

#[test]
fn dt_clamps_at_u32_range() {
    assert_eq!(ms_to_dt(u32::MAX, u32::MAX), u32::MAX);
}

#[test]
fn ms_is_monotone_in_lexicographic_position() {
    let bpm = 97;
    let mut last = 0;
    for m in 0..3u32 {
        for t in 0..192u32 {
            let v = measure_tick_to_ms(m, t, bpm);
            assert!(v >= last);
            last = v;
        }
    }
}

#[test]
fn dt_is_monotone_in_ms() {
    let mut last = 0;
    for ms in (0..100000u32).step_by(997) {
        let v = ms_to_dt(ms, 151);
        assert!(v >= last);
        last = v;
    }
}
