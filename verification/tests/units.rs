//! Display-string formatting and parsing of the two device parameters.

use late::buffer_size::{
    get_available_buffer_sizes, get_available_buffer_sizes_with_latency, get_buffer_size_string,
    get_buffer_size_value, get_current_buffer_size_with_latency, set_buffer_size_with_latency,
};
use late::sample_rate::{
    get_available_sample_rates, get_current_sample_rate_with_units, get_sample_rate_string,
    get_sample_rate_value, get_sample_rates_with_units, set_sample_rate_with_units,
};

#[test]
fn available_buffer_sizes_are_the_supported_set() {
    assert_eq!(get_available_buffer_sizes(), vec![0, 64, 128, 256, 512, 1024, 2048]);
}

#[test]
fn available_sample_rates_are_the_supported_set() {
    assert_eq!(
        get_available_sample_rates(),
        vec![0, 22050, 24000, 44100, 48000, 88200, 96000]
    );
}

#[test]
fn buffer_size_without_rate_has_no_latency_clause() {
    assert_eq!(get_buffer_size_string(128, None), "128");
}

#[test]
fn buffer_size_with_zero_rate_has_no_latency_clause() {
    assert_eq!(get_buffer_size_string(128, Some(0)), "128");
}

#[test]
fn buffer_size_with_rate_carries_latency() {
    // 128 frames at 48000 Hz: 128 * 1000 / 48000 = 2.666... ms, shown
    // rounded to hundredths.
    assert_eq!(get_buffer_size_string(128, Some(48000)), "128 (2.67ms)");
}

#[test]
fn buffer_size_latency_parses_back_to_the_value() {
    let display = get_buffer_size_string(128, Some(48000));
    assert_eq!(get_buffer_size_value(&display), Ok(128));
}

#[test]
fn buffer_size_latency_rounds_to_nearest_hundredth() {
    // 64 frames at 44100 Hz: 1.45124... ms.
    assert_eq!(get_buffer_size_string(64, Some(44100)), "64 (1.45ms)");
    // 512 frames at 22050 Hz: 23.2199... ms.
    assert_eq!(get_buffer_size_string(512, Some(22050)), "512 (23.22ms)");
}

#[test]
fn zero_buffer_size_formats_with_zero_latency() {
    assert_eq!(get_buffer_size_string(0, Some(48000)), "0 (0.00ms)");
}

#[test]
fn buffer_size_round_trip_over_supported_sets() {
    for v in get_available_buffer_sizes() {
        for sr in get_available_sample_rates() {
            let display = get_buffer_size_string(v, Some(sr));
            assert_eq!(get_buffer_size_value(&display), Ok(v));
        }
        let display = get_buffer_size_string(v, None);
        assert_eq!(get_buffer_size_value(&display), Ok(v));
    }
}

#[test]
fn sample_rate_formats_with_unit() {
    assert_eq!(get_sample_rate_string(48000), "48000 Hz");
    assert_eq!(get_sample_rate_string(0), "0 Hz");
}

#[test]
fn sample_rate_round_trip_over_supported_set() {
    for v in get_available_sample_rates() {
        let display = get_sample_rate_string(v);
        assert_eq!(get_sample_rate_value(&display), Ok(v));
    }
}

#[test]
fn sample_rate_round_trip_at_extremes() {
    assert_eq!(get_sample_rate_value(&get_sample_rate_string(u32::MAX)), Ok(u32::MAX));
    assert_eq!(get_sample_rate_value(&get_sample_rate_string(1)), Ok(1));
}

#[test]
fn parsing_rejects_malformed_input() {
    assert!(get_sample_rate_value("").is_err());
    assert!(get_sample_rate_value("Hz").is_err());
    assert!(get_sample_rate_value(" 48000 Hz").is_err());
    assert!(get_buffer_size_value("x128").is_err());
    assert!(get_buffer_size_value("(2.67ms)").is_err());
}

#[test]
fn parsing_rejects_values_over_u32() {
    assert!(get_sample_rate_value("4294967296 Hz").is_err());
    assert_eq!(get_sample_rate_value("4294967295 Hz"), Ok(u32::MAX));
    assert!(get_buffer_size_value("99999999999999999999").is_err());
}

#[test]
fn available_buffer_sizes_with_latency_render_each_size() {
    let displays = get_available_buffer_sizes_with_latency(Some(48000));
    assert_eq!(displays.len(), 7);
    assert_eq!(displays[0], "0 (0.00ms)");
    assert_eq!(displays[2], "128 (2.67ms)");
    let plain = get_available_buffer_sizes_with_latency(None);
    assert_eq!(plain[6], "2048");
}

#[test]
fn sample_rates_with_units_render_each_rate() {
    let displays = get_sample_rates_with_units();
    assert_eq!(displays.len(), 7);
    assert_eq!(displays[0], "0 Hz");
    assert_eq!(displays[4], "48000 Hz");
}

#[test]
fn current_values_format_only_when_known() {
    assert_eq!(
        get_current_buffer_size_with_latency(Some(128), Some(48000)),
        Some("128 (2.67ms)".to_string())
    );
    assert_eq!(get_current_buffer_size_with_latency(None, Some(48000)), None);
    assert_eq!(get_current_sample_rate_with_units(Some(44100)), Some("44100 Hz".to_string()));
    assert_eq!(get_current_sample_rate_with_units(None), None);
}

#[test]
fn set_with_display_strings_yields_the_raw_values() {
    assert_eq!(set_buffer_size_with_latency("256 (5.33ms)"), Ok(256));
    assert_eq!(set_buffer_size_with_latency("256"), Ok(256));
    assert_eq!(set_sample_rate_with_units("96000 Hz"), Ok(96000));
    assert!(set_buffer_size_with_latency("ms").is_err());
    assert!(set_sample_rate_with_units("- 48000").is_err());
}
