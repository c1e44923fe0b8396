use omegawhisper::capture::{
    can_read, get_input_device, get_safe_input_config, pitch_tick, Choice, ConfigRange, SampleKind,
};

fn range(min_rate: u32, max_rate: u32, kind: SampleKind) -> ConfigRange {
    ConfigRange { min_rate, max_rate, kind }
}

#[test]
fn the_best_rate_comes_first() {
    let configs = [
        range(8_000, 44_100, SampleKind::Float32),
        range(8_000, 48_000, SampleKind::Signed16),
        range(48_000, 96_000, SampleKind::Float32),
    ];
    assert_eq!(get_safe_input_config(&configs), Some(Choice { index: 2, rate: 48_000 }));
    assert_eq!(get_safe_input_config(&configs[..2]), Some(Choice { index: 1, rate: 48_000 }));
    assert_eq!(get_safe_input_config(&configs[..1]), Some(Choice { index: 0, rate: 44_100 }));
}

#[test]
fn every_preferred_rate_is_tried() {
    for (rate, lower) in [(16_000, 15_000), (32_000, 31_000), (96_000, 90_000)] {
        let configs = [range(lower, rate, SampleKind::Float32)];
        assert_eq!(get_safe_input_config(&configs), Some(Choice { index: 0, rate }));
    }
}

#[test]
fn nothing_is_chosen_where_nothing_fits() {
    assert_eq!(get_safe_input_config(&[]), None);
    let configs = [
        range(8_000, 96_000, SampleKind::Unsigned16),
        range(8_000, 96_000, SampleKind::Other),
        range(8_000, 11_025, SampleKind::Float32),
    ];
    assert_eq!(get_safe_input_config(&configs), None);
}

#[test]
fn the_device_that_follows_the_system_is_taken() {
    let names = [None, Some("default".to_string()), Some("pipewire".to_string()), Some("pipewire".to_string())];
    assert_eq!(get_input_device(&names), Some(2));
    assert_eq!(get_input_device(&names[..2]), None);
    assert_eq!(get_input_device(&[Some("PipeWire".to_string())]), None);
}

#[test]
fn unknown_formats_cannot_be_read() {
    assert!(can_read(SampleKind::Float32));
    assert!(can_read(SampleKind::Signed16));
    assert!(can_read(SampleKind::Unsigned16));
    assert!(!can_read(SampleKind::Other));
}

#[test]
fn the_pitch_is_sought_every_fourth_time() {
    let mut tick = 0;
    let mut sought = Vec::new();
    for _ in 0..9 {
        let (due, then) = pitch_tick(tick);
        sought.push(due);
        tick = then;
    }
    assert_eq!(sought, vec![true, false, false, false, true, false, false, false, true]);
    assert_eq!(pitch_tick(u32::MAX), (false, 0));
}
