use ozeecubed::trigger::{find_trigger_index, TriggerEdge, TriggerMode, TriggerSettings};

/// Volts as the microvolts that the library counts in.
fn uv(volts: f64) -> i32 {
    (volts * 1_000_000.0).round() as i32
}

#[test]
fn test_default_trigger_settings() {
    let settings = TriggerSettings::default();
    assert!(settings.enabled);
    assert_eq!(settings.mode, TriggerMode::Auto);
    assert_eq!(settings.edge, TriggerEdge::Rising);
    assert_eq!(settings.level, uv(0.0));
}

#[test]
fn test_toggle_enabled() {
    let mut settings = TriggerSettings::default();
    assert!(settings.enabled);

    settings.toggle_enabled();
    assert!(!settings.enabled);

    settings.toggle_enabled();
    assert!(settings.enabled);
}

#[test]
fn test_set_level() {
    let mut settings = TriggerSettings::default();

    settings.set_level(uv(5.0));
    assert_eq!(settings.level, uv(5.0));

    settings.set_level(uv(-3.5));
    assert_eq!(settings.level, uv(-3.5));
}

#[test]
fn test_set_level_clamping() {
    let mut settings = TriggerSettings::default();

    // Test upper bound
    settings.set_level(uv(15.0));
    assert_eq!(settings.level, uv(10.0));

    // Test lower bound
    settings.set_level(uv(-15.0));
    assert_eq!(settings.level, uv(-10.0));

    // Test within bounds
    settings.set_level(uv(7.5));
    assert_eq!(settings.level, uv(7.5));
}

#[test]
fn test_toggle_edge() {
    let mut settings = TriggerSettings::default();
    assert_eq!(settings.edge, TriggerEdge::Rising);

    settings.toggle_edge();
    assert_eq!(settings.edge, TriggerEdge::Falling);

    settings.toggle_edge();
    assert_eq!(settings.edge, TriggerEdge::Rising);
}

#[test]
fn test_trigger_mode_equality() {
    assert_eq!(TriggerMode::Auto, TriggerMode::Auto);
    assert_eq!(TriggerMode::Normal, TriggerMode::Normal);
    assert_eq!(TriggerMode::Single, TriggerMode::Single);
    assert_ne!(TriggerMode::Auto, TriggerMode::Normal);
}

#[test]
fn test_trigger_edge_equality() {
    assert_eq!(TriggerEdge::Rising, TriggerEdge::Rising);
    assert_eq!(TriggerEdge::Falling, TriggerEdge::Falling);
    assert_ne!(TriggerEdge::Rising, TriggerEdge::Falling);
}

#[test]
fn test_set_level_at_the_limits() {
    let mut settings = TriggerSettings::default();
    settings.set_level(10_000_000);
    assert_eq!(settings.level, 10_000_000);
    settings.set_level(10_000_001);
    assert_eq!(settings.level, 10_000_000);
    settings.set_level(-10_000_000);
    assert_eq!(settings.level, -10_000_000);
    settings.set_level(i32::MIN);
    assert_eq!(settings.level, -10_000_000);
    settings.set_level(i32::MAX);
    assert_eq!(settings.level, 10_000_000);
}

#[test]
fn test_toggles_leave_the_other_settings() {
    let mut settings = TriggerSettings {
        enabled: false,
        mode: TriggerMode::Single,
        edge: TriggerEdge::Falling,
        level: 42,
    };
    settings.toggle_enabled();
    settings.toggle_edge();
    settings.set_level(43);
    assert!(settings.enabled);
    assert_eq!(settings.mode, TriggerMode::Single);
    assert_eq!(settings.edge, TriggerEdge::Rising);
    assert_eq!(settings.level, 43);
}

#[test]
fn test_find_trigger_index_takes_the_first_crossing() {
    let samples = vec![-5, 5, -5, 5, -5, 5];
    let rising = TriggerSettings::default();
    assert_eq!(find_trigger_index(&samples, &rising), 1);
    let falling = TriggerSettings { edge: TriggerEdge::Falling, ..Default::default() };
    assert_eq!(find_trigger_index(&samples, &falling), 2);
}

#[test]
fn test_find_trigger_index_needs_a_strict_start() {
    // A sample that sits on the level does not start a rising edge, but it
    // ends one: the pair (-1, 0) fires, the pair (0, 1) does not.
    let settings = TriggerSettings::default();
    assert_eq!(find_trigger_index(&[0, 1, 2], &settings), 0);
    assert_eq!(find_trigger_index(&[3, -1, 0, 1], &settings), 2);
    let falling = TriggerSettings { edge: TriggerEdge::Falling, ..Default::default() };
    assert_eq!(find_trigger_index(&[0, -1, -2], &falling), 0);
    assert_eq!(find_trigger_index(&[-3, 1, 0, -1], &falling), 2);
}

#[test]
fn test_find_trigger_index_on_short_input() {
    let settings = TriggerSettings::default();
    assert_eq!(find_trigger_index(&[], &settings), 0);
    assert_eq!(find_trigger_index(&[7], &settings), 0);
    assert_eq!(find_trigger_index(&[-7, 7], &settings), 1);
}

#[test]
fn test_find_trigger_index_ignores_mode_and_enabled() {
    let samples = vec![-1, 1];
    for mode in [TriggerMode::Auto, TriggerMode::Normal, TriggerMode::Single] {
        for enabled in [true, false] {
            let settings = TriggerSettings { enabled, mode, edge: TriggerEdge::Rising, level: 0 };
            assert_eq!(find_trigger_index(&samples, &settings), 1);
        }
    }
}
