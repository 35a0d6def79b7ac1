use dsh_host::time_context::{
    ConfigField, ConfigShape, InjectionView, PLUGIN_SOURCE, TimeContextConfig, TimelineEvent, elapsed_ms,
    format_duration, format_utc_timestamp, injection_for, injection_view, resolve_config_value,
    should_skip_interval,
};

fn view(events: &[TimelineEvent]) -> InjectionView {
    injection_view(events)
}

#[test]
fn format_duration_matches_typescript() {
    assert_eq!(format_duration(0), "0s");
    assert_eq!(format_duration(500), "0s");
    assert_eq!(format_duration(1_000), "1s");
    assert_eq!(format_duration(61_000), "1m 1s");
    assert_eq!(format_duration(3_661_000), "1h 1m 1s");
    assert_eq!(format_duration(90_061_000), "1d 1h 1m 1s");
}

#[test]
fn format_utc_timestamp_is_fixed_width() {
    assert_eq!(format_utc_timestamp(0), "1970-01-01 00:00:00 UTC");
    assert_eq!(format_utc_timestamp(61_000), "1970-01-01 00:01:01 UTC");
    assert_eq!(format_utc_timestamp(1_709_164_800_000), "2024-02-29 00:00:00 UTC");
    assert_eq!(format_utc_timestamp(1_786_838_400_000), "2026-08-16 00:00:00 UTC");
}

#[test]
fn timestamps_keep_their_width_across_years() {
    assert_eq!(format_utc_timestamp(951_782_400_000), "2000-02-29 00:00:00 UTC");
    assert_eq!(format_utc_timestamp(253_402_300_799_000), "9999-12-31 23:59:59 UTC");
    assert_eq!(format_utc_timestamp(86_399_999).len(), 23);
}

#[test]
fn skips_reject_and_empty_enter() {
    let view = view(&[TimelineEvent::TurnStart { turn: 1 }]);
    let config = TimeContextConfig::default();
    assert_eq!(injection_for(0, &view, 0, config.refresh_interval_ms), None);
}

#[test]
fn first_step_text_uses_model_visible_baseline() {
    let view = view(&[TimelineEvent::TurnStart { turn: 1 }]);
    let text = injection_for(1, &view, 0, TimeContextConfig::default().refresh_interval_ms).expect("injected");
    assert_eq!(
        text,
        "Time sampled while preparing turn 1, step 1: 1970-01-01 00:00:00 UTC\n\
         Elapsed since the preceding model-visible message: unavailable."
    );
}

#[test]
fn later_step_uses_step_context_baseline_and_duration() {
    let view = view(&[
        TimelineEvent::TurnStart { turn: 3 },
        TimelineEvent::StepStart { turn: 3, step: 1 },
        TimelineEvent::UserMessage { time: 0, time_context: true },
    ]);
    let text = injection_for(1, &view, 61_000, TimeContextConfig::default().refresh_interval_ms).expect("injected");
    assert_eq!(
        text,
        "Time sampled while preparing turn 3, step 2: 1970-01-01 00:01:01 UTC\n\
         Elapsed since the preceding step context: 1m 1s."
    );
}

#[test]
fn positive_interval_skips_until_threshold() {
    let view = view(&[
        TimelineEvent::TurnStart { turn: 1 },
        TimelineEvent::UserMessage { time: 1_000, time_context: true },
    ]);
    let config = TimeContextConfig { time_zone: None, refresh_interval_ms: Some(1_000) };
    assert_eq!(injection_for(1, &view, 1_999, config.refresh_interval_ms), None);
    assert!(injection_for(1, &view, 2_000, config.refresh_interval_ms).is_some());
}

#[test]
fn first_step_baseline_is_the_latest_visible_message() {
    let view = view(&[
        TimelineEvent::UserMessage { time: 5_000, time_context: false },
        TimelineEvent::AssistantMessage { time: 7_000 },
        TimelineEvent::TurnStart { turn: 2 },
        TimelineEvent::Other,
    ]);
    assert_eq!(view.turn, 2);
    assert_eq!(view.step, 1);
    assert_eq!(view.previous, Some(7_000));
    assert_eq!(view.last_injection, None);
}

#[test]
fn interval_rules_and_elapsed_clamp() {
    assert!(!should_skip_interval(10, Some(5), None));
    assert!(!should_skip_interval(10, Some(5), Some(0)));
    assert!(!should_skip_interval(10, None, Some(100)));
    assert!(!should_skip_interval(10, Some(-1), Some(100)));
    assert!(should_skip_interval(10, Some(5), Some(100)));
    assert!(!should_skip_interval(4, Some(5), Some(100)));
    assert_eq!(elapsed_ms(10, -3), 0);
    assert_eq!(elapsed_ms(10, 30), 0);
    assert_eq!(elapsed_ms(30, 10), 20);
    assert_eq!(PLUGIN_SOURCE, "time-context");
}

#[test]
fn lib_unknown_config_key_fails_plugin_load() {
    let err = resolve_config_value(ConfigShape::Object, &["density".to_string()], ConfigField::Absent, ConfigField::Absent)
        .unwrap_err();
    assert!(err.to_string().contains("unknown key"));
}

#[test]
fn negative_refresh_interval_fails_with_refresh_interval_ms() {
    let err = resolve_config_value(
        ConfigShape::Object,
        &["refreshIntervalMs".to_string()],
        ConfigField::Absent,
        ConfigField::Invalid,
    )
    .unwrap_err();
    assert!(err.to_string().contains("refreshIntervalMs"));
}

#[test]
fn config_reads_zone_and_interval() {
    let c = resolve_config_value(
        ConfigShape::Object,
        &["timeZone".to_string(), "refreshIntervalMs".to_string()],
        ConfigField::Text("UTC".into()),
        ConfigField::Count(5),
    )
    .unwrap();
    assert_eq!(c, TimeContextConfig { time_zone: Some("UTC".into()), refresh_interval_ms: Some(5) });
    assert_eq!(
        resolve_config_value(ConfigShape::Other, &[], ConfigField::Absent, ConfigField::Absent).unwrap_err().to_string(),
        "TimeContextConfig: config must be an object"
    );
    assert_eq!(
        resolve_config_value(ConfigShape::Object, &[], ConfigField::Invalid, ConfigField::Absent).unwrap_err().to_string(),
        "TimeContextConfig.timeZone must be a string"
    );
}
