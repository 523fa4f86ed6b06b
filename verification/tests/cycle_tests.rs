use wifi_monitor::{
    diagnostics_cycle, parse_sensor_milli, probe_cycle, throughput_milli_mbps, MetricKind,
    MetricStore, ProbeOutcome, MAX_MEASURABLE_BYTES,
};

fn gauge_store() -> (MetricStore, wifi_monitor::MetricHandle) {
    let mut store = MetricStore::new();
    let h = store
        .register(
            String::from("download_mbps"),
            String::from("Download speed in megabits per second"),
            MetricKind::Gauge,
        )
        .unwrap();
    (store, h)
}

#[test]
fn throughput_matches_the_formula() {
    // 10 million bytes in one second: 80 megabits per second.
    assert_eq!(throughput_milli_mbps(10_000_000, 1_000_000), Some(80_000));
    // one megabyte in two seconds: 4 megabits per second.
    assert_eq!(throughput_milli_mbps(1_000_000, 2_000_000), Some(4_000));
    // truncation toward zero in thousandths.
    assert_eq!(throughput_milli_mbps(1, 3), Some(2_666));
    // a zero elapsed time is a clock anomaly, not a division.
    assert_eq!(throughput_milli_mbps(10_000_000, 0), None);
    // a payload too large to measure yields no value.
    assert_eq!(throughput_milli_mbps(MAX_MEASURABLE_BYTES + 1, 1), None);
    assert_eq!(
        throughput_milli_mbps(MAX_MEASURABLE_BYTES, 1),
        Some(MAX_MEASURABLE_BYTES * 8000)
    );
}

#[test]
fn successful_probe_publishes_throughput() {
    let (mut store, h) = gauge_store();
    let updated = probe_cycle(
        &mut store,
        h,
        ProbeOutcome::Success { payload_bytes: 10_000_000, elapsed_us: 1_000_000 },
    );
    assert!(updated);
    assert_eq!(store.current_value(h), Some(80_000));
    let body = store.render();
    assert!(body.contains("download_mbps 80"));
}

#[test]
fn failed_probe_keeps_the_previous_value() {
    let (mut store, h) = gauge_store();
    probe_cycle(
        &mut store,
        h,
        ProbeOutcome::Success { payload_bytes: 10_000_000, elapsed_us: 1_000_000 },
    );
    let before = store.render();
    let updated = probe_cycle(&mut store, h, ProbeOutcome::Failure);
    assert!(!updated);
    assert_eq!(store.current_value(h), Some(80_000));
    assert_eq!(store.render(), before);
}

#[test]
fn anomalous_probe_skips_the_update() {
    let (mut store, h) = gauge_store();
    store.set(h, 80_000);
    let zero_elapsed = probe_cycle(
        &mut store,
        h,
        ProbeOutcome::Success { payload_bytes: 10_000_000, elapsed_us: 0 },
    );
    assert!(!zero_elapsed);
    assert_eq!(store.current_value(h), Some(80_000));
    let oversized = probe_cycle(
        &mut store,
        h,
        ProbeOutcome::Success { payload_bytes: u64::MAX, elapsed_us: 1_000_000 },
    );
    assert!(!oversized);
    assert_eq!(store.current_value(h), Some(80_000));
}

#[test]
fn sensor_output_parses_to_thousandths() {
    assert_eq!(parse_sensor_milli("temp=48.9'C"), Some(48_900));
    assert_eq!(parse_sensor_milli("temp=48.9'C\n"), Some(48_900));
    assert_eq!(parse_sensor_milli("temp=50"), Some(50_000));
    assert_eq!(parse_sensor_milli("temp=50.25"), Some(50_250));
    assert_eq!(parse_sensor_milli("temp=50.125"), Some(50_125));
    assert_eq!(parse_sensor_milli("temp=0.5"), Some(500));
}

#[test]
fn malformed_sensor_output_has_no_value() {
    assert_eq!(parse_sensor_milli(""), None);
    assert_eq!(parse_sensor_milli("temp="), None);
    assert_eq!(parse_sensor_milli("temp=.5"), None);
    assert_eq!(parse_sensor_milli("temp=,5"), None);
    assert_eq!(parse_sensor_milli("cpu=50"), None);
    assert_eq!(parse_sensor_milli("temp=50.1234"), None);
    assert_eq!(parse_sensor_milli("temp=12345678901234567"), None);
    assert_eq!(parse_sensor_milli("temp=9999999999999999"), Some(9_999_999_999_999_999_000));
}

#[test]
fn diagnostics_cycle_updates_only_on_good_output() {
    let mut store = MetricStore::new();
    let h = store
        .register(String::from("cpu_temp"), String::from("CPU temp"), MetricKind::Gauge)
        .unwrap();
    assert!(diagnostics_cycle(&mut store, h, Some("temp=48.9'C")));
    assert_eq!(store.current_value(h), Some(48_900));
    assert!(!diagnostics_cycle(&mut store, h, Some("garbage")));
    assert_eq!(store.current_value(h), Some(48_900));
    assert!(!diagnostics_cycle(&mut store, h, None));
    assert_eq!(store.current_value(h), Some(48_900));
}
