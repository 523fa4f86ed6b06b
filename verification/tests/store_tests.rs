use wifi_monitor::{
    handle_metrics_request, milli_to_string, u64_to_string, Method, MetricKind, MetricStore,
    RegisterError, RequestLabels,
};

fn parse_samples(text: &str) -> Vec<(String, u64)> {
    let mut out = Vec::new();
    for line in text.split('\n') {
        if line.is_empty() || line.starts_with('#') {
            continue;
        }
        let mut parts = line.splitn(2, ' ');
        let name = parts.next().unwrap().to_string();
        let value = parts.next().unwrap();
        let mut halves = value.splitn(2, '.');
        let int_part: u64 = halves.next().unwrap().parse().unwrap();
        let frac_part: u64 = halves.next().unwrap().parse().unwrap();
        out.push((name, int_part * 1000 + frac_part));
    }
    out
}

#[test]
fn decimal_formatting_is_exact() {
    assert_eq!(u64_to_string(0), "0");
    assert_eq!(u64_to_string(7), "7");
    assert_eq!(u64_to_string(1234567890123), "1234567890123");
    assert_eq!(milli_to_string(80000), "80.000");
    assert_eq!(milli_to_string(0), "0.000");
    assert_eq!(milli_to_string(12), "0.012");
    assert_eq!(milli_to_string(1234567), "1234.567");
}

#[test]
fn register_gauge_renders_without_sample() {
    let mut store = MetricStore::new();
    let h = store
        .register(
            String::from("download_mbps"),
            String::from("Download speed in megabits per second"),
            MetricKind::Gauge,
        )
        .unwrap();
    assert_eq!(h.idx, 0);
    let body = store.render();
    assert!(body.contains("# HELP download_mbps Download speed in megabits per second\n"));
    assert!(body.contains("# TYPE download_mbps gauge\n"));
    assert!(body.ends_with("# EOF\n"));
    assert!(parse_samples(&body).is_empty());
}

#[test]
fn duplicate_registration_is_refused() {
    let mut store = MetricStore::new();
    store
        .register(String::from("download_mbps"), String::from("first"), MetricKind::Gauge)
        .unwrap();
    let second = store.register(
        String::from("download_mbps"),
        String::from("second"),
        MetricKind::Gauge,
    );
    assert_eq!(second.unwrap_err(), RegisterError::DuplicateName);
    assert_eq!(store.len(), 1);
}

#[test]
fn invalid_names_and_helps_are_refused() {
    let mut store = MetricStore::new();
    let bad_start = store.register(String::from("9lives"), String::from("ok"), MetricKind::Gauge);
    assert_eq!(bad_start.unwrap_err(), RegisterError::InvalidName);
    let bad_char = store.register(String::from("has space"), String::from("ok"), MetricKind::Gauge);
    assert_eq!(bad_char.unwrap_err(), RegisterError::InvalidName);
    let empty = store.register(String::new(), String::from("ok"), MetricKind::Gauge);
    assert_eq!(empty.unwrap_err(), RegisterError::InvalidName);
    let bad_help = store.register(String::from("fine"), String::from("a\nb"), MetricKind::Gauge);
    assert_eq!(bad_help.unwrap_err(), RegisterError::InvalidHelp);
    assert_eq!(store.len(), 0);
}

#[test]
fn set_overwrites_and_renders() {
    let mut store = MetricStore::new();
    let h = store
        .register(String::from("download_mbps"), String::from("speed"), MetricKind::Gauge)
        .unwrap();
    store.set(h, 42500);
    assert_eq!(store.current_value(h), Some(42500));
    store.set(h, 80000);
    assert_eq!(store.current_value(h), Some(80000));
    let body = store.render();
    assert!(body.contains("download_mbps 80.000\n"));
}

#[test]
fn counter_only_grows() {
    let mut store = MetricStore::new();
    let h = store
        .register(
            String::from("http_requests_total"),
            String::from("Total number of HTTP requests"),
            MetricKind::Counter,
        )
        .unwrap();
    assert_eq!(store.current_value(h), None);
    store.increment(h);
    assert_eq!(store.current_value(h), Some(1000));
    store.increment(h);
    assert_eq!(store.current_value(h), Some(2000));
    let body = store.render();
    assert!(body.contains("# TYPE http_requests_total counter\n"));
    assert!(body.contains("http_requests_total 2.000\n"));
}

#[test]
fn render_parses_back_to_what_was_set() {
    let mut store = MetricStore::new();
    let g = store
        .register(String::from("download_mbps"), String::from("speed"), MetricKind::Gauge)
        .unwrap();
    let t = store
        .register(String::from("cpu_temp"), String::from("CPU temp"), MetricKind::Gauge)
        .unwrap();
    let c = store
        .register(String::from("http_requests_total"), String::from("hits"), MetricKind::Counter)
        .unwrap();
    store.set(g, 80000);
    store.set(t, 48900);
    store.increment(c);
    let samples = parse_samples(&store.render());
    assert_eq!(
        samples,
        vec![
            (String::from("download_mbps"), 80000),
            (String::from("cpu_temp"), 48900),
            (String::from("http_requests_total"), 1000),
        ]
    );
}

#[test]
fn metrics_request_always_answers_200() {
    let mut store = MetricStore::new();
    let empty_reply = handle_metrics_request(&store);
    assert_eq!(empty_reply.status, 200);
    assert_eq!(
        empty_reply.content_type,
        "application/openmetrics-text; version=1.0.0; charset=utf-8"
    );
    assert_eq!(empty_reply.body, store.render());
    let h = store
        .register(String::from("download_mbps"), String::from("speed"), MetricKind::Gauge)
        .unwrap();
    store.set(h, 80000);
    let reply = handle_metrics_request(&store);
    assert_eq!(reply.status, 200);
    assert_eq!(reply.body, store.render());
    assert!(reply.body.contains("download_mbps 80"));
}

#[test]
fn record_request_counts_gets() {
    let mut store = MetricStore::new();
    let c = store
        .register(String::from("http_requests_total"), String::from("hits"), MetricKind::Counter)
        .unwrap();
    wifi_monitor::record_request(&mut store, c, RequestLabels { method: Method::Get });
    wifi_monitor::record_request(&mut store, c, RequestLabels { method: Method::Get });
    assert_eq!(store.current_value(c), Some(2000));
}
