use epimetheus::exporter::Collector;
use epimetheus::{format_from_tag, Format};

fn metric_value(registry: &prometheus::Registry, name: &str) -> Option<f64> {
    for family in registry.gather() {
        if family.get_name() == name {
            let m = &family.get_metric()[0];
            if m.has_gauge() {
                return Some(m.get_gauge().get_value());
            }
            return Some(m.get_counter().get_value());
        }
    }
    None
}

#[test]
fn failure_of_one_source_is_isolated_from_the_others() {
    let registry = prometheus::Registry::new();
    let mut c = Collector::new(registry.clone(), Vec::new(), String::new(), 3)
        .expect("instrument registration");
    c.begin_cycle();

    c.record_attempt();
    let c1 = c.ingest("{\"a\": 1}", format_from_tag("json"));

    c.record_attempt();
    c.record_fetch_failure();

    c.record_attempt();
    let c3 = c.ingest("{\"b\": 2, \"c\": 3}", format_from_tag("json"));

    c.end_cycle();

    assert_eq!(c1, 1);
    assert_eq!(c3, 2);
    assert_eq!(metric_value(&registry, "epimetheus_sources_total"), Some(3.0));
    assert_eq!(metric_value(&registry, "epimetheus_source_reads_total"), Some(3.0));
    assert_eq!(metric_value(&registry, "epimetheus_source_read_failures_total"), Some(1.0));
    assert_eq!(metric_value(&registry, "epimetheus_metrics_total"), Some(3.0));
    assert_eq!(metric_value(&registry, "a"), Some(1.0));
    assert_eq!(metric_value(&registry, "b"), Some(2.0));
    assert_eq!(metric_value(&registry, "c"), Some(3.0));
}

#[test]
fn cycle_count_reflects_only_the_latest_cycle() {
    let registry = prometheus::Registry::new();
    let mut c = Collector::new(registry.clone(), Vec::new(), String::new(), 1)
        .expect("instrument registration");
    c.begin_cycle();
    c.record_attempt();
    c.ingest("{\"a\": 1, \"b\": 2}", Format::Json);
    c.end_cycle();
    assert_eq!(metric_value(&registry, "epimetheus_metrics_total"), Some(2.0));

    c.begin_cycle();
    c.record_attempt();
    c.ingest("{\"a\": 5}", Format::Json);
    c.end_cycle();
    assert_eq!(metric_value(&registry, "epimetheus_metrics_total"), Some(1.0));
    assert_eq!(metric_value(&registry, "a"), Some(5.0));
}

#[test]
fn unknown_format_contributes_zero() {
    let registry = prometheus::Registry::new();
    let mut c = Collector::new(registry.clone(), Vec::new(), String::new(), 1)
        .expect("instrument registration");
    c.begin_cycle();
    c.record_attempt();
    let n = c.ingest("{\"a\": 1}", format_from_tag("toml"));
    c.end_cycle();
    assert_eq!(n, 0);
    assert_eq!(metric_value(&registry, "epimetheus_metrics_total"), Some(0.0));
}

#[test]
fn undecodable_content_contributes_zero_without_stopping_the_cycle() {
    let registry = prometheus::Registry::new();
    let mut c = Collector::new(registry.clone(), Vec::new(), String::new(), 2)
        .expect("instrument registration");
    c.begin_cycle();
    c.record_attempt();
    let n1 = c.ingest("{broken", Format::Json);
    c.record_attempt();
    let n2 = c.ingest("{\"ok\": 4}", Format::Json);
    c.end_cycle();
    assert_eq!(n1, 0);
    assert_eq!(n2, 1);
    assert_eq!(metric_value(&registry, "epimetheus_metrics_total"), Some(1.0));
}

#[test]
fn ignore_keys_reach_the_reconciler_through_the_collector() {
    let registry = prometheus::Registry::new();
    let mut c = Collector::new(
        registry.clone(),
        vec!["secret".to_string()],
        String::new(),
        1,
    )
    .expect("instrument registration");
    c.begin_cycle();
    c.record_attempt();
    let n = c.ingest("{\"secret\": 1, \"public\": 2}", Format::Json);
    c.end_cycle();
    assert_eq!(n, 1);
    assert_eq!(metric_value(&registry, "public"), Some(2.0));
    assert_eq!(metric_value(&registry, "secret"), None);
}
