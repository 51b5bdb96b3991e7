use epimetheus::decode::decode_json;
use epimetheus::gauges::{reconcile, GaugeMap};

fn gauge_value(registry: &prometheus::Registry, name: &str) -> Option<f64> {
    for family in registry.gather() {
        if family.get_name() == name {
            return Some(family.get_metric()[0].get_gauge().get_value());
        }
    }
    None
}

#[test]
fn ignored_key_produces_no_gauge_and_no_count() {
    let registry = prometheus::Registry::new();
    let mut gm = GaugeMap::new();
    let fm = decode_json("{\"secret\": 1, \"public\": 2}").expect("valid json");
    let ignore = vec!["secret".to_string()];
    let count = reconcile(&mut gm, &registry, &fm, &ignore, "");
    assert_eq!(count, 1);
    assert!(gm.has_name("public"));
    assert!(!gm.has_name("secret"));
    assert_eq!(registry.gather().len(), 1);
    assert_eq!(gauge_value(&registry, "public"), Some(2.0));
    assert_eq!(gauge_value(&registry, "secret"), None);
}

#[test]
fn gauge_is_reused_across_cycles_with_last_value_winning() {
    let registry = prometheus::Registry::new();
    let mut gm = GaugeMap::new();
    let ignore: Vec<String> = Vec::new();
    let fm1 = decode_json("{\"x\": 1}").expect("valid json");
    let fm2 = decode_json("{\"x\": 2}").expect("valid json");
    let c1 = reconcile(&mut gm, &registry, &fm1, &ignore, "");
    let c2 = reconcile(&mut gm, &registry, &fm2, &ignore, "");
    assert_eq!(c1, 1);
    assert_eq!(c2, 1);
    let families = registry.gather();
    assert_eq!(families.len(), 1);
    assert_eq!(families[0].get_name(), "x");
    assert_eq!(gauge_value(&registry, "x"), Some(2.0));
}

#[test]
fn non_numeric_string_contributes_nothing() {
    let registry = prometheus::Registry::new();
    let mut gm = GaugeMap::new();
    let ignore: Vec<String> = Vec::new();
    let fm = decode_json("{\"k\": \"not-a-number\"}").expect("valid json");
    let count = reconcile(&mut gm, &registry, &fm, &ignore, "");
    assert_eq!(count, 0);
    assert!(!gm.has_name("k"));
    assert_eq!(registry.gather().len(), 0);
}

#[test]
fn numeric_strings_are_coerced() {
    let registry = prometheus::Registry::new();
    let mut gm = GaugeMap::new();
    let ignore: Vec<String> = Vec::new();
    let fm = decode_json("{\"rate\": \"2.5\"}").expect("valid json");
    let count = reconcile(&mut gm, &registry, &fm, &ignore, "");
    assert_eq!(count, 1);
    assert_eq!(gauge_value(&registry, "rate"), Some(2.5));
}

#[test]
fn booleans_and_nulls_are_skipped() {
    let registry = prometheus::Registry::new();
    let mut gm = GaugeMap::new();
    let ignore: Vec<String> = Vec::new();
    let fm = decode_json("{\"b\": true, \"n\": null, \"v\": 3}").expect("valid json");
    let count = reconcile(&mut gm, &registry, &fm, &ignore, "");
    assert_eq!(count, 1);
    assert!(gm.has_name("v"));
    assert!(!gm.has_name("b"));
    assert!(!gm.has_name("n"));
}

#[test]
fn prefix_is_prepended_verbatim_to_every_key() {
    let registry = prometheus::Registry::new();
    let mut gm = GaugeMap::new();
    let ignore: Vec<String> = Vec::new();
    let fm = decode_json("{\"x\": 1}").expect("valid json");
    let count = reconcile(&mut gm, &registry, &fm, &ignore, "app_");
    assert_eq!(count, 1);
    assert!(gm.has_name("app_x"));
    assert!(!gm.has_name("x"));
    assert_eq!(gauge_value(&registry, "app_x"), Some(1.0));
}

#[test]
fn invalid_metric_name_is_skipped_without_failing_the_call() {
    let registry = prometheus::Registry::new();
    let mut gm = GaugeMap::new();
    let ignore: Vec<String> = Vec::new();
    let fm = decode_json("{\"bad key\": 1, \"good_key\": 2}").expect("valid json");
    let count = reconcile(&mut gm, &registry, &fm, &ignore, "");
    assert_eq!(count, 1);
    assert!(gm.has_name("good_key"));
    assert!(!gm.has_name("bad key"));
}

#[test]
fn registration_conflict_is_recoverable_and_skips_the_key() {
    let registry = prometheus::Registry::new();
    let ignore: Vec<String> = Vec::new();

    let mut gm1 = GaugeMap::new();
    let fm1 = decode_json("{\"x\": 1}").expect("valid json");
    assert_eq!(reconcile(&mut gm1, &registry, &fm1, &ignore, ""), 1);

    // A second map over the same registry does not know the gauge exists;
    // its registration attempt is refused and the key is skipped.
    let mut gm2 = GaugeMap::new();
    let fm2 = decode_json("{\"x\": 2, \"y\": 3}").expect("valid json");
    let count = reconcile(&mut gm2, &registry, &fm2, &ignore, "");
    assert_eq!(count, 1);
    assert!(!gm2.has_name("x"));
    assert!(gm2.has_name("y"));
    assert_eq!(gauge_value(&registry, "x"), Some(1.0));
    assert_eq!(gauge_value(&registry, "y"), Some(3.0));
}
