use epimetheus::fetch::{content_type_format, extension_of, is_url};
use epimetheus::strutil::{contains_sub, list_contains, starts_with, str_eq, usize_to_string};
use epimetheus::{format_from_tag, Format};

#[test]
fn format_tags_map_to_decoders() {
    assert_eq!(format_from_tag("json"), Format::Json);
    assert_eq!(format_from_tag("yaml"), Format::Yaml);
    assert_eq!(format_from_tag("yml"), Format::Yaml);
    assert_eq!(format_from_tag("csv"), Format::Csv);
    assert_eq!(format_from_tag("toml"), Format::Unknown);
    assert_eq!(format_from_tag(""), Format::Unknown);
}

#[test]
fn content_type_match_is_case_insensitive_substring() {
    assert_eq!(content_type_format(Some("application/json")), Format::Json);
    assert_eq!(
        content_type_format(Some("Application/JSON; charset=utf-8")),
        Format::Json
    );
    assert_eq!(content_type_format(Some("application/yaml")), Format::Yaml);
    assert_eq!(content_type_format(Some("application/x-yaml")), Format::Yaml);
    assert_eq!(content_type_format(Some("Text/X-YAML")), Format::Yaml);
    assert_eq!(content_type_format(Some("text/csv; header=present")), Format::Csv);
    assert_eq!(content_type_format(Some("text/html")), Format::Unknown);
    assert_eq!(content_type_format(None), Format::Unknown);
}

#[test]
fn url_sources_are_told_apart_from_paths() {
    assert!(is_url("http://example.test/metrics.json"));
    assert!(is_url("https://example.test/data"));
    assert!(!is_url("httpx://example.test"));
    assert!(!is_url("/var/data/metrics.json"));
    assert!(!is_url("relative/path.yaml"));
}

#[test]
fn file_extension_is_the_format_tag() {
    assert_eq!(extension_of("data/metrics.json"), "json");
    assert_eq!(extension_of("/srv/a.yml"), "yml");
    assert_eq!(extension_of("a.tar.gz"), "gz");
    assert_eq!(extension_of("noext"), "");
    assert_eq!(extension_of("dir.d/file"), "");
    assert_eq!(extension_of(".bashrc"), "");
    assert_eq!(extension_of("trailing."), "");
}

#[test]
fn string_helpers_behave_like_their_specifications() {
    assert!(str_eq("abc", "abc"));
    assert!(!str_eq("abc", "abd"));
    assert!(!str_eq("abc", "ab"));
    assert!(starts_with("http://x", "http://"));
    assert!(!starts_with("htt", "http://"));
    assert!(contains_sub("application/json; charset", "application/json"));
    assert!(!contains_sub("application/jso", "application/json"));
    assert!(contains_sub("anything", ""));
    assert_eq!(usize_to_string(0), "0");
    assert_eq!(usize_to_string(10), "10");
    assert_eq!(usize_to_string(90210), "90210");
    let keys = vec!["a".to_string(), "b".to_string()];
    assert!(list_contains(&keys, "b"));
    assert!(!list_contains(&keys, "c"));
}
