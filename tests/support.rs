use queuebot::config::Template as Pattern;
use queuebot::document::{Param, Template};
use queuebot::text::{decimal_text, ends_with, is_numeric, strip_prefix, strip_suffix};
use queuebot::{from_path, is_emergency_stopped, load_config};

#[test]
fn decimal_numbers() {
    assert_eq!(decimal_text(0), "0");
    assert_eq!(decimal_text(7), "7");
    assert_eq!(decimal_text(10), "10");
    assert_eq!(decimal_text(1203), "1203");
}

#[test]
fn numeric_keys() {
    assert!(is_numeric("1"));
    assert!(is_numeric("042"));
    assert!(!is_numeric(""));
    assert!(!is_numeric("1a"));
    assert!(!is_numeric("redirect"));
}

#[test]
fn prefixes_and_suffixes() {
    assert_eq!(strip_prefix("Category:A", "Category:"), "A");
    assert_eq!(strip_prefix("A", "Category:"), "A");
    assert_eq!(strip_suffix("Aの画像提供依頼", "の画像提供依頼"), "A");
    assert!(ends_with("Aの画像提供依頼", "の画像提供依頼"));
    assert!(!ends_with("依頼", "の画像提供依頼"));
}

#[test]
fn emergency_stop_page() {
    let texts = |v: &[&str]| v.iter().map(|s| s.to_string()).collect::<Vec<_>>();
    assert!(!is_emergency_stopped(&texts(&["緊急停止", "動作中"])));
    assert!(is_emergency_stopped(&texts(&["緊急停止", "停止"])));
    assert!(is_emergency_stopped(&texts(&["動作中"])));
    assert!(is_emergency_stopped(&texts(&[])));
}

#[test]
fn config_sources() {
    let s = from_path("custom");
    assert_eq!(s.file, "custom");
    assert_eq!(s.env_prefix, "QUEUEBOT");
    assert_eq!(load_config().file, "queuebot");
}

#[test]
fn template_pattern_matches() {
    let page = Template {
        name: "Template:Vote".to_string(),
        params: vec![Param { key: "1".to_string(), value: "keep".to_string(), parsed: None, rewritten: None }],
        origin: None,
    };
    let p = |name: &str, params: Vec<(&str, Option<&str>)>| Pattern {
        name: name.to_string(),
        params: params.into_iter().map(|(k, v)| (k.to_string(), v.map(|v| v.to_string()))).collect(),
    };
    assert!(p("Template:Vote", vec![("1", Some("keep"))]).matches(&page));
    assert!(p("Template:Vote", vec![("2", None)]).matches(&page));
    assert!(!p("Template:Vote", vec![("1", Some("delete"))]).matches(&page));
    assert!(!p("Template:Vote", vec![("1", None)]).matches(&page));
    assert!(!p("Template:Other", vec![]).matches(&page));
}
