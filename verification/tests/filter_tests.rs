use ten_values::log_filter::{
    AdvancedLogLevelFilter, AdvancedLogMatcher, DynamicTargetFilterLayer, FieldCollector,
    LogLevel, OtlpRecursionGuard,
};

fn matcher(category: Option<&str>, level: AdvancedLogLevelFilter) -> AdvancedLogMatcher {
    AdvancedLogMatcher { category: category.map(|s| s.to_string()), level }
}

#[test]
fn test_no_rules_filters_everything_out() {
    let layer = DynamicTargetFilterLayer::new((), vec![]);
    assert!(!layer.should_filter(LogLevel::Error, "anything"));
}

#[test]
fn test_specific_rule_matches_prefix() {
    let layer = DynamicTargetFilterLayer::new(
        (),
        vec![matcher(Some("net"), AdvancedLogLevelFilter::Info)],
    );
    assert!(layer.should_filter(LogLevel::Info, "net.http"));
    assert!(layer.should_filter(LogLevel::Error, "net"));
    assert!(!layer.should_filter(LogLevel::Debug, "net.http"));
    // no rule covers this category, and there is no global fallback
    assert!(!layer.should_filter(LogLevel::Error, "db"));
}

#[test]
fn test_last_matching_specific_rule_wins() {
    let layer = DynamicTargetFilterLayer::new(
        (),
        vec![
            matcher(Some("net"), AdvancedLogLevelFilter::Debug),
            matcher(Some("net.http"), AdvancedLogLevelFilter::Off),
        ],
    );
    // both patterns match; the later rule (Off) decides
    assert!(!layer.should_filter(LogLevel::Error, "net.http.client"));
    // only the first matches here
    assert!(layer.should_filter(LogLevel::Debug, "net.tcp"));
}

#[test]
fn test_global_rule_applies_when_no_specific_matches() {
    let layer = DynamicTargetFilterLayer::new(
        (),
        vec![
            matcher(None, AdvancedLogLevelFilter::Warn),
            matcher(Some("net"), AdvancedLogLevelFilter::Debug),
        ],
    );
    // specific rule matches and is preferred over the global one
    assert!(layer.should_filter(LogLevel::Debug, "net.http"));
    // global fallback passes only warnings and errors
    assert!(layer.should_filter(LogLevel::Warn, "db"));
    assert!(!layer.should_filter(LogLevel::Info, "db"));
}

#[test]
fn test_last_global_rule_wins() {
    let layer = DynamicTargetFilterLayer::new(
        (),
        vec![
            matcher(None, AdvancedLogLevelFilter::Error),
            matcher(None, AdvancedLogLevelFilter::Debug),
        ],
    );
    assert!(layer.should_filter(LogLevel::Debug, "whatever"));
}

#[test]
fn test_off_rule_filters_everything() {
    let layer = DynamicTargetFilterLayer::new(
        (),
        vec![matcher(Some(""), AdvancedLogLevelFilter::Off)],
    );
    // the empty pattern is a prefix of every category
    assert!(!layer.should_filter(LogLevel::Error, "x"));
}

#[test]
fn test_field_collector_classifies_fields() {
    let mut collector = FieldCollector::new();
    collector.record_field("message".to_string(), "hello".to_string());
    collector.record_field("ten_user_fields".to_string(), "{\"a\":1}".to_string());
    collector.record_field("span_id".to_string(), "17".to_string());
    collector.record_field("target".to_string(), "core".to_string());
    assert_eq!(collector.message, "hello");
    assert_eq!(collector.user_fields_json.as_deref(), Some("{\"a\":1}"));
    assert_eq!(
        collector.fields,
        vec![
            ("span_id".to_string(), "17".to_string()),
            ("target".to_string(), "core".to_string()),
        ]
    );
}

#[test]
fn test_recursion_guard_blocks_reentry() {
    let mut guard = OtlpRecursionGuard::new();
    assert!(guard.try_enter());
    assert!(!guard.try_enter());
    guard.exit();
    assert!(guard.try_enter());
}
