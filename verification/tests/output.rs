use chix::json::Json;
use chix::output::ArrayLimits;
use chix::output::OutputLimits;
use chix::output::OutputLimitsConfig;
use chix::output::limit_json_array;
use chix::output::limit_text_output;
use chix::output::merge_array_limits_with_config;
use chix::output::merge_limits_with_config;

fn obj_a(n: i64) -> Json {
    Json::Obj(vec![("a".to_string(), Json::Int(n))])
}

#[test]
fn test_limit_text_no_truncation() {
    let input = "line1\nline2\nline3";
    let limits = OutputLimits::default();
    let result = limit_text_output(input, &limits);

    assert!(!result.truncated);
    assert_eq!(result.content, input);
    assert!(result.truncation_info.is_none());
}

#[test]
fn test_limit_text_head() {
    let input = "line1\nline2\nline3\nline4\nline5";
    let limits = OutputLimits { head: Some(2), ..OutputLimits::default() };
    let result = limit_text_output(input, &limits);

    assert!(result.truncated);
    assert_eq!(result.content, "line1\nline2");
    let info = result.truncation_info.unwrap();
    assert_eq!(info.original_lines, Some(5));
    assert_eq!(info.kept_lines, Some(2));
    assert_eq!(info.position, Some("head".to_string()));
}

#[test]
fn test_limit_text_tail() {
    let input = "line1\nline2\nline3\nline4\nline5";
    let limits = OutputLimits { tail: Some(2), ..OutputLimits::default() };
    let result = limit_text_output(input, &limits);

    assert!(result.truncated);
    assert_eq!(result.content, "line4\nline5");
    let info = result.truncation_info.unwrap();
    assert_eq!(info.position, Some("tail".to_string()));
}

#[test]
fn test_limit_text_max_bytes() {
    let input = "line1\nline2\nline3";
    let limits = OutputLimits { max_bytes: Some(10), ..OutputLimits::default() };
    let result = limit_text_output(input, &limits);

    assert!(result.truncated);
    assert_eq!(result.content, "line1");
}

#[test]
fn test_limit_text_max_lines() {
    let input = "line1\nline2\nline3\nline4\nline5";
    let limits = OutputLimits { max_lines: Some(3), ..OutputLimits::default() };
    let result = limit_text_output(input, &limits);

    assert!(result.truncated);
    assert_eq!(result.content, "line1\nline2\nline3");
}

#[test]
fn test_limit_json_array_no_truncation() {
    let items = vec![obj_a(1), obj_a(2), obj_a(3)];
    let limits = ArrayLimits::default();
    let result = limit_json_array(items, &limits);

    assert!(!result.truncated);
    assert_eq!(result.items.len(), 3);
    assert_eq!(result.total_count, 3);
    assert!(!result.pagination.has_more);
}

#[test]
fn test_limit_json_array_with_limit() {
    let items = vec![obj_a(1), obj_a(2), obj_a(3), obj_a(4), obj_a(5)];
    let limits = ArrayLimits { limit: Some(2), offset: None };
    let result = limit_json_array(items, &limits);

    assert!(result.truncated);
    assert_eq!(result.items.len(), 2);
    assert_eq!(result.total_count, 5);
    assert!(result.pagination.has_more);
    assert_eq!(result.pagination.offset, 0);
    assert_eq!(result.pagination.limit, 2);
}

#[test]
fn test_limit_json_array_with_offset() {
    let items = vec![obj_a(1), obj_a(2), obj_a(3), obj_a(4), obj_a(5)];
    let limits = ArrayLimits { limit: Some(2), offset: Some(2) };
    let result = limit_json_array(items, &limits);

    assert!(result.truncated);
    assert_eq!(result.items.len(), 2);
    assert_eq!(result.items[0], obj_a(3));
    assert_eq!(result.items[1], obj_a(4));
    assert!(result.pagination.has_more);
    assert_eq!(result.pagination.offset, 2);
}

#[test]
fn test_limit_json_array_offset_at_end() {
    let items = vec![obj_a(1), obj_a(2), obj_a(3)];
    let limits = ArrayLimits { limit: Some(2), offset: Some(2) };
    let result = limit_json_array(items, &limits);

    assert_eq!(result.items.len(), 1);
    assert!(!result.pagination.has_more);
}

#[test]
fn test_config_defaults() {
    let config = OutputLimitsConfig::default();
    assert_eq!(config.default_max_bytes(), 100_000);
    assert_eq!(config.default_max_lines(), 2000);
    assert_eq!(config.default_max_items(), 100);
    assert_eq!(config.log_tail_default(), 500);
    assert_eq!(config.search_limit_default(), 50);
}

#[test]
fn test_merge_limits_with_config() {
    let config = OutputLimitsConfig {
        default_max_bytes: Some(50_000),
        default_max_lines: Some(1000),
        ..OutputLimitsConfig::default()
    };

    let result = merge_limits_with_config(None, &config);
    assert_eq!(result.max_bytes, Some(50_000));
    assert_eq!(result.max_lines, Some(1000));

    let user_limits = OutputLimits { max_bytes: Some(10_000), ..OutputLimits::default() };
    let result = merge_limits_with_config(Some(user_limits), &config);
    assert_eq!(result.max_bytes, Some(10_000));
    assert_eq!(result.max_lines, Some(1000));
}

#[test]
fn test_merge_array_limits() {
    let merged = merge_array_limits_with_config(None, 50);
    assert_eq!(merged.limit, Some(50));
    assert_eq!(merged.offset, Some(0));

    let user = ArrayLimits { limit: None, offset: Some(7) };
    let merged = merge_array_limits_with_config(Some(user), 50);
    assert_eq!(merged.limit, Some(50));
    assert_eq!(merged.offset, Some(7));
}

#[test]
fn test_limit_stderr_caps_bytes() {
    let long = "x".repeat(200_000);
    let result = chix::output::limit_stderr(&long);
    assert!(result.truncated);
    assert!(result.content.len() <= 100_000);
}
