use flowrun::json::JsonValue;
use flowrun::select::{contains_str, parse_int, Order, Select, SelectCfg, SelectError, SelectNode};

fn n(x: i64) -> JsonValue {
    JsonValue::Number(x)
}

fn st(x: &str) -> JsonValue {
    JsonValue::Str(x.to_string())
}

#[test]
fn parse_int_literals() {
    assert_eq!(parse_int("1000"), Some(1000));
    assert_eq!(parse_int("-5"), Some(-5));
    assert_eq!(parse_int("+7"), Some(7));
    assert_eq!(parse_int("9223372036854775807"), Some(i64::MAX));
    assert_eq!(parse_int("-9223372036854775808"), Some(i64::MIN));
    assert_eq!(parse_int("9223372036854775808"), None);
    assert_eq!(parse_int(""), None);
    assert_eq!(parse_int("-"), None);
    assert_eq!(parse_int("1.5"), None);
}

#[test]
fn compare_numbers() {
    assert_eq!(SelectNode::number_value_compare(&n(1000), &n(666), Order::Greater), Ok(true));
    assert_eq!(SelectNode::number_value_compare(&st("5"), &n(666), Order::Greater), Ok(false));
    assert_eq!(SelectNode::number_value_compare(&n(3), &n(3), Order::LessEqual), Ok(true));
    assert_eq!(SelectNode::number_value_compare(&JsonValue::Bool(true), &n(3), Order::Less), Err(SelectError::NotNumber));
    assert_eq!(SelectNode::number_value_compare(&JsonValue::Decimal("1.5".into()), &n(3), Order::Less), Err(SelectError::FloatRequired));
}

#[test]
fn calc_conditions() {
    assert_eq!(SelectNode::Always.calc(), Ok(true));
    assert_eq!(SelectNode::Equal(st("a"), st("a")).calc(), Ok(true));
    assert_eq!(SelectNode::NotEqual(st("a"), st("a")).calc(), Ok(false));
    assert_eq!(SelectNode::Contain(st("hello world"), st("lo w")).calc(), Ok(true));
    assert_eq!(SelectNode::Contain(st("hello"), st("xyz")).calc(), Ok(false));
    assert_eq!(SelectNode::Contain(JsonValue::Array(vec![n(1), n(2)]), n(2)).calc(), Ok(true));
    assert_eq!(SelectNode::Contain(n(1), n(2)).calc(), Err(SelectError::ContainUnsupported));
    assert_eq!(SelectNode::Empty(JsonValue::Null).calc(), Ok(true));
    assert_eq!(SelectNode::NonEmpty(JsonValue::Null).calc(), Ok(false));
    assert_eq!(SelectNode::And(vec![]).calc(), Err(SelectError::Unsupported));
}

#[test]
fn and_or_trees() {
    let t = || SelectNode::Always;
    let f = || SelectNode::NotEqual(n(1), n(1));
    assert_eq!(SelectNode::And(vec![t(), t()]).generate_result(), Ok(true));
    assert_eq!(SelectNode::And(vec![t(), f()]).generate_result(), Ok(false));
    assert_eq!(SelectNode::Or(vec![f(), t()]).generate_result(), Ok(true));
    assert_eq!(SelectNode::Or(vec![f(), f()]).generate_result(), Ok(false));
    assert_eq!(SelectNode::And(vec![t()]).generate_result(), Err(SelectError::TooFewConditions));
    // evaluation stops at the first false member
    assert_eq!(SelectNode::And(vec![f(), SelectNode::Greater(JsonValue::Null, n(1))]).generate_result(), Ok(false));
}

#[test]
fn select_routes_by_outcome() {
    let cfg = |x: i64| SelectCfg {
        conditions: SelectNode::Greater(n(x), n(666)),
        true_to_nodes: vec!["A".to_string()],
        false_to_nodes: vec!["B".to_string()],
    };
    assert_eq!(Select::route(cfg(1000)), Ok((true, vec!["A".to_string()])));
    assert_eq!(Select::route(cfg(5)), Ok((false, vec!["B".to_string()])));
}

#[test]
fn substring_search() {
    assert!(contains_str("abc", ""));
    assert!(contains_str("abc", "abc"));
    assert!(!contains_str("ab", "abc"));
}
