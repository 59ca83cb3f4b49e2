use uniqr::render::{format_field, format_record};
use uniqr::trimmed::trim_eq_exec;
use uniqr::Config;

#[test]
fn field_hidden_is_empty() {
    assert_eq!(format_field(5, false), "");
}

#[test]
fn field_shown_single_digit() {
    assert_eq!(format_field(1, true), "   1 ");
    assert_eq!(format_field(9, true), "   9 ");
}

#[test]
fn field_shown_multi_digit() {
    assert_eq!(format_field(10, true), "   10 ");
    assert_eq!(format_field(305, true), "   305 ");
    assert_eq!(format_field(0, true), "   0 ");
}

#[test]
fn record_keeps_text_verbatim() {
    assert_eq!(format_record("a \n", 2, true), "   2 a \n");
    assert_eq!(format_record("a \n", 2, false), "a \n");
    assert_eq!(format_record("z", 1, false), "z");
}

#[test]
fn trim_equality_ignores_edge_whitespace() {
    assert!(trim_eq_exec("a", "a "));
    assert!(trim_eq_exec(" a\t\n", "a"));
    assert!(trim_eq_exec("a\n", "a"));
    assert!(!trim_eq_exec("a", "b"));
    assert!(!trim_eq_exec("a b", "ab"));
}

#[test]
fn config_carries_its_fields() {
    let c = Config::new("-".to_string(), Some("out.txt".to_string()), true);
    assert_eq!(c.in_file, "-");
    assert_eq!(c.out_file.as_deref(), Some("out.txt"));
    assert!(c.count);
}
