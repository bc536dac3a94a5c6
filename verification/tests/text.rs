use packager::order::{sort_strings, str_before};
use packager::text::{
    copy_strings, decimal_text, has_char, join, prefix_until, same_ignoring_case, same_text, to_lower,
};

#[test]
fn join_puts_separator_between() {
    let v = vec!["a".to_string(), "b".to_string(), "c".to_string()];
    assert_eq!(join(&v, ", "), "a, b, c");
    assert_eq!(join(&vec!["only".to_string()], ", "), "only");
    assert_eq!(join(&Vec::new(), ", "), "");
}

#[test]
fn decimal_text_writes_base_ten() {
    assert_eq!(decimal_text(0), "0");
    assert_eq!(decimal_text(7), "7");
    assert_eq!(decimal_text(10), "10");
    assert_eq!(decimal_text(1234567890), "1234567890");
}

#[test]
fn has_char_finds_characters() {
    assert!(has_char("a:b", ':'));
    assert!(!has_char("ab", ':'));
    assert!(!has_char("", ':'));
}

#[test]
fn same_text_compares_whole_strings() {
    assert!(same_text("Cargo.toml", "Cargo.toml"));
    assert!(!same_text("Cargo.toml", "Cargo.lock"));
    assert!(!same_text("Cargo", "Cargo.toml"));
}

#[test]
fn lower_case_touches_only_ascii_capitals() {
    assert_eq!(to_lower('A'), 'a');
    assert_eq!(to_lower('Z'), 'z');
    assert_eq!(to_lower('a'), 'a');
    assert_eq!(to_lower('1'), '1');
    assert_eq!(to_lower('É'), 'É');
    assert!(same_ignoring_case("CoN", "con"));
    assert!(!same_ignoring_case("con1", "con"));
}

#[test]
fn prefix_until_stops_at_first_stop() {
    assert_eq!(prefix_until("nul.tar.gz", '.'), "nul");
    assert_eq!(prefix_until("nodot", '.'), "nodot");
    assert_eq!(prefix_until(".hidden", '.'), "");
}

#[test]
fn strings_order_by_code_point() {
    assert!(str_before("a", "b"));
    assert!(str_before("a", "ab"));
    assert!(str_before("", "a"));
    assert!(!str_before("a", "a"));
    assert!(!str_before("b", "a"));
    assert!(str_before("Z", "a"));
    assert!(str_before("z", "é"));
}

#[test]
fn sort_strings_orders_and_keeps_all() {
    let v = vec!["b".to_string(), "a".to_string(), "c".to_string(), "a".to_string()];
    assert_eq!(sort_strings(v), vec!["a", "a", "b", "c"]);
}

#[test]
fn copy_strings_copies() {
    let v = vec!["x".to_string(), "y".to_string()];
    assert_eq!(copy_strings(&v), v);
}
