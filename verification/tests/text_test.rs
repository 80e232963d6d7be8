use erret::format_message;
use erret::text::{push_decimal, split_text, strip_quotes_text, trim_text};

#[test]
fn trim_removes_unicode_whitespace_at_both_ends() {
    assert_eq!(trim_text(" \t a b \n"), "a b");
    assert_eq!(trim_text("\u{3000}x\u{a0}"), "x");
    assert_eq!(trim_text("   "), "");
    assert_eq!(trim_text(""), "");
}

#[test]
fn strip_quotes_removes_every_quote_at_the_ends() {
    assert_eq!(strip_quotes_text("\"Empty err\""), "Empty err");
    assert_eq!(strip_quotes_text("\"\"a\"b\"\""), "a\"b");
    assert_eq!(strip_quotes_text("\"\""), "");
}

#[test]
fn split_keeps_empty_pieces() {
    let pieces = split_text("a,,b,", ',');
    assert_eq!(pieces, vec!["a", "", "b", ""]);
    assert_eq!(split_text("", ','), vec![""]);
}

#[test]
fn decimal_has_no_leading_zeros() {
    let mut s = "_v".to_string();
    push_decimal(&mut s, 0);
    assert_eq!(s, "_v0");
    let mut t = String::new();
    push_decimal(&mut t, 1024);
    assert_eq!(t, "1024");
}

#[test]
fn format_message_fills_placeholders_in_order() {
    let args = vec!["eth0".to_string()];
    assert_eq!(format_message("Iface '{}' not found", &args).as_deref(), Some("Iface 'eth0' not found"));
    let two = vec!["1".to_string(), "2".to_string()];
    assert_eq!(format_message("{} and {}", &two).as_deref(), Some("1 and 2"));
    assert_eq!(format_message("{{{}}}", &args).as_deref(), Some("{eth0}"));
    assert_eq!(format_message("plain", &vec![]).as_deref(), Some("plain"));
}

#[test]
fn format_message_refuses_templates_outside_its_model() {
    let one = vec!["x".to_string()];
    // refused by `write!` too: too few or too many arguments, a lone brace
    assert_eq!(format_message("{}{}", &one), None);
    assert_eq!(format_message("plain", &one), None);
    assert_eq!(format_message("a}b", &vec![]), None);
    // accepted by `write!`, but outside the `{}` / `{{` / `}}` model
    assert_eq!(format_message("{0}", &one), None);
    assert_eq!(format_message("{:?}", &one), None);
}
