use rusthydrus::jsondoc::JsonDoc;
use rusthydrus::text::{cat, contains_text, i64_to_string, parse_usize, u64_to_string, usize_to_string};
use rusthydrus::worker::is_white;

#[test]
fn numbers_to_text_and_back() {
    assert_eq!(u64_to_string(0), "0");
    assert_eq!(u64_to_string(18446744073709551615), "18446744073709551615");
    assert_eq!(usize_to_string(42), "42");
    assert_eq!(i64_to_string(-305), "-305");
    assert_eq!(parse_usize(&"123".chars().collect()), Some(123));
    assert_eq!(parse_usize(&"12a".chars().collect()), None);
    assert_eq!(parse_usize(&vec![]), None);
}

#[test]
fn text_helpers() {
    assert_eq!(cat("ab", "cd"), "abcd");
    assert!(contains_text("e6ai Maintenance page", "Maintenance"));
    assert!(!contains_text("abc", "abd"));
}

#[test]
fn json_documents() {
    let d = JsonDoc::parse(r#"{"a":[1,"x",null],"b":{"c":true},"e":""}"#).unwrap();
    let root = d.root_pos();
    let a = d.get(root, "a");
    assert_eq!(d.len(a), 3);
    assert_eq!(d.text(d.item(a, 0)), "1");
    assert_eq!(d.text(d.item(a, 1)), "x");
    assert!(d.is_null(d.item(a, 2)));
    assert!(d.is_null(d.item(a, 7)));
    assert_eq!(d.text(d.get(d.get(root, "b"), "c")), "true");
    assert!(d.is_null(d.get(root, "zzz")));
    assert!(d.is_empty(d.get(root, "e")));
    assert_eq!(d.members(a).len(), 3);
    assert!(JsonDoc::parse("{oops").is_none());
}

#[test]
fn is_white_agrees_with_std_on_every_char() {
    let mut n: u32 = 0;
    while n < 0x110000 {
        if let Some(c) = char::from_u32(n) {
            assert_eq!(is_white(c), c.is_whitespace(), "{:x}", n);
        }
        n += 1;
    }
}
