use todo_app::text::{push_decimal, push_signed_decimal, trim};

#[test]
fn decimal_text() {
    for n in [0u64, 7, 10, 99, 100, 201, 65535, u64::MAX] {
        let mut out = String::new();
        push_decimal(&mut out, n);
        assert_eq!(out, n.to_string());
    }
    for i in [0i64, -1, -10, 123, i64::MIN, i64::MAX] {
        let mut out = String::from("x");
        push_signed_decimal(&mut out, i);
        assert_eq!(out, format!("x{i}"));
    }
}

#[test]
fn trim_matches_str_trim() {
    for s in ["", "  ", " a ", "\t\n a b \r", "\u{3000}全角\u{3000}", "no", "\u{1680}x\u{180e}"] {
        assert_eq!(trim(s), s.trim(), "{s:?}");
    }
}
