use benchy::cli::parse_selection;
use benchy::sorted::SortedMap;
use benchy::text::{
    blank, chars_of, compare_text, concat_text, decimal_text, signed_decimal_text, string_of,
    trim_chars, TextOrder,
};

#[test]
fn decimal_rendering() {
    assert_eq!(decimal_text(0), "0");
    assert_eq!(decimal_text(42), "42");
    assert_eq!(decimal_text(u64::MAX), u64::MAX.to_string());
    assert_eq!(signed_decimal_text(-7), "-7");
    assert_eq!(signed_decimal_text(i64::MIN), i64::MIN.to_string());
    assert_eq!(signed_decimal_text(i64::MAX), i64::MAX.to_string());
}

#[test]
fn trimming_follows_unicode_whitespace() {
    for text in ["  a b \n", "\u{3000}x\u{85}", "\t\r", "", "no-space", " \u{a0}y\u{2029}"] {
        let trimmed = string_of(&trim_chars(&chars_of(text)));
        assert_eq!(trimmed, text.trim(), "{text:?}");
        assert_eq!(blank(text), text.trim().is_empty(), "{text:?}");
    }
}

#[test]
fn text_order_is_the_order_of_strings() {
    let samples = ["", "a", "ab", "b", "B", "é", "a\u{0}", "zz"];
    for a in samples {
        for b in samples {
            let expected = match a.cmp(b) {
                std::cmp::Ordering::Less => TextOrder::Less,
                std::cmp::Ordering::Equal => TextOrder::Equal,
                std::cmp::Ordering::Greater => TextOrder::Greater,
            };
            assert_eq!(compare_text(a, b), expected, "{a:?} {b:?}");
        }
    }
    assert_eq!(concat_text("ab", "cd"), "abcd");
}

#[test]
fn selection_depends_on_its_names_only() {
    assert_eq!(parse_selection("b a,a"), parse_selection(" a,,b  b"));
}

#[test]
fn map_reads_back_what_was_written() {
    let mut map = SortedMap::new();
    map.insert("b".to_owned(), 1);
    map.insert("a".to_owned(), 2);
    map.insert("b".to_owned(), 3);
    assert_eq!(map.get("b"), Some(&3));
    assert_eq!(map.get("a"), Some(&2));
    assert_eq!(map.get("c"), None);
    assert!(map.contains_key("a"));
    assert_eq!(map.len(), 2);
    assert_eq!(map.keys(), ["a", "b"]);
    assert_eq!(map.entry(0), &("a".to_owned(), 2));
}
