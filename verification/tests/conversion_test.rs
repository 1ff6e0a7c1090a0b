use doless::flat_map::FlatMap;
use doless::number::{parse_i32, parse_u8};
use doless::text::{
    chars_of, contains, matches_at, repeated_prefix_len, same_text, split_bounds, starts_with,
    trim_bounds,
};

fn map(pairs: &[(&str, &str)]) -> FlatMap {
    let mut m = FlatMap::new();
    for (k, v) in pairs {
        m.insert(k.to_string(), v.to_string());
    }
    m
}

fn chars(s: &str) -> Vec<char> {
    s.chars().collect()
}

fn pieces(s: &str, sep: char) -> Vec<String> {
    let c = chars(s);
    split_bounds(&c, sep).iter().map(|(a, b)| c[*a..*b].iter().collect()).collect()
}

fn trimmed(s: &str) -> String {
    let c = chars(s);
    let (a, b) = trim_bounds(&c, 0, c.len());
    c[a..b].iter().collect()
}

#[test]
fn chars_of_gives_the_characters() {
    assert_eq!(chars_of("héllo"), vec!['h', 'é', 'l', 'l', 'o']);
    assert_eq!(chars_of(""), Vec::<char>::new());
}

#[test]
fn same_text_compares_whole_texts() {
    assert!(same_text("key", "key"));
    assert!(!same_text("key", "keys"));
    assert!(!same_text("key", "Key"));
    assert!(same_text("", ""));
}

#[test]
fn prefix_and_substring() {
    assert!(starts_with(&chars("Vec < u8 >"), &chars("Vec <")));
    assert!(!starts_with(&chars("Vec<u8>"), &chars("Vec <")));
    assert!(!starts_with(&chars("Ve"), &chars("Vec")));
    assert!(starts_with(&chars("abc"), &chars("")));
    assert!(contains(&chars("Option < u8 >"), &chars("u8")));
    assert!(contains(&chars("abc"), &chars("abc")));
    assert!(contains(&chars("abc"), &chars("")));
    assert!(contains(&chars(""), &chars("")));
    assert!(!contains(&chars("abc"), &chars("abcd")));
    assert!(!contains(&chars("aab"), &chars("aba")));
    assert!(contains(&chars("aaab"), &chars("aab")));
    assert!(matches_at(&chars("abcabc"), &chars("bc"), 4));
    assert!(!matches_at(&chars("abcabc"), &chars("bc"), 5));
    assert!(!matches_at(&chars("abc"), &chars("a"), 7));
    assert!(matches_at(&chars("abc"), &chars(""), 3));
}

#[test]
fn splitting_keeps_empty_pieces() {
    assert_eq!(pieces("1,2,,", ','), vec!["1", "2", "", ""]);
    assert_eq!(pieces("", ','), vec![""]);
    assert_eq!(pieces(",", ','), vec!["", ""]);
    assert_eq!(pieces("abc", ','), vec!["abc"]);
    assert_eq!(pieces("hello, world, rust", ','), vec!["hello", " world", " rust"]);
    // Joined again the pieces give what was split.
    for s in ["1,2,,", "", ",", "a,,b", ",a"] {
        assert_eq!(pieces(s, ',').join(","), s);
        assert_eq!(pieces(s, ','), s.split(',').map(|p| p.to_string()).collect::<Vec<_>>());
    }
}

#[test]
fn trimming_takes_white_space_from_both_ends() {
    assert_eq!(trimmed("  a b \t\n"), "a b");
    assert_eq!(trimmed("\u{a0}x\u{3000}"), "x");
    assert_eq!(trimmed("   "), "");
    assert_eq!(trimmed(""), "");
    assert_eq!(trimmed("x"), "x");
    for s in ["  a b \t\n", "\u{a0}x\u{3000}", "   ", "", "\u{200b} z"] {
        assert_eq!(trimmed(s), s.trim());
    }
    let c = chars("ab  cd  ef");
    assert_eq!(trim_bounds(&c, 2, 8), (4, 6));
}

#[test]
fn repeated_prefix_is_taken_as_often_as_it_stands() {
    assert_eq!(repeated_prefix_len(&chars("a.a.name"), &chars("a.")), 4);
    assert_eq!(repeated_prefix_len(&chars("a.name"), &chars("a.")), 2);
    assert_eq!(repeated_prefix_len(&chars("name"), &chars("a.")), 0);
    assert_eq!(repeated_prefix_len(&chars("a.a."), &chars("a.")), 4);
    assert_eq!(repeated_prefix_len(&chars("abc"), &chars("")), 0);
    for (s, p) in [("a.a.name", "a."), ("xxxy", "x"), ("abab", "ab"), ("b", "ab")] {
        let n = repeated_prefix_len(&chars(s), &chars(p));
        let rest: String = chars(s)[n..].iter().collect();
        assert_eq!(rest, s.trim_start_matches(p));
    }
}

#[test]
fn numerals_of_u8() {
    assert_eq!(parse_u8("8"), Some(8));
    assert_eq!(parse_u8("0"), Some(0));
    assert_eq!(parse_u8("255"), Some(255));
    assert_eq!(parse_u8("256"), None);
    assert_eq!(parse_u8("999"), None);
    assert_eq!(parse_u8("+7"), Some(7));
    assert_eq!(parse_u8("007"), Some(7));
    assert_eq!(parse_u8("0000000000000000000255"), Some(255));
    assert_eq!(parse_u8("-0"), None);
    assert_eq!(parse_u8("-1"), None);
    assert_eq!(parse_u8(""), None);
    assert_eq!(parse_u8("+"), None);
    assert_eq!(parse_u8("++1"), None);
    assert_eq!(parse_u8(" 1"), None);
    assert_eq!(parse_u8("1 "), None);
    assert_eq!(parse_u8("1_0"), None);
    assert_eq!(parse_u8("0x1"), None);
    assert_eq!(parse_u8("١"), None);
}

#[test]
fn numerals_of_i32() {
    assert_eq!(parse_i32("0"), Some(0));
    assert_eq!(parse_i32("-0"), Some(0));
    assert_eq!(parse_i32("+12"), Some(12));
    assert_eq!(parse_i32("-12"), Some(-12));
    assert_eq!(parse_i32("2147483647"), Some(i32::MAX));
    assert_eq!(parse_i32("2147483648"), None);
    assert_eq!(parse_i32("-2147483648"), Some(i32::MIN));
    assert_eq!(parse_i32("-2147483649"), None);
    assert_eq!(parse_i32("-"), None);
    assert_eq!(parse_i32("+-1"), None);
    assert_eq!(parse_i32("1.0"), None);
    assert_eq!(parse_i32(""), None);
}

#[test]
fn flat_map_keeps_one_value_for_each_key() {
    let mut m = FlatMap::new();
    assert_eq!(m.len(), 0);
    assert_eq!(m.get("a"), None);
    m.insert("a".to_string(), "1".to_string());
    m.insert("b".to_string(), "2".to_string());
    m.insert("a".to_string(), "3".to_string());
    assert_eq!(m.len(), 2);
    assert_eq!(m.get("a"), Some(&"3".to_string()));
    assert_eq!(m.get("b"), Some(&"2".to_string()));
    assert_eq!(m.get("c"), None);
    assert_eq!(m.get(""), None);
    // The entry of a replaced value keeps its place.
    let (k0, v0) = m.entry(0);
    assert_eq!((k0.as_str(), v0.as_str()), ("a", "3"));
    let (k1, v1) = m.entry(1);
    assert_eq!((k1.as_str(), v1.as_str()), ("b", "2"));
}

#[test]
fn plain_fields_fall_back_to_the_default() {
    let m = map(&[("text", " as it stands "), ("n", "8"), ("bad", "eight"), ("big", "256"), ("neg", "-5")]);
    assert_eq!(m.text_or_default("text"), " as it stands ");
    assert_eq!(m.text_or_default("absent"), "");
    assert_eq!(m.optional_text("text"), Some(" as it stands ".to_string()));
    assert_eq!(m.optional_text("absent"), None);
    assert_eq!(m.u8_or_default("n"), 8);
    assert_eq!(m.u8_or_default("bad"), 0);
    assert_eq!(m.u8_or_default("big"), 0);
    assert_eq!(m.u8_or_default("neg"), 0);
    assert_eq!(m.u8_or_default("absent"), 0);
    assert_eq!(m.i32_or_default("n"), 8);
    assert_eq!(m.i32_or_default("big"), 256);
    assert_eq!(m.i32_or_default("neg"), -5);
    assert_eq!(m.i32_or_default("bad"), 0);
    assert_eq!(m.i32_or_default("absent"), 0);
}

#[test]
fn lists_leave_out_what_cannot_be_read() {
    let m = map(&[("v", "1, 2, 999, x, -3,, 4 "), ("empty", ""), ("spaces", " , ")]);
    assert_eq!(m.list_of_u8("v"), vec![1, 2, 4]);
    assert_eq!(m.list_of_i32("v"), vec![1, 2, 999, -3, 4]);
    assert_eq!(m.list_of_text("v"), vec!["1", "2", "999", "x", "-3", "", "4"]);
    assert_eq!(m.list_of_u8("absent"), Vec::<u8>::new());
    assert_eq!(m.list_of_i32("absent"), Vec::<i32>::new());
    assert_eq!(m.list_of_text("absent"), Vec::<String>::new());
    // An empty value is one empty item.
    assert_eq!(m.list_of_text("empty"), vec![""]);
    assert_eq!(m.list_of_u8("empty"), Vec::<u8>::new());
    assert_eq!(m.list_of_text("spaces"), vec!["", ""]);
}

#[test]
fn lists_of_options_keep_a_place_for_every_item() {
    let m = map(&[("v", "1, 2, 999, x, -3,, 4 "), ("empty", "")]);
    assert_eq!(
        m.list_of_optional_u8("v"),
        vec![Some(1), Some(2), None, None, None, None, Some(4)]
    );
    assert_eq!(
        m.list_of_optional_i32("v"),
        vec![Some(1), Some(2), Some(999), None, Some(-3), None, Some(4)]
    );
    assert_eq!(
        m.list_of_optional_text("v"),
        vec![
            Some("1".to_string()),
            Some("2".to_string()),
            Some("999".to_string()),
            Some("x".to_string()),
            Some("-3".to_string()),
            None,
            Some("4".to_string())
        ]
    );
    assert_eq!(m.list_of_optional_text("empty"), vec![None]);
    assert_eq!(m.list_of_optional_u8("empty"), vec![None]);
    assert_eq!(m.list_of_optional_text("absent"), Vec::<Option<String>>::new());
    assert_eq!(m.list_of_optional_u8("absent"), Vec::<Option<u8>>::new());
    assert_eq!(m.list_of_optional_i32("absent"), Vec::<Option<i32>>::new());
}

#[test]
fn nested_takes_the_entries_under_the_name_and_a_dot() {
    let m = map(&[
        ("details.name", "v8engine"),
        ("details", "not nested"),
        ("detailsx.name", "other"),
        ("details.", "empty rest"),
        ("model", "GT-R"),
        ("details.inner.deep", "kept flat"),
    ]);
    let nested = m.nested("details");
    assert_eq!(nested.len(), 3);
    assert_eq!(nested.get("name"), Some(&"v8engine".to_string()));
    assert_eq!(nested.get(""), Some(&"empty rest".to_string()));
    assert_eq!(nested.get("inner.deep"), Some(&"kept flat".to_string()));
    assert_eq!(nested.get("model"), None);
    assert_eq!(m.nested("absent").len(), 0);
    // The mapping of a nested field can be read again.
    assert_eq!(nested.nested("inner").get("deep"), Some(&"kept flat".to_string()));
}

#[test]
fn nested_takes_a_repeated_prefix_whole() {
    let m = map(&[("a.a.name", "first"), ("a.b", "second"), ("a.a.a.", "third")]);
    let nested = m.nested("a");
    assert_eq!(nested.len(), 3);
    assert_eq!(nested.get("name"), Some(&"first".to_string()));
    assert_eq!(nested.get("b"), Some(&"second".to_string()));
    assert_eq!(nested.get(""), Some(&"third".to_string()));
}

#[test]
fn nested_gives_one_of_the_values_where_two_keys_leave_the_same_rest() {
    let m = map(&[("a.a.name", "first"), ("a.name", "second")]);
    let nested = m.nested("a");
    assert_eq!(nested.len(), 1);
    let found = nested.get("name").expect("both keys leave `name`");
    assert!(found == "first" || found == "second");
}
