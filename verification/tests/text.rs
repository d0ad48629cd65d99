use daystrom_core::text::{
    chars_of, digit_char, find, has_prefix, is_space, matches_at, push_decimal,
    push_range, push_spaces, same_text, skip_spaces, string_of_range, text_le,
};

fn chars(s: &str) -> Vec<char> {
    s.chars().collect()
}

#[test]
fn white_space_is_what_std_takes_for_it() {
    for code in 0..=0x10FFFFu32 {
        if let Some(c) = char::from_u32(code) {
            assert_eq!(is_space(c), c.is_whitespace(), "U+{code:04X}");
        }
    }
}

#[test]
fn text_le_is_the_order_of_strings() {
    let samples = [
        "", "a", "ab", "b", "B", "00-00-00", "09-00-00", "13-00-00", "!0-00-00", "über", "zebra",
        "日本", "a\u{10FFFF}", "a\u{0}", "\u{7f}", "\u{80}", "\u{7ff}", "\u{800}", "\u{ffff}",
        "\u{10000}",
    ];
    for a in samples {
        for b in samples {
            assert_eq!(text_le(a, b), a <= b, "{a:?} <= {b:?}");
            assert_eq!(same_text(a, b), a == b, "{a:?} == {b:?}");
        }
    }
}

#[test]
fn chars_and_strings_go_both_ways() {
    assert_eq!(chars_of("größer"), chars("größer"));
    assert_eq!(chars_of(""), Vec::<char>::new());
    assert_eq!(string_of_range(&chars("größer"), 2, 5), "öße");
    assert_eq!(string_of_range(&chars("abc"), 3, 3), "");
    let mut out = "x".to_string();
    push_range(&mut out, &chars("abcdef"), 1, 3);
    push_spaces(&mut out, 2);
    push_spaces(&mut out, 0);
    assert_eq!(out, "xbc  ");
}

#[test]
fn digits_and_decimals() {
    assert_eq!((0..=9).map(digit_char).collect::<String>(), "0123456789");
    for n in [0u32, 7, 10, 99, 100, 1234, 4_294_967_295] {
        let mut out = String::new();
        push_decimal(&mut out, n);
        assert_eq!(out, n.to_string());
    }
}

#[test]
fn find_gives_the_first_place() {
    assert_eq!(find(&chars("abcabc"), &chars("bc")), Some(1));
    assert_eq!(find(&chars("abcabc"), &chars("abcabc")), Some(0));
    assert_eq!(find(&chars("abcabc"), &chars("cb")), None);
    assert_eq!(find(&chars("abc"), &chars("abcd")), None);
    assert_eq!(find(&chars("abc"), &chars("")), Some(0));
    assert_eq!(find(&chars(""), &chars("")), Some(0));
    assert_eq!(find(&chars("aab"), &chars("ab")), Some(1));
    assert_eq!(find(&chars("größer"), &chars("ß")), Some(3));
}

#[test]
fn matching_at_a_place() {
    let v = chars("project-daystrom.log");
    assert!(matches_at(&v, 8, &chars("day")));
    assert!(!matches_at(&v, 9, &chars("day")));
    assert!(matches_at(&v, 20, &chars("")));
    assert!(!matches_at(&v, 21, &chars("")));
    assert!(!matches_at(&v, 18, &chars("log")));
    assert!(has_prefix(&v, &chars("project")));
    assert!(has_prefix(&v, &chars("")));
    assert!(!has_prefix(&v, &chars("roject")));
    assert!(!has_prefix(&chars("pro"), &chars("project")));
}

#[test]
fn skipping_white_space() {
    let v = chars(" \t\n x ");
    assert_eq!(skip_spaces(&v, 0), 4);
    assert_eq!(skip_spaces(&v, 4), 4);
    assert_eq!(skip_spaces(&v, 5), 6);
    assert_eq!(skip_spaces(&v, 6), 6);
}
