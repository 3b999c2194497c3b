use flow_web::sanitize::Helper;
use flow_web::text::{
    contains_sub, i32_to_dec_string, split_lines, split_on, str_equal, str_lex_le, trim_str,
    u64_to_dec_string,
};

#[test]
fn sanitize_example() {
    assert_eq!(
        Helper::sanitize_string("This is a Test, and so on."),
        "this-is-a-test-and-so-on"
    );
}

#[test]
fn sanitize_idempotent_samples() {
    let inputs = ["Hello World!", "  lots   of   space  ", "Ünïcodé Tôpic", "a-b-c"];
    for s in inputs {
        let once = Helper::sanitize_string(s);
        let twice = Helper::sanitize_string(once.as_str());
        assert_eq!(once, twice);
    }
}

#[test]
fn sanitize_charset_only() {
    let out = Helper::sanitize_string("Crazy!@# Mix_ed 42 Things?");
    for c in out.chars() {
        assert!(c.is_ascii_lowercase() || c.is_ascii_digit() || c == '-');
    }
}

#[test]
fn sanitize_unicode_whitespace_becomes_dash() {
    assert_eq!(Helper::sanitize_string("a\u{00A0}b"), "a-b");
    assert_eq!(Helper::sanitize_string("a\tb"), "a-b");
}

#[test]
fn sanitize_empty() {
    assert_eq!(Helper::sanitize_string(""), "");
}

#[test]
fn decimal_strings() {
    assert_eq!(u64_to_dec_string(0), "0");
    assert_eq!(u64_to_dec_string(7), "7");
    assert_eq!(u64_to_dec_string(42), "42");
    assert_eq!(u64_to_dec_string(1000), "1000");
    assert_eq!(i32_to_dec_string(-5), "-5");
    assert_eq!(i32_to_dec_string(2024), "2024");
    assert_eq!(i32_to_dec_string(i32::MIN), "-2147483648");
}

#[test]
fn split_lines_like_std() {
    let v = split_lines("a\nb\r\nc\n");
    assert_eq!(v, vec!["a".to_string(), "b".to_string(), "c".to_string()]);
    let empty = split_lines("");
    assert_eq!(empty.len(), 0);
    let lone_cr = split_lines("x\r");
    assert_eq!(lone_cr, vec!["x\r".to_string()]);
}

#[test]
fn split_on_commas() {
    assert_eq!(split_on("a,b", ','), vec!["a".to_string(), "b".to_string()]);
    assert_eq!(
        split_on("a,,b", ','),
        vec!["a".to_string(), "".to_string(), "b".to_string()]
    );
    assert_eq!(split_on("", ','), vec!["".to_string()]);
    assert_eq!(split_on("a,", ','), vec!["a".to_string(), "".to_string()]);
}

#[test]
fn trim_like_std() {
    assert_eq!(trim_str("  a b \t"), "a b");
    assert_eq!(trim_str("\u{00A0}x\u{2003}"), "x");
    assert_eq!(trim_str("   "), "");
    assert_eq!(trim_str("y"), "y");
}

#[test]
fn string_comparisons() {
    assert!(str_equal("abc", "abc"));
    assert!(!str_equal("abc", "abd"));
    assert!(!str_equal("abc", "ab"));
    assert!(str_lex_le("abc", "abd"));
    assert!(str_lex_le("ab", "abc"));
    assert!(!str_lex_le("b", "azzz"));
    assert!(str_lex_le("", "a"));
}

#[test]
fn substring_search() {
    assert!(contains_sub("abcdef", "cde"));
    assert!(!contains_sub("abcdef", "cdf"));
    assert!(contains_sub("anything", ""));
    assert!(contains_sub("]]>", "]]>"));
    assert!(!contains_sub("]]", "]]>"));
}

#[test]
fn sanitize_symbols_only_gives_empty() {
    assert_eq!(Helper::sanitize_string("!?.,;:"), "");
}

#[test]
fn sanitize_keeps_digits_and_dashes() {
    assert_eq!(Helper::sanitize_string("Top-10 Games of 2024"), "top-10-games-of-2024");
}
