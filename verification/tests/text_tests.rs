use ollama_file_find::media_type::{parse_shape, TensorShape};
use ollama_file_find::text::{
    eq_ignore_case, parse_u64_str, split_str, str_eq, str_lex_leq, str_starts_with, trim_str,
    u64_to_string,
};

#[test]
fn trim_removes_outer_white_space_only() {
    assert_eq!(trim_str("  a b \t"), "a b");
    assert_eq!(trim_str(""), "");
    assert_eq!(trim_str(" \n "), "");
    assert_eq!(trim_str("x"), "x");
}

#[test]
fn trim_covers_the_unicode_white_space_set() {
    // The same characters `str::trim` removes: not only the ASCII ones.
    assert_eq!(trim_str("\u{a0}x\u{3000}"), "x");
    assert_eq!(trim_str("\u{2003}\u{2028}y\u{85}"), "y");
    assert_eq!(trim_str("\u{1680}\u{202f}\u{205f}"), "");
    for (padded, plain) in [("  z\u{a0}", "z"), ("z", "z")] {
        assert_eq!(trim_str(padded), trim_str(plain));
        assert_eq!(padded.trim(), trim_str(padded));
    }
}

#[test]
fn split_keeps_empty_pieces() {
    assert_eq!(split_str("a;b;;c", ';'), vec!["a", "b", "", "c"]);
    assert_eq!(split_str("", ';'), vec![""]);
    assert_eq!(split_str(";", ';'), vec!["", ""]);
    assert_eq!(split_str("abc", ';'), vec!["abc"]);
}

#[test]
fn string_comparisons() {
    assert!(str_eq("abc", "abc"));
    assert!(!str_eq("abc", "abd"));
    assert!(str_starts_with("application/x", "application/"));
    assert!(!str_starts_with("app", "application/"));
    assert!(eq_ignore_case("DType", "dtype"));
    assert!(!eq_ignore_case("dtype", "shape"));
    assert!(str_lex_leq("alpha", "beta"));
    assert!(str_lex_leq("alpha", "alpha"));
    assert!(!str_lex_leq("beta", "alpha"));
    assert!(str_lex_leq("alp", "alpha"));
}

#[test]
fn decimal_parsing_matches_the_standard_library() {
    assert_eq!(parse_u64_str("0"), Some(0));
    assert_eq!(parse_u64_str("42"), Some(42));
    assert_eq!(parse_u64_str("+42"), Some(42));
    assert_eq!(parse_u64_str("18446744073709551615"), Some(u64::MAX));
    assert_eq!(parse_u64_str("18446744073709551616"), None);
    assert_eq!(parse_u64_str(""), None);
    assert_eq!(parse_u64_str("+"), None);
    assert_eq!(parse_u64_str("4x"), None);
    assert_eq!(parse_u64_str("-1"), None);
    assert_eq!(parse_u64_str(" 1"), None);
}

#[test]
fn decimal_rendering() {
    assert_eq!(u64_to_string(0), "0");
    assert_eq!(u64_to_string(7), "7");
    assert_eq!(u64_to_string(1024), "1024");
    assert_eq!(u64_to_string(u64::MAX), "18446744073709551615");
}

#[test]
fn shape_parsing_tolerates_white_space_and_empty_parts() {
    assert_eq!(parse_shape("1, 2,3").unwrap(), Some(TensorShape(vec![1, 2, 3])));
    assert_eq!(parse_shape("  ").unwrap(), None);
    assert_eq!(parse_shape("4,,5,").unwrap(), Some(TensorShape(vec![4, 5])));
    assert!(parse_shape("1,x").is_err());
}
