use lottery::excel::{cell_str, file_kind, is_candidate_header, is_prize_header, kind_of_lowered, non_empty, parse_name_count, Cell, FileKind};
use lottery::text::{chars_of, contains_str, parse_u32_chars, push_decimal, push_signed_decimal, string_of, to_lowercase, trim_str};

#[test]
fn trim_removes_unicode_white_space() {
    assert_eq!(trim_str("  a b \t\r\n"), "a b");
    assert_eq!(trim_str("\u{3000}奖品\u{a0}"), "奖品");
    assert_eq!(trim_str("   "), "");
    assert_eq!(trim_str(""), "");
    assert_eq!(trim_str("x"), "x");
}

#[test]
fn contains_finds_substrings() {
    assert!(contains_str("prize name", "name"));
    assert!(contains_str("一等奖品", "奖品"));
    assert!(contains_str("abc", ""));
    assert!(!contains_str("nam", "name"));
    assert!(!contains_str("", "a"));
}

#[test]
fn parse_u32_follows_str_parse() {
    let p = |s: &str| parse_u32_chars(&chars_of(s));
    assert_eq!(p("42"), Some(42));
    assert_eq!(p("+7"), Some(7));
    assert_eq!(p("0"), Some(0));
    assert_eq!(p("4294967295"), Some(u32::MAX));
    assert_eq!(p("4294967296"), None);
    assert_eq!(p("99999999999999999999"), None);
    assert_eq!(p(""), None);
    assert_eq!(p("+"), None);
    assert_eq!(p("-1"), None);
    assert_eq!(p("1a"), None);
    assert_eq!(p(" 1"), None);
    for s in ["12", "+3", "007", "x", "", "5000000000"] {
        assert_eq!(p(s), s.parse::<u32>().ok());
    }
}

#[test]
fn decimal_writes_integers() {
    let mut s = String::new();
    push_decimal(&mut s, 0);
    assert_eq!(s, "0");
    let mut s = String::from("n=");
    push_decimal(&mut s, 1234567890123);
    assert_eq!(s, "n=1234567890123");
    for n in [i64::MIN, -10, -1, 0, 9, 10, i64::MAX] {
        let mut s = String::new();
        push_signed_decimal(&mut s, n);
        assert_eq!(s, n.to_string());
    }
}

#[test]
fn chars_round_trip() {
    let v = chars_of("抽奖 ok");
    assert_eq!(v.len(), 5);
    assert_eq!(string_of(&v), "抽奖 ok");
}

#[test]
fn lowercase_is_std_lowercase() {
    assert_eq!(to_lowercase("NAME 奖品"), "name 奖品");
    assert_eq!(to_lowercase("ΣΑΣ"), "σας");
}

#[test]
fn name_count_splits_at_last_separator() {
    assert_eq!(parse_name_count("一等奖 3", ' '), ("一等奖".to_string(), 3));
    assert_eq!(parse_name_count("Grand Prize 2", ' '), ("Grand Prize".to_string(), 2));
    assert_eq!(parse_name_count("Phone,0", ','), ("Phone".to_string(), 1));
    assert_eq!(parse_name_count("Phone, x", ','), ("Phone".to_string(), 1));
    assert_eq!(parse_name_count("Phone", ','), ("Phone".to_string(), 1));
    assert_eq!(parse_name_count(",5", ','), (",5".to_string(), 1));
    assert_eq!(parse_name_count("TV , 7 ", ','), ("TV".to_string(), 7));
}

#[test]
fn headers_are_recognised() {
    assert!(is_prize_header("奖品名称"));
    assert!(is_prize_header("prize name"));
    assert!(!is_prize_header("一等奖"));
    assert!(is_candidate_header("姓名"));
    assert!(is_candidate_header("name"));
    assert!(!is_candidate_header("张三"));
}

#[test]
fn file_kind_by_extension() {
    assert_eq!(file_kind("txt"), FileKind::Txt);
    assert_eq!(file_kind("TXT"), FileKind::Txt);
    assert_eq!(file_kind("Csv"), FileKind::Csv);
    assert_eq!(file_kind("xlsx"), FileKind::Excel);
    assert_eq!(file_kind(""), FileKind::Excel);
    assert_eq!(kind_of_lowered("txt"), FileKind::Txt);
    assert_eq!(kind_of_lowered("TXT"), FileKind::Excel);
}

#[test]
fn cell_texts() {
    assert_eq!(cell_str(&Cell::Text("  张三 ".to_string())), Some("张三".to_string()));
    assert_eq!(cell_str(&Cell::Text("   ".to_string())), None);
    assert_eq!(cell_str(&Cell::Float { text: "1.5".to_string(), whole: 1 }), Some("1.5".to_string()));
    assert_eq!(cell_str(&Cell::Int(-12)), Some("-12".to_string()));
    assert_eq!(cell_str(&Cell::Bool(true)), Some("true".to_string()));
    assert_eq!(cell_str(&Cell::Bool(false)), Some("false".to_string()));
    assert_eq!(cell_str(&Cell::Other), None);
}

#[test]
fn non_empty_reports_message() {
    assert_eq!(non_empty(vec![1, 2], "none"), Ok(vec![1, 2]));
    assert_eq!(non_empty(Vec::<u8>::new(), "none"), Err("none".to_string()));
}
