use mania_chart::utils::numbers::{fixed_string, read_fixed, read_i32, read_nat, read_u8};
use mania_chart::utils::quaver::{get_keycount_from_str, get_mode_from_u8};
use mania_chart::utils::sections::{process_bracket_sections, read_entries, read_lines};
use mania_chart::utils::text::{
    chars_of, decimal_string, eq_ignore_case, join, split_text, split_trimmed, split_words,
    string_of, trim_text, without_char,
};

fn chars(s: &str) -> Vec<char> {
    s.chars().collect()
}

fn fixed(s: &str) -> Option<i64> {
    let v = chars(s);
    read_fixed(&v, 0, v.len())
}

fn whole(s: &str) -> Option<i32> {
    let v = chars(s);
    read_i32(&v, 0, v.len())
}

#[test]
fn characters_and_strings_convert_both_ways() {
    assert_eq!(chars_of("héllo"), vec!['h', 'é', 'l', 'l', 'o']);
    assert_eq!(chars_of(""), Vec::<char>::new());
    let v = chars("abcdef");
    assert_eq!(string_of(&v, 1, 4), "bcd");
    assert_eq!(string_of(&v, 0, 6), "abcdef");
    assert_eq!(string_of(&v, 3, 3), "");
}

#[test]
fn whole_numbers_are_written_in_decimal() {
    assert_eq!(decimal_string(0), "0");
    assert_eq!(decimal_string(7), "7");
    assert_eq!(decimal_string(10), "10");
    assert_eq!(decimal_string(-1), "-1");
    assert_eq!(decimal_string(1234567890), "1234567890");
    assert_eq!(decimal_string(i64::MAX), "9223372036854775807");
    assert_eq!(decimal_string(i64::MIN), "-9223372036854775808");
}

#[test]
fn thousandths_are_written_without_trailing_zeros() {
    assert_eq!(fixed_string(0), "0");
    assert_eq!(fixed_string(700), "0.7");
    assert_eq!(fixed_string(1400), "1.4");
    assert_eq!(fixed_string(4000), "4");
    assert_eq!(fixed_string(333_333), "333.333");
    assert_eq!(fixed_string(5), "0.005");
    assert_eq!(fixed_string(50), "0.05");
    assert_eq!(fixed_string(1050), "1.05");
    assert_eq!(fixed_string(-100_000), "-100");
    assert_eq!(fixed_string(-5), "-0.005");
    assert_eq!(fixed_string(-133_330), "-133.33");
    assert_eq!(fixed_string(i64::MIN), "-9223372036854775.808");
}

#[test]
fn whole_numbers_are_read_strictly() {
    assert_eq!(whole("0"), Some(0));
    assert_eq!(whole("+15"), Some(15));
    assert_eq!(whole("-15"), Some(-15));
    assert_eq!(whole("007"), Some(7));
    assert_eq!(whole("2147483647"), Some(i32::MAX));
    assert_eq!(whole("-2147483648"), Some(i32::MIN));
    assert_eq!(whole("2147483648"), None);
    assert_eq!(whole("-2147483649"), None);
    assert_eq!(whole("99999999999999999999999999"), None);
    assert_eq!(whole(""), None);
    assert_eq!(whole("-"), None);
    assert_eq!(whole("+"), None);
    assert_eq!(whole(" 1"), None);
    assert_eq!(whole("1 "), None);
    assert_eq!(whole("1.0"), None);
    assert_eq!(whole("--1"), None);
    assert_eq!(whole("12a"), None);
}

#[test]
fn small_numbers_reject_a_minus_sign() {
    let v = chars("255");
    assert_eq!(read_u8(&v, 0, 3), Some(255));
    let v = chars("256");
    assert_eq!(read_u8(&v, 0, 3), None);
    let v = chars("+7");
    assert_eq!(read_u8(&v, 0, 2), Some(7));
    let v = chars("-0");
    assert_eq!(read_u8(&v, 0, 2), None);
    let v = chars("x12y");
    assert_eq!(read_u8(&v, 1, 3), Some(12));
    assert_eq!(read_nat(&v, 1, 3, 11), None);
    assert_eq!(read_nat(&v, 1, 3, 12), Some(12));
}

#[test]
fn decimal_numbers_are_read_in_thousandths() {
    assert_eq!(fixed("0"), Some(0));
    assert_eq!(fixed("120"), Some(120_000));
    assert_eq!(fixed("120.5"), Some(120_500));
    assert_eq!(fixed("0.7"), Some(700));
    assert_eq!(fixed(".5"), Some(500));
    assert_eq!(fixed("5."), Some(5000));
    assert_eq!(fixed("+1.25"), Some(1250));
    assert_eq!(fixed("-1.25"), Some(-1250));
    assert_eq!(fixed("-0.001"), Some(-1));
    assert_eq!(fixed("315.789473684211"), Some(315_789));
    assert_eq!(fixed("0.0009"), Some(0));
    assert_eq!(fixed("1000000000000000.999"), Some(1_000_000_000_000_000_999));
    assert_eq!(fixed("1000000000000001"), None);
    assert_eq!(fixed(""), None);
    assert_eq!(fixed("."), None);
    assert_eq!(fixed("-"), None);
    assert_eq!(fixed("1e3"), None);
    assert_eq!(fixed("NaN"), None);
    assert_eq!(fixed("inf"), None);
    assert_eq!(fixed("1.2.3"), None);
    assert_eq!(fixed(" 1"), None);
}

#[test]
fn written_thousandths_read_back() {
    for v in [0i64, 1, -1, 999, 1000, -1000, 123_456, -98_765_432, 700, 50, 5] {
        assert_eq!(fixed(&fixed_string(v)), Some(v));
    }
}

#[test]
fn splitting_keeps_empty_pieces() {
    assert_eq!(split_text("a,b,,c", ','), vec!["a", "b", "", "c"]);
    assert_eq!(split_text("", ','), vec![""]);
    assert_eq!(split_text(",", ','), vec!["", ""]);
    assert_eq!(split_text("abc", ','), vec!["abc"]);
    assert_eq!(split_trimmed(" a , b,c ,, ", ','), vec!["a", "b", "c", "", ""]);
}

#[test]
fn words_are_runs_without_white_space() {
    assert_eq!(split_words("  one two\tthree\n four  "), vec!["one", "two", "three", "four"]);
    assert_eq!(split_words(""), Vec::<String>::new());
    assert_eq!(split_words("   "), Vec::<String>::new());
    assert_eq!(split_words("single"), vec!["single"]);
    assert_eq!(split_words("a\u{3000}b"), vec!["a", "b"]);
}

#[test]
fn trimming_removes_white_space_at_both_ends() {
    assert_eq!(trim_text("  a b \r\n"), "a b");
    assert_eq!(trim_text(""), "");
    assert_eq!(trim_text(" \t "), "");
    assert_eq!(trim_text("x"), "x");
    assert_eq!(trim_text("\u{a0}x\u{2003}"), "x");
}

#[test]
fn joining_puts_the_separator_between() {
    assert_eq!(join(&vec!["a".to_string(), "b".to_string(), "c".to_string()], ", "), "a, b, c");
    assert_eq!(join(&vec!["a".to_string()], ","), "a");
    assert_eq!(join(&vec![], ","), "");
    assert_eq!(join(&vec!["".to_string(), "".to_string()], "-"), "-");
}

#[test]
fn other_text_helpers() {
    assert_eq!(without_char("a\nb\n\nc", '\n'), "abc");
    assert_eq!(without_char("", '\n'), "");
    assert!(eq_ignore_case("Clap", "cLAP"));
    assert!(eq_ignore_case("", ""));
    assert!(!eq_ignore_case("clap", "clap "));
    assert!(!eq_ignore_case("clap", "clip"));
    assert!(!eq_ignore_case("[", "{"));
}

#[test]
fn mode_names_of_the_yaml_format() {
    assert_eq!(get_keycount_from_str("keys4"), Some(4));
    assert_eq!(get_keycount_from_str("Keys7"), Some(7));
    assert_eq!(get_keycount_from_str("KEYS10"), Some(10));
    assert_eq!(get_keycount_from_str("keys"), None);
    assert_eq!(get_keycount_from_str("key4"), None);
    assert_eq!(get_keycount_from_str("keys256"), None);
    assert_eq!(get_keycount_from_str("keys-1"), None);
    assert_eq!(get_mode_from_u8(4), "keys4");
    assert_eq!(get_mode_from_u8(255), "keys255");
}

#[test]
fn lines_are_trimmed_and_a_last_empty_line_is_dropped() {
    let as_strings = |text: &str| -> Vec<String> {
        read_lines(text).iter().map(|l| l.iter().collect()).collect()
    };
    assert_eq!(as_strings("a\r\n b \n\nc"), vec!["a", "b", "", "c"]);
    assert_eq!(as_strings("a\n"), vec!["a"]);
    assert_eq!(as_strings(""), Vec::<String>::new());
    assert_eq!(as_strings("\n"), vec![""]);
    assert_eq!(as_strings("a\n\n"), vec!["a", ""]);
}

#[test]
fn entries_are_read_from_lines_with_a_colon() {
    let e = read_entries("// comment: no\nTitle:  My Song \nEmpty:\n\nNoColon\nTitle: Other\nA:b:c");
    let pairs: Vec<(String, String)> =
        e.pairs.iter().map(|(k, v)| (k.iter().collect(), v.iter().collect())).collect();
    assert_eq!(
        pairs,
        vec![
            ("Title".to_string(), "My Song".to_string()),
            ("Empty".to_string(), "".to_string()),
            ("Title".to_string(), "Other".to_string()),
            ("A".to_string(), "b:c".to_string()),
        ]
    );
    assert_eq!(e.text("Title"), Some("Other".to_string()));
    assert_eq!(e.text("Missing"), None);
    assert_eq!(e.find("Empty"), Some(1));
    assert_eq!(e.i32_value("Missing", 9), Ok(9));
    assert_eq!(e.i32_value("Title", 9), Err("Invalid Title value: Other".to_string()));
    assert_eq!(e.fixed_value("Missing", 700), Ok(700));
    assert_eq!(e.u8_value("Empty", 1), Err("Invalid Empty value: ".to_string()));
}

#[test]
fn bracket_sections_keep_text_in_front_for_the_first_section() {
    let text = "osu file format v14\n\n[General]\nMode: 3\n\n[Empty]\n[Metadata]\nTitle:x\n";
    let sections = process_bracket_sections(text);
    assert_eq!(
        sections,
        vec![
            ("General".to_string(), "osu file format v14\n\nMode: 3\n".to_string()),
            ("Metadata".to_string(), "Title:x".to_string()),
        ]
    );
    assert_eq!(process_bracket_sections(""), vec![]);
    assert_eq!(process_bracket_sections("no sections\nat all"), vec![]);
    assert_eq!(
        process_bracket_sections("[A]\nx\n[B]\ny"),
        vec![("A".to_string(), "x".to_string()), ("B".to_string(), "y".to_string())]
    );
}
