use mmm::text::{
    chars_eq, chars_of, decimal, is_float_text, lines_of, parse_unsigned, replace_all, split_chars,
};

fn chars(s: &str) -> Vec<char> {
    s.chars().collect()
}

fn strings(pieces: Vec<Vec<char>>) -> Vec<String> {
    pieces.into_iter().map(|p| p.into_iter().collect()).collect()
}

#[test]
fn chars_of_keeps_every_character() {
    assert_eq!(chars_of("a°b"), vec!['a', '°', 'b']);
    assert_eq!(chars_of(""), Vec::<char>::new());
}

#[test]
fn split_keeps_empty_pieces() {
    assert_eq!(strings(split_chars(&chars("a,,b,"), ',')), vec!["a", "", "b", ""]);
    assert_eq!(strings(split_chars(&chars(""), ',')), vec![""]);
    assert_eq!(strings(split_chars(&chars("abc"), ',')), vec!["abc"]);
}

#[test]
fn lines_follow_str_lines() {
    for text in ["", "\n", "a\nb", "a\r\nb\r\n", "a\r", "x\n\ny", "last\n"] {
        let expected: Vec<String> = text.lines().map(|l| l.to_string()).collect();
        assert_eq!(strings(lines_of(&chars(text))), expected, "text {:?}", text);
    }
}

#[test]
fn replace_follows_str_replace() {
    for text in ["800x600.svg", "a.svg.svg", ".sv", "x.svgsvg", ""] {
        let out: String = replace_all(&chars(text), &chars(".svg"), &chars("")).into_iter().collect();
        assert_eq!(out, text.replace(".svg", ""));
    }
    let out: String = replace_all(&chars("aaa"), &chars("aa"), &chars("b")).into_iter().collect();
    assert_eq!(out, "ba");
    for text in ["", "ab"] {
        let out: String = replace_all(&chars(text), &chars(""), &chars("x")).into_iter().collect();
        assert_eq!(out, text.replace("", "x"));
    }
}

#[test]
fn parse_unsigned_follows_str_parse() {
    for text in ["0", "42", "+7", "-7", "+", "", "255", "256", "12a", "007", " 1"] {
        assert_eq!(parse_unsigned(&chars(text), 255), text.parse::<u8>().ok().map(|v| v as u64), "text {:?}", text);
    }
    assert_eq!(parse_unsigned(&chars("18446744073709551615"), u64::MAX), Some(u64::MAX));
    assert_eq!(parse_unsigned(&chars("18446744073709551616"), u64::MAX), None);
}

#[test]
fn decimal_prints_without_leading_zeros() {
    assert_eq!(decimal(0), "0");
    assert_eq!(decimal(7), "7");
    assert_eq!(decimal(10), "10");
    assert_eq!(decimal(8080), "8080");
    assert_eq!(decimal(u64::MAX), u64::MAX.to_string());
}

#[test]
fn decimal_reads_back() {
    for n in [0u64, 9, 10, 255, 65535, 1234567] {
        assert_eq!(parse_unsigned(&chars(&decimal(n)), u64::MAX), Some(n));
    }
}

#[test]
fn chars_eq_compares_exactly() {
    assert!(chars_eq(&chars("On"), "On"));
    assert!(!chars_eq(&chars("On "), "On"));
    assert!(!chars_eq(&chars("on"), "On"));
}

#[test]
fn float_text_follows_str_parse() {
    for text in [
        "0", "21.5", "-3", "+4.", ".5", ".", "", "-", "1e5", "1E-5", "1e", "e5", "1.2.3", "1e5e5",
        "inf", "-Infinity", "NaN", "nan5", "infinit", " 1", "1 ", "0x10", "1_000", "+.e1", "5.e+3",
        "INF", "iNfInItY", "1,5", "٣",
    ] {
        assert_eq!(is_float_text(&chars(text)), text.parse::<f32>().is_ok(), "text {:?}", text);
    }
}
