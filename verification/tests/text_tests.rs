use tylerharpool_blog::front_matter::{parse_list, reads_true, unquoted};
use tylerharpool_blog::text::{
    char_is_digit, char_is_whitespace, chars_of, contains_chars, parse_small_number,
    position_of, position_of_either, position_of_text, push_decimal, push_two_digits, same_chars,
    split_first, starts_with, string_of, take_line, trimmed, trimmed_end, trimmed_start,
};

fn chars(s: &str) -> Vec<char> {
    s.chars().collect()
}

fn text(s: &[char]) -> String {
    s.iter().collect()
}

fn all_lines(s: &str) -> Vec<String> {
    let all = chars(s);
    let mut rest: &[char] = &all;
    let mut out = Vec::new();
    while !rest.is_empty() {
        let (line, next) = take_line(rest);
        out.push(text(line));
        rest = next;
    }
    out
}

fn all_pieces(s: &str, a: char, b: char) -> Vec<String> {
    let all = chars(s);
    let mut rest: Option<&[char]> = Some(&all);
    let mut out = Vec::new();
    while let Some(current) = rest {
        let (piece, next) = split_first(current, a, b);
        out.push(text(piece));
        rest = next;
    }
    out
}

#[test]
fn conversions_keep_every_character() {
    let sample = "héllo wörld ✓ \u{10FFFF}";
    assert_eq!(chars_of(sample), chars(sample));
    assert_eq!(string_of(&chars(sample)), sample);
    assert_eq!(string_of(&[]), "");
}

#[test]
fn whitespace_is_what_unicode_says() {
    for code in 0..=0x10FFFFu32 {
        if let Some(c) = char::from_u32(code) {
            assert_eq!(char_is_whitespace(c), c.is_whitespace(), "U+{:04X}", code);
            assert_eq!(char_is_digit(c), c.is_ascii_digit(), "U+{:04X}", code);
        }
    }
}

#[test]
fn trimming_agrees_with_the_standard_library() {
    for sample in ["", " ", "a", "  a b \t\n", "\u{a0}x\u{3000}", "\r\n", " \u{200b} ", "x  ", "  x"] {
        let all = chars(sample);
        assert_eq!(text(trimmed(&all)), sample.trim(), "{:?}", sample);
        assert_eq!(text(trimmed_start(&all)), sample.trim_start(), "{:?}", sample);
        assert_eq!(text(trimmed_end(&all)), sample.trim_end(), "{:?}", sample);
    }
}

#[test]
fn lines_agree_with_the_standard_library() {
    for sample in ["", "a", "a\n", "a\nb", "a\r\nb\r\n", "\n", "\n\n", "a\r", "a\rb\n", "\r\n", "a\n\nb", "é\nü"] {
        let expected: Vec<String> = sample.lines().map(String::from).collect();
        assert_eq!(all_lines(sample), expected, "{:?}", sample);
    }
}

#[test]
fn splitting_agrees_with_the_standard_library() {
    for sample in ["", ",", "a,b", "a,,b,", ",a", "abc", "a/b\\c", "/", "a//b"] {
        let by_comma: Vec<String> = sample.split(',').map(String::from).collect();
        assert_eq!(all_pieces(sample, ',', ','), by_comma, "{:?}", sample);
        let by_slash: Vec<String> = sample.split(|c| c == '/' || c == '\\').map(String::from).collect();
        assert_eq!(all_pieces(sample, '/', '\\'), by_slash, "{:?}", sample);
    }
}

#[test]
fn finding() {
    let hay = chars("a.b.c [[x]]");
    assert_eq!(position_of(&hay, '.'), Some(1));
    assert_eq!(position_of(&hay, 'z'), None);
    assert_eq!(position_of_either(&hay, 'c', 'b'), Some(2));
    assert_eq!(position_of_text(&hay, &chars("[[")), Some(6));
    assert_eq!(position_of_text(&hay, &chars("]]")), Some(9));
    assert_eq!(position_of_text(&hay, &chars("")), Some(0));
    assert_eq!(position_of_text(&hay, &chars("]]]")), None);
    assert_eq!(position_of_text(&[], &chars("")), Some(0));
    assert_eq!(position_of_text(&[], &chars("a")), None);
    for (text, pattern) in [("hello", "ll"), ("hello", "lo"), ("hello", "hello!"), ("aaa", "aa"), ("", "")] {
        assert_eq!(position_of_text(&chars(text), &chars(pattern)), text.find(pattern), "{:?}", (text, pattern));
        assert_eq!(contains_chars(&chars(text), &chars(pattern)), text.contains(pattern));
        assert_eq!(starts_with(&chars(text), &chars(pattern)), text.starts_with(pattern));
        assert_eq!(same_chars(&chars(text), &chars(pattern)), text == pattern);
    }
}

#[test]
fn small_numbers_agree_with_the_standard_library() {
    let mut samples: Vec<String> = (0..=300).map(|n| n.to_string()).collect();
    for extra in ["", "+", "-", "-0", "-1", "+0", "+255", "+256", "007", "0000000255", "00000000256", "1 ", " 1", "1a", "a", "١٢", "２１", "99999999999999999999999999", "+-1", "++1", "2.5"] {
        samples.push(extra.to_string());
    }
    for sample in samples {
        assert_eq!(parse_small_number(&chars(&sample)), sample.parse::<u8>().ok(), "{:?}", sample);
    }
}

#[test]
fn decimal_writing_agrees_with_the_standard_library() {
    for n in (0..=1000u32).chain([65_535, 1_000_000, u32::MAX]) {
        let mut out = chars("x");
        push_decimal(&mut out, n);
        assert_eq!(text(&out), format!("x{}", n));
    }
    for n in 0..=255u8 {
        let mut out = Vec::new();
        push_two_digits(&mut out, n);
        assert_eq!(text(&out), format!("{:02}", n));
    }
}

#[test]
fn true_in_any_case_and_nothing_else() {
    for sample in ["true", "TRUE", "True", "tRUe", "false", "", "tru", "truee", " true", "yes", "1", "trüe"] {
        assert_eq!(reads_true(&chars(sample)), sample.to_lowercase() == "true", "{:?}", sample);
    }
    let word = ['t', 'r', 'u', 'e'];
    for code in 0..=0x10FFFFu32 {
        if let Some(c) = char::from_u32(code) {
            for at in 0..4 {
                let mut sample = word;
                sample[at] = c;
                let as_text: String = sample.iter().collect();
                assert_eq!(reads_true(&sample), as_text.to_lowercase() == "true", "U+{:04X} at {}", code, at);
            }
        }
    }
}

#[test]
fn quotes_come_off_in_pairs() {
    for (sample, expected) in [
        ("\"a\"", "a"),
        ("'a'", "a"),
        ("\"a'", "\"a'"),
        ("a", "a"),
        ("\"", "\""),
        ("'", "'"),
        ("\"\"", ""),
        ("''", ""),
        ("\"\"a\"\"", "\"a\""),
        ("", ""),
    ] {
        assert_eq!(text(unquoted(&chars(sample))), expected, "{:?}", sample);
    }
}

#[test]
fn lists() {
    let list = |s: &str| parse_list(&chars(s));
    let strings = |items: &[&str]| Some(items.iter().map(|s| s.to_string()).collect::<Vec<_>>());
    assert_eq!(list("[a, b, c]"), strings(&["a", "b", "c"]));
    assert_eq!(list("[\"a\", 'b', c]"), strings(&["a", "b", "c"]));
    assert_eq!(list("[  a  ,\"b c\",  'd'  ]"), strings(&["a", "b c", "d"]));
    assert_eq!(list("[]"), strings(&[]));
    assert_eq!(list("[ \t ]"), strings(&[]));
    assert_eq!(list("[\"\"]"), strings(&[""]));
    assert_eq!(list("[ , ]"), strings(&["", ""]));
    assert_eq!(list("[a,]"), strings(&["a", ""]));
    assert_eq!(list("[\"a, b\"]"), strings(&["\"a", "b\""]));
    assert_eq!(list("a, b"), None);
    assert_eq!(list("[a, b"), None);
    assert_eq!(list("a, b]"), None);
    assert_eq!(list("["), None);
    assert_eq!(list(""), None);
}

#[test]
fn an_empty_text_has_no_line() {
    let (line, rest) = take_line(&[]);
    assert!(line.is_empty());
    assert!(rest.is_empty());
    let all = chars("only");
    let (line, rest) = take_line(&all);
    assert_eq!(text(line), "only");
    assert!(rest.is_empty());
}
