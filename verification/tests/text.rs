use gitlucky::decimal::{parse, push_decimal, to_decimal};
use gitlucky::text::{
    chars_of, find, is_whitespace, nth_segment, split_lines, split_once, starts_with, string_of,
    strip_class, trim, trim_matches, CharClass,
};

fn chars(s: &str) -> Vec<char> {
    s.chars().collect()
}

fn text(s: &[char]) -> String {
    s.iter().collect()
}

#[test]
fn chars_and_back() {
    assert_eq!(chars_of("héllo ✓"), chars("héllo ✓"));
    assert_eq!(chars_of(""), Vec::<char>::new());
    assert_eq!(string_of(&chars("héllo ✓")), "héllo ✓");
    assert_eq!(string_of(&[]), "");
}

#[test]
fn white_space_is_what_std_says() {
    for code in 0..0x11000u32 {
        if let Some(c) = char::from_u32(code) {
            assert_eq!(is_whitespace(c), c.is_whitespace(), "U+{:04X}", code);
        }
    }
    assert!(CharClass::Whitespace.contains('\t'));
    assert!(!CharClass::Whitespace.contains('x'));
    assert!(CharClass::Only('x').contains('x'));
    assert!(!CharClass::Only('x').contains(' '));
}

#[test]
fn trimming() {
    for s in ["", " ", "a", "  a b  ", "\t\r\nx\u{a0}\u{2003}", "\u{3000}", " - "] {
        assert_eq!(text(trim(&chars(s))), s.trim(), "{:?}", s);
    }
    for s in ["", "-", "--1,2--", "1", "-a-b-", "+-"] {
        assert_eq!(text(trim_matches(&chars(s), '-')), s.trim_matches('-'), "{:?}", s);
    }
    assert_eq!(text(strip_class(&chars("xxaxx"), CharClass::Only('x'))), "a");
}

#[test]
fn finding() {
    assert_eq!(find(&chars("a@@b@@"), &chars("@@")), Some(1));
    assert_eq!(find(&chars("a@b@"), &chars("@@")), None);
    assert_eq!(find(&chars("@@@"), &chars("@@")), Some(0));
    assert_eq!(find(&chars("abc"), &chars("")), Some(0));
    assert_eq!(find(&chars(""), &chars("")), Some(0));
    assert_eq!(find(&chars("ab"), &chars("abc")), None);
    assert_eq!(find(&chars("xxabc"), &chars("abc")), Some(2));
    assert!(starts_with(&chars("---x"), &chars("---")));
    assert!(starts_with(&chars("---"), &chars("")));
    assert!(!starts_with(&chars("--"), &chars("---")));
    assert!(!starts_with(&chars("-+-"), &chars("---")));
}

#[test]
fn splitting_once() {
    let s = chars("a, b,c");
    let (before, after) = split_once(&s, &chars(",")).unwrap();
    assert_eq!((text(before), text(after)), ("a".to_string(), " b,c".to_string()));
    let s = chars("x@@");
    let (before, after) = split_once(&s, &chars("@@")).unwrap();
    assert_eq!((text(before), text(after)), ("x".to_string(), "".to_string()));
    assert!(split_once(&chars("abc"), &chars(",")).is_none());
}

#[test]
fn segments() {
    let url = chars("https://github.com/owner/name/pull/467.diff");
    for n in 0..9 {
        let expected = "https://github.com/owner/name/pull/467.diff".split('/').nth(n);
        assert_eq!(nth_segment(&url, '/', n).map(text), expected.map(str::to_string));
    }
    assert_eq!(nth_segment(&chars("a:b:c"), ':', 1).map(text), Some("b".to_string()));
    assert_eq!(nth_segment(&chars("a:"), ':', 1).map(text), Some("".to_string()));
    assert_eq!(nth_segment(&chars("a"), ':', 1).map(text), None);
    assert_eq!(nth_segment(&chars(""), ':', 0).map(text), Some("".to_string()));
}

#[test]
fn lines() {
    let split = |s: &str| -> Vec<String> {
        split_lines(&chars(s)).iter().map(|l| text(l)).collect()
    };
    assert_eq!(split(""), Vec::<String>::new());
    assert_eq!(split("a"), vec!["a"]);
    assert_eq!(split("a\n"), vec!["a"]);
    assert_eq!(split("a\n\nb"), vec!["a", "", "b"]);
    assert_eq!(split("\n"), vec![""]);
    assert_eq!(split("a\r\nb\n"), vec!["a\r", "b"]);
}

#[test]
fn decimal_numbers() {
    assert_eq!(parse(&chars("0")), Some(0));
    assert_eq!(parse(&chars("42")), Some(42));
    assert_eq!(parse(&chars("+42")), Some(42));
    assert_eq!(parse(&chars("0042")), Some(42));
    assert_eq!(parse(&chars("")), None);
    assert_eq!(parse(&chars("+")), None);
    assert_eq!(parse(&chars("++1")), None);
    assert_eq!(parse(&chars("-1")), None);
    assert_eq!(parse(&chars("4 2")), None);
    assert_eq!(parse(&chars("42 ")), None);
    assert_eq!(parse(&chars(&usize::MAX.to_string())), Some(usize::MAX));
    assert_eq!(parse(&chars(&format!("{}", usize::MAX as u128 + 1))), None);
    for s in ["7", "+7", "x", "", "18446744073709551615", "18446744073709551616", "１"] {
        assert_eq!(parse(&chars(s)), s.parse::<usize>().ok(), "{:?}", s);
    }
    for n in [0usize, 1, 9, 10, 11, 99, 100, 12345, usize::MAX] {
        assert_eq!(to_decimal(n), n.to_string());
        assert_eq!(parse(&chars(&to_decimal(n))), Some(n));
    }
    let mut out = chars("n=");
    push_decimal(&mut out, 305);
    assert_eq!(text(&out), "n=305");
}
