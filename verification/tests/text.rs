use account_autofill::text::{
    char_is_ws, contains_text, find_pattern, parse_i32_or_zero_chars, split_chars, split_lines,
    split_words, starts_with_text, strip_prefixes_chars, trim_char_chars, trim_chars,
};

fn cs(s: &str) -> Vec<char> {
    s.chars().collect()
}

fn st(v: &[char]) -> String {
    v.iter().collect()
}

const SAMPLES: &[&str] = &[
    "",
    " ",
    "a",
    "  a b  ",
    "\t\n x \r\n",
    "\u{3000}全角\u{3000}",
    "\u{85}x\u{a0}",
    "\u{200b}zero width\u{200b}",
    "a\nb\r\nc",
    "a\n\nb\n",
    "\r\n",
    "x\r",
    "line\n",
    "one two\tthree\u{2003}four",
    "|a||b|",
];

#[test]
fn whitespace_agrees_with_std() {
    for c in ['\t', '\n', '\u{b}', '\u{c}', '\r', ' ', '\u{85}', '\u{a0}', '\u{1680}', '\u{2000}',
        '\u{200a}', '\u{2028}', '\u{2029}', '\u{202f}', '\u{205f}', '\u{3000}', '\u{200b}', 'a',
        '\u{180e}', '\u{feff}']
    {
        assert_eq!(char_is_ws(c), c.is_whitespace(), "{:?}", c);
    }
}

#[test]
fn trim_agrees_with_std() {
    for s in SAMPLES {
        assert_eq!(st(&trim_chars(&cs(s))), s.trim(), "{:?}", s);
    }
}

#[test]
fn lines_agree_with_std() {
    for s in SAMPLES {
        let mine: Vec<String> = split_lines(&cs(s)).iter().map(|l| st(l)).collect();
        let theirs: Vec<String> = s.lines().map(|l| l.to_string()).collect();
        assert_eq!(mine, theirs, "{:?}", s);
    }
}

#[test]
fn split_agrees_with_std() {
    for s in SAMPLES {
        let mine: Vec<String> = split_chars(&cs(s), '|').iter().map(|l| st(l)).collect();
        let theirs: Vec<String> = s.split('|').map(|l| l.to_string()).collect();
        assert_eq!(mine, theirs, "{:?}", s);
    }
}

#[test]
fn words_agree_with_std() {
    for s in SAMPLES {
        let mine: Vec<String> = split_words(&cs(s)).iter().map(|l| st(l)).collect();
        let theirs: Vec<String> = s.split_whitespace().map(|l| l.to_string()).collect();
        assert_eq!(mine, theirs, "{:?}", s);
    }
}

#[test]
fn parse_agrees_with_std() {
    for s in ["", "+", "-", "0", "12", "-0", "+-1", "--1", "2147483647", "2147483648",
        "-2147483648", "-2147483649", " 1", "1 ", "00012", "\u{663}", "99999999999999999999",
        "+2147483647", "12a"]
    {
        assert_eq!(parse_i32_or_zero_chars(&cs(s)), s.parse::<i32>().unwrap_or(0), "{:?}", s);
    }
}

#[test]
fn trim_matches_agrees_with_std() {
    for s in ["\"abc\"", "\"\"\"", "a\"b", "", "\"x"] {
        assert_eq!(st(&trim_char_chars(&cs(s), '"')), s.trim_matches('"'), "{:?}", s);
    }
}

#[test]
fn trim_start_matches_agrees_with_std() {
    for s in ["bundleID=bundleID=x", "bundleID=", "xbundleID=", "bundle", ""] {
        assert_eq!(
            st(&strip_prefixes_chars(&cs(s), &cs("bundleID="))),
            s.trim_start_matches("bundleID="),
            "{:?}",
            s
        );
    }
}

#[test]
fn find_agrees_with_std() {
    for (s, p) in [("pid = 12 type=\"x\"", "type=\""), ("abc", ""), ("", "a"), ("aaa", "aa"), ("ab", "abc")] {
        assert_eq!(find_pattern(&cs(s), &cs(p)), s.find(p).map(|b| s[..b].chars().count()), "{:?} {:?}", s, p);
        assert_eq!(contains_text(&cs(s), p), s.contains(p));
        assert_eq!(starts_with_text(&cs(s), p), s.starts_with(p));
    }
}
