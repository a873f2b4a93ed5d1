use rat_king::text::{
    char_width, find_chars, is_whitespace, push_decimal, push_decimal_i64, split_chars, split_lines,
    trim_chars,
};

fn chars(s: &str) -> Vec<char> {
    s.chars().collect()
}

fn text(v: &[char]) -> String {
    v.iter().collect()
}

const SAMPLES: &[&str] = &[
    "", " ", "a", "  padded  ", "\t\n x \r\n", "\u{85}x\u{a0}", "\u{1680}\u{2000}y\u{200a}\u{2028}",
    "\u{2029}\u{202f}z\u{205f}\u{3000}", "\u{200b}keep\u{feff}", "line1\nline2\r\nline3", "a\n\nb\n",
    "\r\n", "\n", "x\r", "one;two;;three;", ";", "a;b", "é;ü\n\r\r\n",
];

#[test]
fn whitespace_matches_std() {
    for c in ['\u{0}', ' ', '\t', '\u{b}', '\u{c}', '\u{1c}', '\u{85}', '\u{a0}', '\u{1680}', '\u{180e}', '\u{2007}', '\u{200b}', '\u{2028}', '\u{3000}', '\u{feff}', 'x'] {
        assert_eq!(is_whitespace(c), c.is_whitespace(), "char {:?}", c);
    }
}

#[test]
fn trim_matches_std() {
    for s in SAMPLES {
        assert_eq!(text(&trim_chars(&chars(s))), s.trim(), "text {:?}", s);
    }
}

#[test]
fn lines_match_std() {
    for s in SAMPLES {
        let ours: Vec<String> = split_lines(&chars(s)).iter().map(|l| text(l)).collect();
        let theirs: Vec<String> = s.lines().map(|l| l.to_string()).collect();
        assert_eq!(ours, theirs, "text {:?}", s);
    }
}

#[test]
fn split_matches_std() {
    for s in SAMPLES {
        let ours: Vec<String> = split_chars(&chars(s), ';').iter().map(|l| text(l)).collect();
        let theirs: Vec<String> = s.split(';').map(|l| l.to_string()).collect();
        assert_eq!(ours, theirs, "text {:?}", s);
    }
}

#[test]
fn find_matches_std() {
    for s in SAMPLES {
        for p in ["", "a", "line", ";", "\n", "ü"] {
            let ours = find_chars(&chars(s), &chars(p), 0).map(|k| s.chars().take(k).map(|c| c.len_utf8()).sum::<usize>());
            assert_eq!(ours, s.find(p), "text {:?} pattern {:?}", s, p);
        }
    }
}

#[test]
fn decimals_match_format() {
    for n in [0u64, 7, 10, 99, 100, 12345, u64::MAX] {
        let mut out = Vec::new();
        push_decimal(&mut out, n);
        assert_eq!(text(&out), n.to_string());
    }
    for i in [0i64, -1, 42, -12, i64::MIN, i64::MAX] {
        let mut out = Vec::new();
        push_decimal_i64(&mut out, i);
        assert_eq!(text(&out), i.to_string());
    }
}

#[test]
fn char_widths_match_utf8() {
    for c in ['a', 'é', '€', '😀', '\u{7f}', '\u{80}', '\u{7ff}', '\u{800}', '\u{ffff}', '\u{10000}'] {
        assert_eq!(char_width(c), c.len_utf8());
    }
}
