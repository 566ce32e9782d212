use pacwatch::text::{
    chars_of, string_of, trim_vec, char_is_space, split_lines, parse_u64_vec, parse_i64_vec,
    contains_vec, str_lt, sort_strings, join_strings, trim_char_vec, push_decimal,
};

fn s(v: &[char]) -> String {
    v.iter().collect()
}

#[test]
fn chars_round_trip() {
    let t = "päckage ✓ 名前";
    let v = chars_of(t);
    assert_eq!(v, t.chars().collect::<Vec<_>>());
    assert_eq!(string_of(&v), t);
}

#[test]
fn space_matches_std() {
    for u in 0u32..0x3100 {
        if let Some(c) = char::from_u32(u) {
            assert_eq!(char_is_space(c), c.is_whitespace(), "char {:x}", u);
        }
    }
    for c in ['\u{feff}', '\u{200b}', '\u{3000}', 'x'] {
        assert_eq!(char_is_space(c), c.is_whitespace());
    }
}

#[test]
fn trim_matches_std() {
    let cases = ["", "  ", " a ", "\t\nabc d \u{3000}", "x", "\u{a0}y\u{2029}", " a b  c "];
    for c in cases {
        assert_eq!(s(&trim_vec(&chars_of(c))), c.trim());
    }
}

#[test]
fn trim_char_matches_std() {
    let cases = ["%NAME%", "%%X%%", "%", "", "N%A", "%%"];
    for c in cases {
        assert_eq!(s(&trim_char_vec(&chars_of(c), '%')), c.trim_matches('%'));
    }
}

#[test]
fn lines_match_std() {
    let cases = [
        "", "\n", "a", "a\n", "a\nb", "a\r\nb\r\n", "a\r", "\r\n", "a\n\nb\n\n", "x\ry\n", "\n\n\n",
        "%NAME%\nbash\n\n%VERSION%\n5.2-1\n",
    ];
    for c in cases {
        let got: Vec<String> = split_lines(&chars_of(c)).iter().map(|l| s(l)).collect();
        let want: Vec<String> = c.lines().map(|l| l.to_string()).collect();
        assert_eq!(got, want, "input {:?}", c);
    }
}

#[test]
fn parse_numbers_match_std() {
    let cases = [
        "", "0", "+", "-", "+0", "-0", "12", "+12", "-12", "007", "1 ", " 1", "1a", "18446744073709551615",
        "18446744073709551616", "9223372036854775807", "9223372036854775808", "-9223372036854775808",
        "-9223372036854775809", "99999999999999999999999999", "-", "--1", "+-1", "١٢",
    ];
    for c in cases {
        let v = chars_of(c);
        assert_eq!(parse_u64_vec(&v), c.parse::<u64>().ok(), "u64 {:?}", c);
        assert_eq!(parse_i64_vec(&v), c.parse::<i64>().ok(), "i64 {:?}", c);
    }
}

#[test]
fn contains_matches_std() {
    let hay = ["", "abc", "aaab", "hello world"];
    let needles = ["", "a", "ab", "aab", "world", "xyz", "hello world!"];
    for h in hay {
        for n in needles {
            assert_eq!(contains_vec(&chars_of(h), &chars_of(n)), h.contains(n), "{:?} in {:?}", n, h);
        }
    }
}

#[test]
fn order_matches_std() {
    let words = ["", "a", "ab", "b", "B", "é", "z", "aa", "a\u{10000}", "a\u{ffff}"];
    for a in words {
        for b in words {
            assert_eq!(str_lt(a, b), a < b, "{:?} < {:?}", a, b);
        }
    }
}

#[test]
fn sort_matches_std() {
    let v: Vec<String> = ["zsh", "bash", "Zlib", "bash", "ä", "a"].iter().map(|x| x.to_string()).collect();
    let mut want = v.clone();
    want.sort();
    assert_eq!(sort_strings(&v), want);
}

#[test]
fn join_with_comma() {
    let v: Vec<String> = ["a", "b", "c"].iter().map(|x| x.to_string()).collect();
    assert_eq!(join_strings(&v, ", "), "a, b, c");
    assert_eq!(join_strings(&Vec::new(), ", "), "");
    assert_eq!(join_strings(&vec!["x".to_string()], ", "), "x");
}

#[test]
fn decimal_text() {
    for n in [0u64, 7, 10, 99, 1234567890, u64::MAX] {
        let mut out = Vec::new();
        push_decimal(&mut out, n);
        assert_eq!(s(&out), n.to_string());
    }
}
