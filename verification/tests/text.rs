use memcached::chars::{is_space, range_is, str_byte_len, str_chars, str_eq, without_line_end};
use memcached::decimal::{
    push_decimal, push_signed_decimal, read_digits, read_isize, read_u16, read_unsigned, read_usize,
};
use memcached::frame::{find, locate_fields, locate_segments};

fn chars(s: &str) -> Vec<char> {
    s.chars().collect()
}

// A small generator of strings over an alphabet, the same on every run.
fn words(alphabet: &[&str], count: usize, max_len: usize) -> Vec<String> {
    let mut state: u64 = 0x2545_f491_4f6c_dd1d;
    let mut out = Vec::new();
    for _ in 0..count {
        state ^= state << 13;
        state ^= state >> 7;
        state ^= state << 17;
        let len = (state % (max_len as u64 + 1)) as usize;
        let mut s = String::new();
        for _ in 0..len {
            state ^= state << 13;
            state ^= state >> 7;
            state ^= state << 17;
            s.push_str(alphabet[(state % alphabet.len() as u64) as usize]);
        }
        out.push(s);
    }
    out
}

#[test]
fn whitespace_is_what_the_standard_library_calls_whitespace() {
    for u in 0..=0x10ffffu32 {
        if let Some(c) = char::from_u32(u) {
            assert_eq!(is_space(c), c.is_whitespace(), "U+{:04X}", u);
        }
    }
    assert!(is_space(' ') && is_space('\t') && is_space('\n') && is_space('\r'));
    assert!(is_space('\u{a0}') && is_space('\u{3000}') && is_space('\u{2028}'));
    assert!(!is_space('a') && !is_space('\u{200b}') && !is_space('\0'));
}

#[test]
fn strings_are_laid_out_as_characters() {
    assert_eq!(str_chars(""), Vec::<char>::new());
    assert_eq!(str_chars("h\u{e9}\u{1f600}!"), vec!['h', '\u{e9}', '\u{1f600}', '!']);
    assert_eq!(str_byte_len(""), 0);
    assert_eq!(str_byte_len("hola"), 4);
    assert_eq!(str_byte_len("h\u{e9}\u{1f600}!"), 8);
}

#[test]
fn string_equality_is_by_characters() {
    assert!(str_eq("", ""));
    assert!(str_eq("-p", "-p"));
    assert!(!str_eq("-p", "-P"));
    assert!(!str_eq("-p", "-p "));
    assert!(!str_eq("a", ""));
    assert!(str_eq("caf\u{e9}", "caf\u{e9}"));
    assert!(!str_eq("caf\u{e9}", "cafe\u{301}"));
    let s = chars("xx set yy");
    assert!(range_is(&s, 3, 6, "set"));
    assert!(!range_is(&s, 3, 7, "set"));
    assert!(!range_is(&s, 2, 5, "set"));
    assert!(range_is(&s, 4, 4, ""));
    assert!(!range_is(&s, 0, 2, "xy"));
}

#[test]
fn line_ends_are_stripped_at_the_end_only() {
    assert_eq!(without_line_end("abc"), "abc");
    assert_eq!(without_line_end("abc\r\n"), "abc");
    assert_eq!(without_line_end("abc\n\n\r"), "abc");
    assert_eq!(without_line_end("\r\nabc\r\nd\n"), "\r\nabc\r\nd");
    assert_eq!(without_line_end("abc \n"), "abc ");
    assert_eq!(without_line_end("abc\n "), "abc\n ");
    assert_eq!(without_line_end("\r\n\r\n"), "");
    assert_eq!(without_line_end(""), "");
    assert_eq!(without_line_end("\u{e9}\u{2028}\n"), "\u{e9}\u{2028}");
}

#[test]
fn fields_read_as_the_standard_library_parses() {
    let mut cases: Vec<String> = words(&["0", "1", "9", "5", "+", "-", " ", "a", "6"], 4000, 7);
    for s in [
        "0", "65535", "65536", "+65535", "-0", "+0", "00000000000000000000000065535",
        "18446744073709551615", "18446744073709551616", "9223372036854775807",
        "9223372036854775808", "-9223372036854775808", "-9223372036854775809",
        "99999999999999999999999999", "-99999999999999999999999999", "", "+", "-", "１２",
        "4294967295", "4294967296", "-2147483648", "-2147483649",
    ] {
        cases.push(s.to_string());
    }
    for s in cases {
        let c = chars(&s);
        assert_eq!(read_u16(&c, 0, c.len()), s.parse::<u16>().ok(), "{:?}", s);
        assert_eq!(read_usize(&c, 0, c.len()), s.parse::<usize>().ok(), "{:?}", s);
        assert_eq!(read_isize(&c, 0, c.len()), s.parse::<isize>().ok(), "{:?}", s);
        assert_eq!(read_unsigned(&c, 0, c.len(), u64::MAX), s.parse::<u64>().ok(), "{:?}", s);
    }
}

#[test]
fn digits_are_read_within_bounds_and_limits() {
    let c = chars("ab123cd");
    assert_eq!(read_digits(&c, 2, 5, 1000), Some(123));
    assert_eq!(read_digits(&c, 2, 5, 123), Some(123));
    assert_eq!(read_digits(&c, 2, 5, 122), None);
    assert_eq!(read_digits(&c, 2, 4, 122), Some(12));
    assert_eq!(read_digits(&c, 2, 2, 1000), None);
    assert_eq!(read_digits(&c, 1, 5, 1000), None);
    assert_eq!(read_digits(&c, 2, 6, 1000), None);
    assert_eq!(read_unsigned(&c, 2, 5, 200), Some(123));
    assert_eq!(read_digits(&chars("+1"), 0, 2, 10), None);
    assert_eq!(read_unsigned(&chars("+1"), 0, 2, 10), Some(1));
    assert_eq!(read_unsigned(&chars("++1"), 0, 3, 10), None);
    assert_eq!(read_digits(&chars("0"), 0, 1, 0), Some(0));
}

#[test]
fn numbers_are_written_in_decimal() {
    for n in [0u64, 1, 9, 10, 11, 99, 100, 101, 65535, 1234567890, u64::MAX, u64::MAX / 10] {
        let mut s = String::from("n=");
        push_decimal(&mut s, n);
        assert_eq!(s, format!("n={}", n));
    }
    for i in [0i64, 1, -1, 10, -10, 100, -100, i64::MAX, i64::MIN, i64::MIN + 1, -9, 9] {
        let mut s = String::new();
        push_signed_decimal(&mut s, i);
        assert_eq!(s, format!("{}", i));
        let c = chars(&s);
        assert_eq!(read_isize(&c, 0, c.len()), Some(i as isize));
    }
}

#[test]
fn find_agrees_with_the_standard_library() {
    let texts = words(&["a", "b", "-", "\u{e9}"], 3000, 9);
    let pats = ["", "-", "--", "a-", "ab", "\u{e9}", "-a-"];
    for t in &texts {
        let tc = chars(t);
        for p in pats {
            let pc = chars(p);
            for from in 0..=tc.len() + 1 {
                let expect = if from > tc.len() {
                    None
                } else {
                    tc[from..]
                        .windows(pc.len().max(1))
                        .position(|w| pc.is_empty() || w == &pc[..])
                        .map(|i| i + from)
                        .or(if pc.is_empty() { Some(from) } else { None })
                };
                assert_eq!(find(&tc, &pc, from), expect, "{:?} {:?} {}", t, p, from);
            }
        }
    }
}

#[test]
fn segments_agree_with_the_standard_library() {
    let texts = words(&["a", "b", "-", "-", "\u{e9}", " "], 6000, 10);
    for sep in ["--", "-", "a-", "\r\n", "---", ""] {
        let sc = chars(sep);
        for t in &texts {
            let tc = chars(t);
            let expect: Vec<&str> = t.split_terminator(sep).collect();
            let got = locate_segments(&tc, &sc);
            assert_eq!(got.count, expect.len().min(3), "{:?} {:?}", t, sep);
            if got.count >= 1 {
                let first: String = tc[got.first.0..got.first.1].iter().collect();
                assert_eq!(first, expect[0], "{:?} {:?}", t, sep);
            }
            if got.count >= 2 {
                let second: String = tc[got.second.0..got.second.1].iter().collect();
                assert_eq!(second, expect[1], "{:?} {:?}", t, sep);
            }
        }
    }
}

#[test]
fn fields_agree_with_the_standard_library() {
    let mut texts = words(&["a", "b", " ", "\t", "\u{3000}", "\u{e9}", "\n"], 6000, 12);
    texts.push("set test 0 100 4 no_reply".to_string());
    texts.push("   ".to_string());
    texts.push(String::new());
    for t in &texts {
        let tc = chars(t);
        let expect: Vec<&str> = t.split_whitespace().collect();
        let got = locate_fields(&tc);
        assert_eq!(got.len(), expect.len(), "{:?}", t);
        for (k, (a, b)) in got.iter().enumerate() {
            let field: String = tc[*a..*b].iter().collect();
            assert_eq!(field, expect[k], "{:?}", t);
        }
    }
}
