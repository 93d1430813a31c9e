//! Text and numbers.

use openairplay1::number::{parse_unsigned, push_decimal, push_decimal_wide, spells_float, to_hex};
use openairplay1::text::{
    after_text, chars_of, eq_ignoring_case, find, is_whitespace, lines, same, split, split_once,
    split_whitespace, string_of, strip_prefix, trim, trim_end_matches,
};
use openairplay1::time::{frames_to_duration, Duration};

fn texts(parts: Vec<&[char]>) -> Vec<String> {
    parts.into_iter().map(string_of).collect()
}

#[test]
fn white_space_is_what_the_standard_says() {
    for code in 0..=0x10FFFFu32 {
        if let Some(c) = char::from_u32(code) {
            assert_eq!(is_whitespace(c), c.is_whitespace(), "{code:x}");
        }
    }
}

#[test]
fn lines_and_pieces_are_what_the_standard_says() {
    for s in [
        "", "a", "\n", "a\n", "a\r\n", "a\r", "\r\n\r\n", "a\nb", "a\r\nb\r\n", "a\n\nb\r\r\n",
        " a  b ", "\u{3000}x\u{a0}y\u{85}", ";", "a;", ";a;;b", "\u{e9};\u{1f3b5}",
    ] {
        let chars = chars_of(s);
        assert_eq!(texts(lines(&chars)), s.lines().collect::<Vec<_>>(), "{s:?}");
        assert_eq!(texts(split(&chars, ';')), s.split(';').collect::<Vec<_>>(), "{s:?}");
        assert_eq!(
            texts(split_whitespace(&chars)),
            s.split_whitespace().collect::<Vec<_>>(),
            "{s:?}"
        );
        assert_eq!(string_of(trim(&chars)), s.trim(), "{s:?}");
        assert_eq!(
            string_of(trim_end_matches(&chars, ';')),
            s.trim_end_matches(';'),
            "{s:?}"
        );
        assert_eq!(
            split_once(&chars, ';').map(|(a, b)| (string_of(a), string_of(b))),
            s.split_once(';').map(|(a, b)| (a.to_string(), b.to_string())),
            "{s:?}"
        );
    }
}

#[test]
fn texts_are_compared_and_searched() {
    let c = |s: &str| chars_of(s);
    assert!(same("a", "a") && !same("a", "A") && !same("a", "ab"));
    assert!(eq_ignoring_case(&c("aBc1"), &c("AbC1")));
    assert!(!eq_ignoring_case(&c("\u{e9}"), &c("\u{c9}")), "only ASCII");
    assert_eq!(strip_prefix(&c("abc"), &c("ab")), Some(&c("c")[..]));
    assert_eq!(strip_prefix(&c("abc"), &c("b")), None);
    assert_eq!(find(&c("abc"), 'b'), 1);
    assert_eq!(find(&c("abc"), 'x'), 3);
    assert_eq!(after_text(&c("one two two"), &c("two")), Some(&c(" two")[..]));
    assert_eq!(after_text(&c("one"), &c("two")), None);
}

#[test]
fn numbers_are_read_as_the_standard_reads_them() {
    for s in ["", "0", "007", "+5", "-5", "+", "255", "256", " 1", "1 ", "1_0", "\u{661}"] {
        let chars = chars_of(s);
        assert_eq!(parse_unsigned(&chars, 10, 255), s.parse::<u8>().ok().map(u64::from), "{s:?}");
    }
    for s in ["", "0", "fF", "+a", "100", "g", "-1"] {
        let chars = chars_of(s);
        let expected = u8::from_str_radix(s, 16).ok().map(u64::from);
        assert_eq!(parse_unsigned(&chars, 16, 255), expected, "{s:?}");
    }
    let max = u64::MAX.to_string();
    assert_eq!(parse_unsigned(&chars_of(&max), 10, u64::MAX), Some(u64::MAX));
    assert_eq!(parse_unsigned(&chars_of("18446744073709551616"), 10, u64::MAX), None);
}

#[test]
fn numbers_are_written_as_the_standard_writes_them() {
    for n in [0u64, 9, 10, 44100, u64::MAX] {
        let mut text = String::new();
        push_decimal(&mut text, n);
        assert_eq!(text, n.to_string());
        assert_eq!(parse_unsigned(&chars_of(&text), 10, u64::MAX), Some(n));
    }
    let mut out = String::from("n=");
    push_decimal_wide(&mut out, u128::MAX);
    assert_eq!(out, format!("n={}", u128::MAX));
    assert_eq!(to_hex(&[0, 0xab, 0x10], true), "00AB10");
    assert_eq!(to_hex(&[0, 0xab, 0x10], false), "00ab10");
}

#[test]
fn floating_point_texts_are_what_the_standard_parses() {
    for s in [
        "0", "-0", "+1", "1.", ".5", "1.5", ".", "", "-", "+", "e", "1e", "1e5", "1E-5", "1e+5", "1e+",
        ".e1", "1.e1", ".5e1", "inf", "-inf", "+INF", "infinity", "Infinity", "infinit", "nan", "-NaN",
        "NAN", "nano", " 1", "1 ", "1_0", "0x1", "1.2.3", "--1", "+-1", "1e1.5", "-20.000000",
        "\u{661}", "1e99999", "i", "in",
    ] {
        assert_eq!(spells_float(&chars_of(s)), s.parse::<f32>().is_ok(), "{s:?}");
    }
}

#[test]
fn frames_take_time() {
    assert_eq!(frames_to_duration(44100, 44100), Duration::from_secs(1));
    assert_eq!(frames_to_duration(1, 44100), Duration::from_nanos(22_676));
    assert_eq!(frames_to_duration(5, 0), Duration::zero());
    for (frames, rate) in [(352u32, 44100u32), (u32::MAX, 44100), (1, 3), (2, 3), (7, 48000)] {
        let expected = std::time::Duration::from_secs_f64(frames as f64 / rate as f64);
        let got = frames_to_duration(frames, rate);
        assert!(got.as_nanos().abs_diff(expected.as_nanos()) <= 1, "{frames}/{rate}");
    }
    let d = Duration::from_nanos_wide(3_000_000_007);
    assert_eq!((d.as_secs(), d.as_nanos()), (3, 3_000_000_007));
    assert!(Duration::zero().is_zero() && !d.is_zero());
}
