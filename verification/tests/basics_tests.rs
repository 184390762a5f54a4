//! Numbers, texts, fields & collections.

use mpdpopm::collections::{difference, StringMap, StringSet};
use mpdpopm::fields;
use mpdpopm::number::{
    parse_i64, parse_u16, parse_u64, parse_u8, parse_usize, write_byte_lines,
    write_byte_list, write_i64, write_u64, ParseError,
};
use mpdpopm::paths::join;
use mpdpopm::text;

fn texts(v: &[&str]) -> Vec<String> {
    v.iter().map(|s| s.to_string()).collect()
}

#[test]
fn reading_numbers() {
    for s in [
        "", "0", "7", "+7", "-7", "255", "256", "-128", "-129", "127", "128", "+", "-", "1x", " 1",
        "00012", "65535", "65536", "18446744073709551615", "18446744073709551616",
        "-9223372036854775808", "-9223372036854775809", "９",
    ] {
        assert_eq!(parse_u8(s).ok(), s.parse::<u8>().ok(), "{}", s);
        assert_eq!(parse_u16(s).ok(), s.parse::<u16>().ok(), "{}", s);
        assert_eq!(parse_u64(s).ok(), s.parse::<u64>().ok(), "{}", s);
        assert_eq!(parse_i64(s).ok(), s.parse::<i64>().ok(), "{}", s);
        assert_eq!(parse_usize(s).ok(), s.parse::<usize>().ok(), "{}", s);
        if let (Err(ours), Err(theirs)) = (parse_u8(s), s.parse::<u8>()) {
            assert_eq!(ours.message(), theirs.to_string(), "{}", s);
        }
        if let (Err(ours), Err(theirs)) = (parse_i64(s), s.parse::<i64>()) {
            assert_eq!(ours.message(), theirs.to_string(), "{}", s);
        }
    }
    assert_eq!(parse_u8("256"), Err(ParseError::PosOverflow));
    assert_eq!(parse_i64("-9223372036854775809"), Err(ParseError::NegOverflow));
    assert_eq!(parse_u8(""), Err(ParseError::Empty));
    assert_eq!(parse_u8("x"), Err(ParseError::InvalidDigit));
}

#[test]
fn writing_numbers() {
    for n in [0, 9, 10, 1616812013, u64::MAX] {
        assert_eq!(write_u64(n), n.to_string());
        assert_eq!(parse_u64(&write_u64(n)), Ok(n));
    }
    for n in [0, -1, 42, i64::MIN, i64::MAX] {
        assert_eq!(write_i64(n), n.to_string());
    }
    assert_eq!(write_byte_list(&[1, 255]), format!("{:?}", [1u8, 255]));
    assert_eq!(write_byte_list(&[]), "[]");
    assert_eq!(write_byte_lines(&[1, 255]), format!("{:#?}", [1u8, 255]));
    assert_eq!(write_byte_lines(&[]), "[]");
}

#[test]
fn whitespace_and_lines() {
    for s in ["", " ", "a", " a b ", "\u{3000}a\u{a0}", "\ta\u{200b}", "a\u{85}"] {
        assert_eq!(text::trim(s), s.trim());
        assert_eq!(
            text::split(s),
            s.split(char::is_whitespace).map(String::from).collect::<Vec<String>>()
        );
    }
    for s in ["", "\n", "a", "a\n", "a\r\nb", "a\n\nb\n", "a\rb", "a\r"] {
        assert_eq!(
            text::lines(s),
            s.lines().map(String::from).collect::<Vec<String>>(),
            "{:?}",
            s
        );
    }
    assert_eq!(
        text::split_at_whitespace("rate me now"),
        (String::from("rate"), String::from("me now"))
    );
    assert_eq!(text::strip_prefix("sticker: a", "sticker: ").unwrap(), "a");
    assert!(text::strip_prefix("stick", "sticker: ").is_none());
    assert_eq!(text::skip_bytes("file: é", 6).unwrap(), "é");
    assert!(text::skip_bytes("é", 1).is_none());
    assert!(text::skip_bytes("file", 6).is_none());
}

#[test]
fn joining_paths() {
    assert_eq!(join("/music", "a/b.mp3"), "/music/a/b.mp3");
    assert_eq!(join("/music/", "a"), "/music/a");
    assert_eq!(join("/music", "/a"), "/a");
    assert_eq!(join("", "a"), "a");
    assert_eq!(join("/music", ""), "/music/");
}

#[test]
fn fields_of_replies() {
    let reply = "xstate: stop\nstate: stopped\nstate: pause\nsongid: 15\nnextsongid: 16\nelapsed: 1.5\n";
    assert_eq!(fields::state(reply).unwrap(), "pause");
    assert_eq!(fields::songid(reply).unwrap(), "15");
    assert_eq!(fields::elapsed(reply).unwrap(), "1.5");
    assert!(fields::songid("songid: \n").is_none());
    assert!(fields::songid("songid: 15\r\n").is_none());
    assert_eq!(fields::file("a: b\nfile: x: y\n").unwrap(), "x: y");
    assert_eq!(fields::file("file: ").unwrap(), "");
    assert_eq!(fields::duration("duration: 249.994").unwrap(), "249.994");
    assert!(fields::duration("Duration: 1").is_none());
}

#[test]
fn floating_point_texts() {
    for s in [
        "", "1", "1.", ".5", ".", "1.5e3", "1e", "1e+", "1e-2", "+1", "-1", "--1", "inf", "-INF",
        "Infinity", "nan", "infin", "1.2.3", "0x1", " 1", "1_0", "e1", "+.5e0",
    ] {
        assert_eq!(fields::is_float_text(s), s.parse::<f64>().is_ok(), "{:?}", s);
    }
}

#[test]
fn sets_of_texts() {
    let a = StringSet::from_vec(texts(&["x", "y", "x", "z"]));
    assert_eq!(a.len(), 3);
    assert!(a.contains("y") && !a.contains("w"));
    let b = StringSet::from_vec(texts(&["z", "w"]));
    assert_eq!(a.intersection(&b).to_vec(), texts(&["z"]));
    assert_eq!(a.union(&b).to_vec(), texts(&["x", "y", "z", "w"]));
    assert_eq!(
        difference(&texts(&["v", "x", "v"]), &a).to_vec(),
        texts(&["v"])
    );
}

#[test]
fn maps_of_texts() {
    let mut m: StringMap<u8> = StringMap::new();
    m.insert(String::from("a"), 1);
    m.insert(String::from("b"), 2);
    m.insert(String::from("a"), 3);
    assert_eq!(m.len(), 2);
    assert_eq!(m.get("a"), Some(&3));
    assert_eq!(m.get("c"), None);
    assert_eq!((m.key(1).as_str(), *m.value(1)), ("b", 2));
}
