//! The small grammars, one by one.

use ceph_command_parser::attrs::{
    allowed, allowed_repeats, f32_max_range, f32_min_range, one_or_more, parse_decimal,
    parse_last_name, parse_name, parse_u32, req, take_number, trailing_chars, u32_max_range,
    u32_min_range,
};
use ceph_command_parser::bytes::{
    bytes_eq, find, is_float, str_eq, tag, take_until, take_until_and_consume, take_while,
    ByteClass, Failure,
};
use ceph_command_parser::text::{contains, is_whitespace, join, remove, split, words};
use ceph_command_parser::types::{
    AllowedRepeats, Availability, Flag, Module, Permissions,
};

const NOTHING: &[u8] = &[];

#[test]
fn permissions_follow_the_letters() {
    let p = |r, w, x| Permissions { read: r, write: w, execute: x };
    assert_eq!(p(true, false, false), Permissions::from_str("r"));
    assert_eq!(p(true, true, false), Permissions::from_str("rw"));
    assert_eq!(p(true, true, true), Permissions::from_str("rwx"));
    assert_eq!(p(true, true, true), Permissions::from_str("xwr"));
    assert_eq!(p(true, false, true), Permissions::from_str("xrxrxx"));
    assert_eq!(p(false, false, false), Permissions::from_str(""));
    assert_eq!(p(false, true, false), Permissions::from_str("w"));
}

#[test]
fn permissions_ignore_other_characters() {
    let p = |r, w, x| Permissions { read: r, write: w, execute: x };
    assert_eq!(p(false, false, false), Permissions::from_str("abc RWX"));
    assert_eq!(p(true, true, false), Permissions::from_str("w, r-"));
    assert_eq!(p(false, false, true), Permissions::from_str("\u{e9}x\u{2028}"));
}

#[test]
fn availability_literals() {
    assert_eq!(Availability::Cli, Availability::from_str("cli"));
    assert_eq!(Availability::Rest, Availability::from_str("rest"));
    assert_eq!(Availability::Both, Availability::from_str("cli,rest"));
    assert_eq!(Availability::Unknown, Availability::from_str("rest,cli"));
    assert_eq!(Availability::Unknown, Availability::from_str("cli, rest"));
    assert_eq!(Availability::Unknown, Availability::from_str("CLI"));
    assert_eq!(Availability::Unknown, Availability::from_str(""));
}

#[test]
fn module_literals() {
    assert_eq!(Module::Mds, Module::from_str("mds"));
    assert_eq!(Module::Osd, Module::from_str("osd"));
    assert_eq!(Module::Pg, Module::from_str("pg"));
    assert_eq!(Module::Mon, Module::from_str("mon"));
    assert_eq!(Module::Auth, Module::from_str("auth"));
    assert_eq!(Module::Log, Module::from_str("log"));
    assert_eq!(Module::ConfigKey, Module::from_str("config-key"));
    assert_eq!(Module::Unknown, Module::from_str("config_key"));
    assert_eq!(Module::Unknown, Module::from_str("Pg"));
    assert_eq!(Module::Unknown, Module::from_str(""));
}

#[test]
fn module_class_names() {
    assert_eq!("MdsCommand", Module::Mds.to_string());
    assert_eq!("OsdCommand", Module::Osd.to_string());
    assert_eq!("PlacementGroupCommand", Module::Pg.to_string());
    assert_eq!("MonitorCommand", Module::Mon.to_string());
    assert_eq!("AuthCommand", Module::Auth.to_string());
    assert_eq!("LogCommand", Module::Log.to_string());
    assert_eq!("ConfigKeyCommand", Module::ConfigKey.to_string());
    assert_eq!("UnknownCommand", Module::Unknown.to_string());
}

#[test]
fn flag_names() {
    assert_eq!(Flag::NoFlag, Flag::from_str("NONE"));
    assert_eq!(Flag::NoForward, Flag::from_str("NOFORWARD"));
    assert_eq!(Flag::Obsolete, Flag::from_str("OBSOLETE"));
    assert_eq!(Flag::Deprecated, Flag::from_str("DEPRECATED"));
    assert_eq!(Flag::NoFlag, Flag::from_str("deprecated"));
    assert_eq!(Flag::NoFlag, Flag::from_str(""));
}

#[test]
fn cardinality_words() {
    assert_eq!(AllowedRepeats::Many, AllowedRepeats::from_str("N"));
    assert_eq!(AllowedRepeats::One, AllowedRepeats::from_str("n"));
    assert_eq!(AllowedRepeats::One, AllowedRepeats::from_str("1"));
    assert_eq!(AllowedRepeats::One, AllowedRepeats::from_str(""));
    assert_eq!(AllowedRepeats::One, AllowedRepeats::from_str("NN"));
    assert_eq!("many", AllowedRepeats::Many.to_string());
    assert_eq!("one", AllowedRepeats::One.to_string());
}

#[test]
fn byte_classes() {
    for b in 0u8..=255 {
        let c = b as char;
        assert_eq!(c.is_ascii_digit(), ByteClass::Digit.contains(b));
        assert_eq!(c.is_ascii_alphabetic(), ByteClass::Alpha.contains(b));
        assert_eq!(c.is_ascii_alphanumeric(), ByteClass::Alnum.contains(b));
        assert_eq!(c.is_ascii_digit() || c == '.', ByteClass::Decimal.contains(b));
        assert_eq!(c.is_ascii_digit() || c == '.', is_float(b));
        assert_eq!(c == ' ' || c == '\t', ByteClass::Blank.contains(b));
        assert_eq!(
            c == ' ' || c == '\t' || c == '\r' || c == '\n',
            ByteClass::Space.contains(b)
        );
        assert_eq!(c != '\r' && c != '\n', ByteClass::InLine.contains(b));
    }
}

#[test]
fn tag_tells_short_input_from_wrong_input() {
    assert_eq!(Ok((&b"=5"[..], ())), tag(b"range=5", "range"));
    assert_eq!(Ok((NOTHING, ())), tag(b"range", "range"));
    assert_eq!(Err(Failure::Incomplete), tag(b"ran", "range"));
    assert_eq!(Err(Failure::Incomplete), tag(b"", "range"));
    assert_eq!(Err(Failure::Error), tag(b"rim", "range"));
    assert_eq!(Err(Failure::Error), tag(b"rangx=5", "range"));
    assert_eq!(Ok((&b"x"[..], ())), tag(b"x", ""));
}

#[test]
fn take_while_stops_at_the_first_other_byte() {
    assert_eq!(Ok((&b"a7"[..], &b"123"[..])), take_while(b"123a7", ByteClass::Digit));
    assert_eq!(Ok((&b"a7"[..], NOTHING)), take_while(b"a7", ByteClass::Digit));
    assert_eq!(Ok((NOTHING, &b"123"[..])), take_while(b"123", ByteClass::Digit));
    assert_eq!(Ok((NOTHING, NOTHING)), take_while(b"", ByteClass::Digit));
    assert_eq!(Ok((&b"-b"[..], &b"aZ9"[..])), take_while(b"aZ9-b", ByteClass::Alnum));
    assert_eq!(Ok((&b"9"[..], &b"aZ"[..])), take_while(b"aZ9", ByteClass::Alpha));
}

#[test]
fn find_gives_the_first_occurrence() {
    assert_eq!(Some(2), find(b"ab\",c\",", b"\","));
    assert_eq!(Some(0), find(b"aaa", b"a"));
    assert_eq!(Some(1), find(b"aab", b"ab"));
    assert_eq!(None, find(b"aab", b"ba"));
    assert_eq!(None, find(b"a", b"ab"));
    assert_eq!(Some(0), find(b"abc", b""));
    assert_eq!(Some(0), find(b"", b""));
    assert_eq!(Some(3), find(b"abcabd", b"abd"));
}

#[test]
fn take_until_leaves_or_reads_the_pattern() {
    assert_eq!(Ok((&b"],x"[..], &b"a-z"[..])), take_until(b"a-z],x", "]"));
    assert_eq!(Ok((&b",x"[..], &b"a-z"[..])), take_until_and_consume(b"a-z],x", "]"));
    assert_eq!(Ok((&b"]"[..], NOTHING)), take_until(b"]", "]"));
    assert_eq!(Ok((NOTHING, NOTHING)), take_until_and_consume(b"]", "]"));
    assert_eq!(Err(Failure::Error), take_until(b"a-z", "]"));
    assert_eq!(Err(Failure::Error), take_until_and_consume(b"a-z", "]"));
    assert_eq!(Err(Failure::Incomplete), take_until(b"", "]"));
    assert_eq!(Err(Failure::Incomplete), take_until_and_consume(b"x", "*/"));
    assert_eq!(Err(Failure::Error), take_until_and_consume(b"x*", "*/"));
}

#[test]
fn equal_texts() {
    assert!(bytes_eq(b"abc", b"abc"));
    assert!(bytes_eq(b"", b""));
    assert!(!bytes_eq(b"abc", b"abd"));
    assert!(!bytes_eq(b"abc", b"ab"));
    assert!(str_eq("cli,rest", "cli,rest"));
    assert!(!str_eq("cli,rest", "cli,rest "));
    assert!(str_eq("\u{e9}", "\u{e9}"));
    assert!(!str_eq("\u{e9}", "e"));
}

#[test]
fn one_separator_is_read() {
    assert_eq!(Ok((&b"req"[..], ())), trailing_chars(b",req"));
    assert_eq!(Ok((&b"req"[..], ())), trailing_chars(b" req"));
    assert_eq!(Ok((&b",req"[..], ())), trailing_chars(b",,req"));
    assert_eq!(Ok((&b"req"[..], ())), trailing_chars(b"req"));
    assert_eq!(Ok((&b"|5"[..], ())), trailing_chars(b"|5"));
    assert_eq!(Ok((NOTHING, ())), trailing_chars(b""));
}

#[test]
fn required_unless_said_otherwise() {
    assert_eq!(Ok((NOTHING, true)), req(b""));
    assert_eq!(Ok((NOTHING, false)), req(b"req=false"));
    assert_eq!(Ok((NOTHING, true)), req(b"req=true"));
    assert_eq!(Ok((&b",x"[..], false)), req(b"req=false,x"));
    assert_eq!(Err(Failure::Error), req(b"req=maybe"));
    assert_eq!(Err(Failure::Error), req(b"req=False"));
    assert_eq!(Err(Failure::Error), req(b"req="));
    assert_eq!(Err(Failure::Error), req(b"range=5"));
    assert_eq!(Err(Failure::Incomplete), req(b"re"));
}

#[test]
fn numbers_of_32_bits() {
    assert_eq!(Some(0), parse_u32(b"0"));
    assert_eq!(Some(7), parse_u32(b"007"));
    assert_eq!(Some(65536), parse_u32(b"65536"));
    assert_eq!(Some(4294967295), parse_u32(b"4294967295"));
    assert_eq!(Some(4294967295), parse_u32(b"0000000000004294967295"));
    assert_eq!(None, parse_u32(b"4294967296"));
    assert_eq!(None, parse_u32(b"99999999999999999999999999"));
    assert_eq!(None, parse_u32(b""));
}

#[test]
fn integer_ranges() {
    assert_eq!(Ok((NOTHING, Some(0))), u32_min_range(b"range=0"));
    assert_eq!(Ok((&b"req=false"[..], Some(12))), u32_min_range(b"range=12,req=false"));
    assert_eq!(Ok((&b"|5"[..], Some(1))), u32_min_range(b"range=1|5"));
    assert_eq!(Ok((&b"req=false"[..], None)), u32_min_range(b"req=false"));
    assert_eq!(Ok((&b"ran"[..], None)), u32_min_range(b"ran"));
    assert_eq!(Ok((NOTHING, None)), u32_min_range(b""));
    assert_eq!(Err(Failure::Error), u32_min_range(b"range="));
    assert_eq!(Err(Failure::Error), u32_min_range(b"range=x"));
    assert_eq!(Err(Failure::Error), u32_min_range(b"range=4294967296"));

    assert_eq!(Ok((NOTHING, Some(5))), u32_max_range(b"|5"));
    assert_eq!(Ok((&b"req=false"[..], Some(5))), u32_max_range(b"|5,req=false"));
    assert_eq!(Ok((&b"req=false"[..], None)), u32_max_range(b"req=false"));
    assert_eq!(Ok((NOTHING, None)), u32_max_range(b""));
    assert_eq!(Ok((&b"abc"[..], None)), u32_max_range(b"|abc"));
    assert_eq!(Ok((&b"req"[..], None)), u32_max_range(b"|,req"));
    assert_eq!(Ok((&b"4294967296"[..], None)), u32_max_range(b"|4294967296"));
}

#[test]
fn decimal_numbers() {
    assert_eq!(Ok("0.0".to_string()), parse_decimal(b"0.0"));
    assert_eq!(Ok("1.".to_string()), parse_decimal(b"1."));
    assert_eq!(Ok(".5".to_string()), parse_decimal(b".5"));
    assert_eq!(Ok("42".to_string()), parse_decimal(b"42"));
    assert_eq!(Err(Failure::Error), parse_decimal(b""));
    assert_eq!(Err(Failure::Error), parse_decimal(b"."));
    assert_eq!(Err(Failure::Error), parse_decimal(b"1.2.3"));
    assert_eq!(Err(Failure::Error), parse_decimal(b".."));
    assert_eq!(Ok("-1.5".to_string()), parse_decimal(b"-1.5"));
    assert_eq!(Ok("-.5".to_string()), parse_decimal(b"-.5"));
    assert_eq!(Err(Failure::Error), parse_decimal(b"-"));
    assert_eq!(Err(Failure::Error), parse_decimal(b"1-5"));
    assert_eq!(Err(Failure::Error), parse_decimal(b"+1.5"));
    assert_eq!(Ok((&b"x"[..], &b"-1.5"[..])), take_number(b"-1.5x"));
    assert_eq!(Ok((&b"-1"[..], &b"-"[..])), take_number(b"--1"));
    assert_eq!(Ok((&b"x"[..], &b""[..])), take_number(b"x"));
    assert_eq!(Ok((&b""[..], &b""[..])), take_number(b""));
}

#[test]
fn decimal_numbers_are_those_a_float_is_read_from() {
    let texts = [
        "0.0", "1.", ".5", "42", "", ".", "1.2.3", "..", "0.1.", "007.250", "-1.5", "-", "--1",
        "-.5", "-5.", "1-", "-.", "1.-5", "-0", "- 1",
    ];
    for t in texts {
        assert_eq!(t.parse::<f32>().is_ok(), parse_decimal(t.as_bytes()).is_ok());
    }
}

#[test]
fn decimal_ranges() {
    assert_eq!(Ok((&b"|1.0"[..], Some("0.0".to_string()))), f32_min_range(b"range=0.0|1.0"));
    assert_eq!(Ok((&b"req=false"[..], Some("0.5".to_string()))), f32_min_range(b"range=0.5,req=false"));
    assert_eq!(Ok((&b"req=false"[..], None)), f32_min_range(b"req=false"));
    assert_eq!(Err(Failure::Error), f32_min_range(b"range=."));
    assert_eq!(Err(Failure::Error), f32_min_range(b"range=1.2.3"));
    assert_eq!(Ok((NOTHING, Some("-1.0".to_string()))), f32_min_range(b"range=-1.0"));
    assert_eq!(Ok((NOTHING, Some("-1.5".to_string()))), f32_min_range(b"range=-1.5"));
    assert_eq!(Ok((&b"|-0.5"[..], Some("-1.5".to_string()))), f32_min_range(b"range=-1.5|-0.5"));
    assert_eq!(Ok((&b"req=false"[..], Some("-.5".to_string()))), f32_min_range(b"range=-.5,req=false"));
    assert_eq!(Err(Failure::Error), f32_min_range(b"range=-"));
    assert_eq!(Err(Failure::Error), f32_min_range(b"range=--1"));
    assert_eq!(Err(Failure::Error), f32_min_range(b"range=-.,"));
    assert_eq!(Ok((&b"-2"[..], Some("1".to_string()))), f32_min_range(b"range=1-2"));
    assert_eq!(Ok((NOTHING, Some("-0.5".to_string()))), f32_max_range(b"|-0.5"));
    assert_eq!(Ok((&b"req=true"[..], Some("-7.".to_string()))), f32_max_range(b"|-7.,req=true"));
    assert_eq!(Ok((&b"-"[..], None)), f32_max_range(b"|-"));
    assert_eq!(Ok((&b"--1"[..], None)), f32_max_range(b"|--1"));

    assert_eq!(Ok((NOTHING, Some("1.0".to_string()))), f32_max_range(b"|1.0"));
    assert_eq!(Ok((&b"x"[..], Some("10".to_string()))), f32_max_range(b"|10 x"));
    assert_eq!(Ok((&b"1.2.3"[..], None)), f32_max_range(b"|1.2.3"));
    assert_eq!(Ok((&b"req=false"[..], None)), f32_max_range(b"req=false"));
}

#[test]
fn cardinality_attribute() {
    assert_eq!(Ok((NOTHING, AllowedRepeats::Many)), allowed_repeats(b"n=N"));
    assert_eq!(Ok((&b"req=false"[..], AllowedRepeats::Many)), allowed_repeats(b"n=N,req=false"));
    assert_eq!(Ok((NOTHING, AllowedRepeats::One)), allowed_repeats(b"n=1"));
    assert_eq!(Ok((&b" x"[..], AllowedRepeats::Many)), allowed_repeats(b"n=N x"));
    assert_eq!(Ok((NOTHING, AllowedRepeats::One)), allowed_repeats(b"n=N x,"));
    assert_eq!(Err(Failure::Incomplete), allowed_repeats(b"n="));
    assert_eq!(Err(Failure::Incomplete), allowed_repeats(b"n"));
    assert_eq!(Err(Failure::Error), allowed_repeats(b"req=false"));

    assert_eq!(Ok((NOTHING, AllowedRepeats::One)), allowed(b""));
    assert_eq!(Ok((NOTHING, AllowedRepeats::Many)), allowed(b"n=N"));
    assert_eq!(Err(Failure::Error), allowed(b"req=false"));

    assert_eq!(Ok((NOTHING, AllowedRepeats::One)), one_or_more(b""));
    assert_eq!(Ok((&b"req=false"[..], AllowedRepeats::One)), one_or_more(b"req=false"));
    assert_eq!(Ok((&b"n"[..], AllowedRepeats::One)), one_or_more(b"n"));
    assert_eq!(Ok((NOTHING, AllowedRepeats::Many)), one_or_more(b"n=N,"));
    assert_eq!(Err(Failure::Incomplete), one_or_more(b"n="));
}

#[test]
fn a_name_ends_at_a_comma() {
    assert_eq!(Ok((&b"type=CephInt"[..], "epoch")), parse_name(b"name=epoch,type=CephInt"));
    assert_eq!(Ok((NOTHING, "")), parse_name(b"name=,"));
    assert_eq!(Err(Failure::Error), parse_name(b"name=epoch"));
    assert_eq!(Err(Failure::Incomplete), parse_name(b"name="));
    assert_eq!(Err(Failure::Incomplete), parse_name(b"nam"));
    assert_eq!(Err(Failure::Error), parse_name(b"type=CephInt,"));
    assert_eq!(Err(Failure::Error), parse_name(b"name=\xff,"));
}

#[test]
fn a_last_name_ends_at_a_comma_or_at_the_end() {
    assert_eq!(Ok((&b"range=1"[..], "epoch")), parse_last_name(b"name=epoch,range=1"));
    assert_eq!(Ok((NOTHING, "epoch")), parse_last_name(b"name=epoch"));
    assert_eq!(Ok((NOTHING, "epoch")), parse_last_name(b"name=epoch,"));
    assert_eq!(Err(Failure::Incomplete), parse_last_name(b"name="));
    assert_eq!(Err(Failure::Error), parse_last_name(b"type=CephInt"));
    assert_eq!(Err(Failure::Error), parse_last_name(b"name=\xff"));
}

#[test]
fn white_space_is_what_separates_words() {
    for c in [' ', '\t', '\n', '\r', '\u{b}', '\u{c}', '\u{85}', '\u{a0}', '\u{1680}', '\u{2000}', '\u{200a}', '\u{2028}', '\u{2029}', '\u{202f}', '\u{205f}', '\u{3000}'] {
        assert!(is_whitespace(c));
    }
    for c in ['a', '_', '\u{0}', '\u{8}', '\u{e}', '\u{200b}', '\u{180e}', '\u{feff}'] {
        assert!(!is_whitespace(c));
    }
    let mut c = '\u{0}';
    loop {
        assert_eq!(c.is_whitespace(), is_whitespace(c));
        if c == char::MAX {
            break;
        }
        c = char::from_u32(c as u32 + 1).unwrap_or('\u{e000}');
    }
}

#[test]
fn words_are_runs_without_white_space() {
    let w = |s: &str| words(&s.chars().collect());
    assert_eq!(vec!["pg", "ls-by-osd"], w("pg ls-by-osd"));
    assert_eq!(vec!["a", "b", "c"], w("  a \t b\n\nc  "));
    assert_eq!(vec!["a\u{e9}"], w("\u{a0}a\u{e9}\u{3000}"));
    assert_eq!(Vec::<String>::new(), w(""));
    assert_eq!(Vec::<String>::new(), w(" \t\n"));
    for s in ["pg ls-by-osd", "  a \t b\n\nc  ", "", "x", " x", "x ", "a\u{2028}b"] {
        let expected: Vec<&str> = s.split_whitespace().collect();
        assert_eq!(expected, w(s));
    }
}

#[test]
fn removing_a_pattern() {
    let r = |s: &str, pat: &str| -> String { remove(&s.chars().collect(), pat).into_iter().collect() };
    assert_eq!("ab", r("a\\b\\", "\\"));
    assert_eq!("", r("\"\"", "\""));
    assert_eq!("a b", r("a    b", "   "));
    assert_eq!("ab", r("a    b", "    "));
    assert_eq!("a b", r("a     b", "    "));
    assert_eq!("ab", r("a        b", "    "));
    assert_eq!("a  b", r("a      b", "    "));
    assert_eq!("abc", r("abc", ""));
    assert_eq!("abc", r("abc", "abcd"));
    assert_eq!("", r("abc", "abc"));
    assert_eq!("c", r("ababc", "ab"));
    assert_eq!("a", r("aaa", "aa"));
    for (s, pat) in [("a    b", "    "), ("aaa", "aa"), ("xaxaax", "ax"), ("", "x"), ("abab", "ab")] {
        assert_eq!(s.replace(pat, ""), r(s, pat));
    }
}

#[test]
fn a_text_holds_a_text() {
    assert!(contains("name=osd,type=CephOsdName", "name="));
    assert!(contains("type=CephFloat,name=weight", "name="));
    assert!(contains("name=", "name="));
    assert!(!contains("name", "name="));
    assert!(!contains("nam=e", "name="));
    assert!(!contains("", "name="));
    assert!(contains("", ""));
    assert!(contains("abc", ""));
}

#[test]
fn splitting_and_joining() {
    assert_eq!(vec!["a", "b"], split("a|b", '|'));
    assert_eq!(vec!["a", "", "b"], split("a||b", '|'));
    assert_eq!(vec!["", "a", ""], split("|a|", '|'));
    assert_eq!(vec![""], split("", '|'));
    assert_eq!(vec!["a"], split("a", '|'));
    let j = |w: &[&str], sep| join(&w.iter().map(|s| s.to_string()).collect(), sep);
    assert_eq!("a b c", j(&["a", "b", "c"], ' '));
    assert_eq!("a", j(&["a"], ' '));
    assert_eq!("", j(&[], ' '));
    assert_eq!(",a,", j(&["", "a", ""], ','));
}
