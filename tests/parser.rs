use nak_sched::parser::{
    and_then, delimited, line_comment, many0, many1, mark_unrecoverable, one_of, opt, parse_int, preceded,
    preceded_unique, separated_list0, separated_list1, tag, take_while, take_while1, terminated, whitespace, ErrorKind,
    PResult, ParseError, AndParser, ParseAnd, ParseOr, OptionalPermutation,
};

#[test]
fn tag_matches_prefix() {
    let (rest, m) = tag("add", "add r1").unwrap();
    assert_eq!(m, "add");
    assert_eq!(rest, " r1");
    let e = tag("sub", "add r1").unwrap_err();
    assert_eq!(e.reason, ErrorKind::Expected("sub"));
    assert_eq!(e.input, "add r1");
    assert!(!e.is_unrecoverable);
    assert!(tag("addition", "add").is_err());
}

#[test]
fn take_while_splits_at_first_mismatch() {
    let (rest, digits) = take_while("123abc", |c: char| c.is_ascii_digit()).unwrap();
    assert_eq!(digits, "123");
    assert_eq!(rest, "abc");
    let (rest, none) = take_while("abc", |c: char| c.is_ascii_digit()).unwrap();
    assert_eq!(none, "");
    assert_eq!(rest, "abc");
    let (rest, all) = take_while("", |c: char| c.is_ascii_digit()).unwrap();
    assert_eq!((rest, all), ("", ""));
}

#[test]
fn take_while_counts_characters() {
    let (rest, word) = take_while("ééx", |c: char| c == 'é').unwrap();
    assert_eq!(word, "éé");
    assert_eq!(rest, "x");
}

#[test]
fn take_while1_needs_one() {
    let (rest, d) = take_while1("7x", |c: char| c.is_ascii_digit()).unwrap();
    assert_eq!((rest, d), ("x", "7"));
    let e = take_while1("x7", |c: char| c.is_ascii_digit()).unwrap_err();
    assert_eq!(e.reason, ErrorKind::Expected("take_while1 failed"));
    assert_eq!(e.input, "x7");
}

#[test]
fn one_of_takes_a_listed_char() {
    assert_eq!(one_of("+-", "-5").unwrap(), ("5", "-"));
    let e = one_of("+-", "5").unwrap_err();
    assert_eq!(e.reason, ErrorKind::OneOf("+-"));
    let e = one_of("+-", "").unwrap_err();
    assert_eq!(e.reason, ErrorKind::EndOfFile);
}

#[test]
fn whitespace_skips_spaces_and_tabs() {
    assert_eq!(whitespace(" \t x").unwrap(), ("x", " \t "));
    assert_eq!(whitespace("\nx").unwrap(), ("\nx", ""));
}

#[test]
fn line_comment_stops_at_newline() {
    assert_eq!(line_comment("//", "// hi there\nnext").unwrap(), ("\nnext", " hi there"));
    assert_eq!(line_comment("//", "//end").unwrap(), ("", "end"));
    let e = line_comment("//", "x // no").unwrap_err();
    assert_eq!(e.reason, ErrorKind::Expected("//"));
}

#[test]
fn parse_int_reads_sign_prefix_and_digits() {
    assert_eq!(parse_int("-0x1Fg").unwrap(), ("g", (false, ("0x", "1F"))));
    assert_eq!(parse_int("+0o17 ").unwrap(), (" ", (true, ("0o", "17"))));
    assert_eq!(parse_int("0b1012").unwrap(), ("2", (true, ("0b", "101"))));
    assert_eq!(parse_int("42,").unwrap(), (",", (true, ("", "42"))));
    assert_eq!(parse_int("x").unwrap(), ("x", (true, ("", ""))));
}

#[test]
fn parse_int_accepts_unicode_numerals() {
    // U+0663, ARABIC-INDIC DIGIT THREE, is numeric but not an ASCII digit.
    assert_eq!(parse_int("\u{663}2;").unwrap(), (";", (true, ("", "\u{663}2"))));
}

fn digit<'a>(input: &'a str) -> PResult<'a, &'a str> {
    take_while1(input, |c: char| c.is_ascii_digit())
}

fn comma<'a>(input: &'a str) -> PResult<'a, &'a str> {
    tag(",", input)
}

#[test]
fn many_collects_repeats() {
    let (rest, items) = many0(|i| tag("ab", i), "ababx").unwrap();
    assert_eq!(items, vec!["ab", "ab"]);
    assert_eq!(rest, "x");
    let (rest, items) = many0(|i| tag("ab", i), "x").unwrap();
    assert!(items.is_empty());
    assert_eq!(rest, "x");
    let e = many1(|i| tag("ab", i), "x").unwrap_err();
    assert_eq!(e.reason, ErrorKind::Expected("Not enough items in list"));
}

#[test]
fn many_stops_on_unrecoverable_error() {
    let fatal = |i: &'static str| -> PResult<'static, &'static str> {
        let mut e = ParseError::new(i, ErrorKind::CustomErr("fatal"));
        e.is_unrecoverable = true;
        Err(e)
    };
    let e = many0(fatal, "abc").unwrap_err();
    assert_eq!(e.reason, ErrorKind::CustomErr("fatal"));
    assert!(e.is_unrecoverable);
}

#[test]
fn separated_lists() {
    let (rest, items) = separated_list1(digit, comma, "1,22,3;").unwrap();
    assert_eq!(items, vec!["1", "22", "3"]);
    assert_eq!(rest, "3;");
    let (rest, items) = separated_list0(digit, comma, ";").unwrap();
    assert!(items.is_empty());
    assert_eq!(rest, ";");
    let e = separated_list1(digit, comma, ";").unwrap_err();
    assert_eq!(e.reason, ErrorKind::Expected("Not enough items in list"));
}

#[test]
fn delimited_and_terminated() {
    let open = |i| tag("(", i);
    let close = |i| tag(")", i);
    assert_eq!(delimited(open, digit, close, "(12)x").unwrap(), ("x", "12"));
    assert!(delimited(open, digit, close, "(12x").is_err());
    assert_eq!(terminated(digit, comma, "5,6").unwrap(), ("6", "5"));
}

#[test]
fn preceded_marks_failures_after_unique_prefix() {
    let p = preceded(|i| tag("r", i), digit);
    assert_eq!(p.parse("r12 ").unwrap(), (" ", "12"));
    let e = p.parse("rx").unwrap_err();
    assert!(!e.is_unrecoverable);
    let u = preceded_unique(|i| tag("r", i), digit);
    let e = u.parse("rx").unwrap_err();
    assert!(e.is_unrecoverable);
    let e = u.parse("x").unwrap_err();
    assert!(!e.is_unrecoverable);
}

#[test]
fn opt_and_map() {
    assert_eq!(opt(|i| tag("-", i), "-3").unwrap(), ("3", Some("-")));
    assert_eq!(opt(|i| tag("-", i), "3").unwrap(), ("3", None));
    assert_eq!(nak_sched::parser::map(digit, |d: &str| d.len(), "123x").unwrap(), ("x", 3));
    assert!(nak_sched::parser::map(digit, |d: &str| d.len(), "x").is_err());
}

#[test]
fn and_then_rejects_with_reason() {
    let small = |d: &str| if d.len() < 3 { Ok(d.len()) } else { Err(ErrorKind::CustomErr("too long")) };
    assert_eq!(and_then(digit, small, "12x").unwrap(), ("x", 2));
    let e = and_then(digit, small, "1234x").unwrap_err();
    assert_eq!(e.reason, ErrorKind::CustomErr("too long"));
    assert_eq!(e.input, "1234x");
    assert!(!e.is_unrecoverable);
}

#[test]
fn unrecoverable_failures_stop_alternatives() {
    let e = mark_unrecoverable(digit, "x").unwrap_err();
    assert!(e.is_unrecoverable);
    assert_eq!(mark_unrecoverable(digit, "7").unwrap(), ("", "7"));
    let e = opt(|i| mark_unrecoverable(digit, i), "x").unwrap_err();
    assert!(e.is_unrecoverable);
}

#[test]
fn pairs_and_alternatives() {
    let reg = AndParser(|i| tag("r", i), digit);
    assert_eq!(reg.parse("r12,").unwrap(), (",", ("r", "12")));
    assert!(reg.parse("x12").is_err());
    let pair = ParseAnd((digit, comma));
    assert_eq!(pair.parse("7,8").unwrap(), ("8", ("7", ",")));
    let either = ParseOr((|i| tag("0x", i), |i| tag("0b", i)));
    assert_eq!(either.parse("0b1").unwrap(), ("1", "0b"));
    assert_eq!(either.parse("0x1").unwrap(), ("1", "0x"));
    let e = either.parse("0o1").unwrap_err();
    assert_eq!(e.reason, ErrorKind::Expected("0b"));
    let fatal_first = ParseOr((|i| mark_unrecoverable(|j| tag("0x", j), i), |i| tag("0b", i)));
    assert!(fatal_first.parse("0b1").unwrap_err().is_unrecoverable);
}

#[test]
fn optional_permutation_takes_any_order() {
    let mods = OptionalPermutation((|i| tag(".ftz", i), |i| tag(".sat", i)));
    assert_eq!(mods.parse(".sat.ftz r0").unwrap(), (" r0", (Some(".ftz"), Some(".sat"))));
    assert_eq!(mods.parse(".ftz r0").unwrap(), (" r0", (Some(".ftz"), None)));
    assert_eq!(mods.parse(" r0").unwrap(), (" r0", (None, None)));
    assert_eq!(mods.parse(".ftz.ftz").unwrap(), (".ftz", (Some(".ftz"), None)));
}
