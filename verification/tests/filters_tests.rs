//! Filters: parsing & evaluation.

use mpdpopm::clients::Client;
use mpdpopm::filters::{ExprOpParser, ExpressionParser, ParseError, TermParser};
use mpdpopm::filters_ast::{
    evaluate, expect_quoted, make_numeric_test, parse_iso_8601, parse_iso_fields, quote_value,
    select_numeric, Error, Expression, FilterStickerNames, OpCode, Selector, Term, Value, Zone,
};
use mpdpopm::collections::{StringMap, StringSet};
use mpdpopm::mock::Mock;

fn script(convo: &[(&str, &str)]) -> Client<Mock> {
    Client::new(Mock::new(
        convo
            .iter()
            .map(|(request, reply)| (request.to_string(), reply.to_string()))
            .collect(),
    ))
    .unwrap()
}

fn members(set: &StringSet) -> Vec<String> {
    let mut v = set.to_vec();
    v.sort();
    v
}

const ALL: (&str, &str) = (
    "find \"(base '')\"",
    "file: a.mp3\nfile: b.mp3\nfile: c.mp3\nfile: d.mp3\nOK\n",
);

const RATINGS: (&str, &str) = (
    "sticker find song \"\" rating",
    "file: a.mp3\nsticker: rating=255\nfile: b.mp3\nsticker: rating=128\nfile: c.mp3\nsticker: rating=64\nOK\n",
);

fn eval(filter: &str, convo: &[(&str, &str)]) -> Result<Vec<String>, Error> {
    let stickers = FilterStickerNames::new("rating", "playcount", "lastplayed");
    let expr = ExpressionParser::new().parse(filter).unwrap();
    evaluate(&expr, true, &mut script(convo), &stickers).map(|set| members(&set))
}

#[test]
fn test_opcodes() {
    assert!(ExprOpParser::new().parse("==").unwrap() == OpCode::Equality);
    assert!(ExprOpParser::new().parse("!=").unwrap() == OpCode::Inequality);
    assert!(ExprOpParser::new().parse("contains").unwrap() == OpCode::Contains);
    assert!(ExprOpParser::new().parse("=~").unwrap() == OpCode::RegexMatch);
    assert!(ExprOpParser::new().parse("!~").unwrap() == OpCode::RegexExclude);
    assert!(ExprOpParser::new().parse(">").unwrap() == OpCode::GreaterThan);
    assert!(ExprOpParser::new().parse("<").unwrap() == OpCode::LessThan);
    assert!(ExprOpParser::new().parse(">=").unwrap() == OpCode::GreaterThanEqual);
    assert!(ExprOpParser::new().parse("<=").unwrap() == OpCode::LessThanEqual);
}

#[test]
fn test_conditions() {
    assert!(TermParser::new().parse("base 'foo'").is_ok());
    assert!(TermParser::new().parse("artist == 'foo'").is_ok());
    assert!(TermParser::new()
        .parse(r#"artist =~ "foo bar \"splat\"!""#)
        .is_ok());
    assert!(TermParser::new().parse("artist =~ 'Pogues'").is_ok());

    match *TermParser::new()
        .parse(r#"base "/Users/me/My Music""#)
        .unwrap()
    {
        Term::UnaryCondition(a, b) => {
            assert!(a == Selector::Base);
            assert!(b == Value::Text(String::from(r#"/Users/me/My Music"#)));
        }
        _ => {
            assert!(false);
        }
    }

    match *TermParser::new()
        .parse(r#"artist =~ "foo bar \"splat\"!""#)
        .unwrap()
    {
        Term::BinaryCondition(t, op, s) => {
            assert!(t == Selector::Artist);
            assert!(op == OpCode::RegexMatch);
            assert!(s == Value::Text(String::from(r#"foo bar "splat"!"#)));
        }
        _ => {
            assert!(false);
        }
    }
}

#[test]
fn test_expressions() {
    assert!(ExpressionParser::new().parse("( base 'foo' )").is_ok());
    assert!(ExpressionParser::new().parse("(base \"foo\")").is_ok());
    assert!(ExpressionParser::new()
        .parse("(!(artist == 'value'))")
        .is_ok());
    assert!(ExpressionParser::new()
        .parse(r#"((!(artist == "foo bar")) AND (base "/My Music"))"#)
        .is_ok());
}

#[test]
fn test_quoted_expr() {
    assert!(ExpressionParser::new()
        .parse(r#"(artist =~ "foo\\bar\"")"#)
        .is_ok());
}

#[test]
fn test_real_expression() {
    let result = ExpressionParser::new().parse(
        r#"(((Artist =~ 'Flogging Molly') OR (artist =~ 'Dropkick Murphys') OR (artist =~ 'Pogues')) AND ((rating > 128) OR (rating == 0)))"#,
    );
    assert!(result.is_ok());
}

#[test]
fn test_conjunction() {
    assert!(ExpressionParser::new()
        .parse(r#"((base "foo") AND (artist == "foo bar") AND (!(file == '/net/mp3/A/a.mp3')))"#)
        .is_ok());

    assert!(ExpressionParser::new()
        .parse(
            r#"((base 'foo') AND (artist == "foo bar") AND ((!(file == "/net/mp3/A/a.mp3")) OR (file == "/pub/mp3/A/a.mp3")))"#
        )
        .is_ok());
    assert!(ExpressionParser::new()
        .parse(
            r#"((base 'foo') AND (artist == "foo bar") AND ((!(file == '/net/mp3/A/a.mp3')) OR (file == '/pub/mp3/A/a.mp3')))"#
        )
        .is_ok());
}

#[test]
fn test_disjunction() {
    assert!(ExpressionParser::new()
        .parse(
            r#"((artist =~ 'Flogging Molly') OR (artist =~ 'Dropkick Murphys') OR (artist =~ 'Pogues'))"#
        )
        .is_ok());
}

#[test]
fn filters_ast_smoke_tests() {
    let mut b = "19700101T00:00:00Z".as_bytes();
    let t = parse_iso_8601(&mut b).unwrap();
    assert!(t == 0);

    let mut b = "19700101T00:00:01Z".as_bytes();
    let t = parse_iso_8601(&mut b).unwrap();
    assert!(t == 1);

    let mut b = "20210327T02:26:53Z".as_bytes();
    let t = parse_iso_8601(&mut b).unwrap();
    assert_eq!(t, 1616812013);

    let mut b = "20210327T07:29:05-07:00".as_bytes();
    let t = parse_iso_8601(&mut b).unwrap();
    assert_eq!(t, 1616855345);

    let mut b = "2021".as_bytes();
    // Should resolve to midnight, Jan 1 2021 in local time; don't want to test against the
    // timestamp; just make sure it parses
    parse_iso_8601(&mut b).unwrap();

    let b = r#""foo bar \"splat!\"""#;
    let s = expect_quoted(b).unwrap();
    assert!(s == r#"foo bar "splat!""#);
}

#[test]
fn smoke() {
    let mut cli = script(&[(
        r#"find "(base \"foo\")""#,
        "file: foo/a.mp3
Artist: The Foobars
file: foo/b.mp3
Title: b!
OK",
    )]);

    let stickers = FilterStickerNames::new("rating", "playcount", "lastplayed");

    let expr = ExpressionParser::new().parse(r#"(base "foo")"#).unwrap();
    let result = evaluate(&expr, true, &mut cli, &stickers);
    assert!(result.is_ok());

    assert_eq!(
        members(&result.unwrap()),
        vec![String::from("foo/a.mp3"), String::from("foo/b.mp3")]
    );
}

#[test]
fn timestamps() {
    // each of these is the same moment
    for text in [
        "20210327T072905-0700",
        "2021-03-27T07:29:05-07:00",
        "2021-03-27T07:29:05-07",
        "20210327T142905Z",
        "2021-03-27T14:29:05+00",
        "2021-03-28T00:29:05+10:00",
    ] {
        let mut b = text.as_bytes();
        assert_eq!(parse_iso_8601(&mut b).unwrap(), 1616855345, "{}", text);
    }
    // the second, or the last two, may be missing before a time zone, too
    for (text, t) in [
        ("19700101T00:01Z", 60),
        ("19700101T0001Z", 60),
        ("19700101T01Z", 3600),
        ("1970-01-01T01:00+01:00", 0),
        ("1970-01-01T00-01:30", 5400),
        ("19700101T0100+0130", -1800),
        ("1970-01-01T00:01:00Z", 60),
    ] {
        let mut b = text.as_bytes();
        assert_eq!(parse_iso_8601(&mut b).unwrap(), t, "{}", text);
    }
    // leap days exist in leap years only
    let mut b = "20200229T00:00:00Z".as_bytes();
    assert_eq!(parse_iso_8601(&mut b).unwrap(), 1582934400);
    let mut b = "20210229T00:00:00Z".as_bytes();
    assert!(matches!(
        parse_iso_8601(&mut b),
        Err(Error::BadISO8601String { .. })
    ));
    let mut b = "not a year".as_bytes();
    assert!(matches!(
        parse_iso_8601(&mut b),
        Err(Error::BadISO8601String { .. })
    ));
}

#[test]
fn timestamps_without_a_zone_are_local() {
    let mut b = "2021-03-27T07:29:05".as_bytes();
    let (moment, zone) = parse_iso_fields(&mut b).unwrap();
    assert_eq!(
        (moment.year, moment.month, moment.day),
        (2021, 3, 27)
    );
    assert_eq!(
        (moment.hour, moment.minute, moment.second),
        (7, 29, 5)
    );
    assert_eq!(zone, Zone::Local);
    let mut b = "2021-03-27T12:29:05".as_bytes();
    let t = parse_iso_8601(&mut b).unwrap();
    // no time zone is a day or more from UTC
    assert!((t - 1616848145).abs() < 86400);
}

#[test]
fn un_quoting() {
    assert_eq!(expect_quoted("'it\\'s'").unwrap(), "it's");
    assert_eq!(expect_quoted("\"\\a\\\\b\"").unwrap(), "a\\b");
    assert_eq!(expect_quoted("").unwrap(), "");
    assert!(matches!(
        expect_quoted("foo"),
        Err(Error::ExpectQuoted { .. })
    ));
    assert!(matches!(
        expect_quoted("\"foo"),
        Err(Error::ExpectQuoted { .. })
    ));
    assert!(matches!(
        expect_quoted("\"foo\\"),
        Err(Error::ExpectQuoted { .. })
    ));
}

#[test]
fn quoted_values_are_un_quoted() {
    for text in ["foo bar", "say \"hi\"", "a\\b", ""] {
        let quoted = quote_value(&Value::Text(text.to_string()));
        assert_eq!(expect_quoted(&quoted).unwrap(), text);
    }
    assert_eq!(quote_value(&Value::Uint(128)), "'128'");
    assert_eq!(quote_value(&Value::UnixEpoch(-1)), "'-1'");
}

#[test]
fn values() {
    match *TermParser::new().parse("rating >= 128").unwrap() {
        Term::BinaryCondition(attr, op, val) => {
            assert_eq!(attr, Selector::Rating);
            assert_eq!(op, OpCode::GreaterThanEqual);
            assert_eq!(val, Value::Uint(128));
        }
        _ => panic!(),
    }
    match *TermParser::new()
        .parse("lastplayed > '20210327T02:26:53Z'")
        .unwrap()
    {
        Term::BinaryCondition(_, _, val) => assert_eq!(val, Value::UnixEpoch(1616812013)),
        _ => panic!(),
    }
}

#[test]
fn lists_lean_to_the_left() {
    match *ExpressionParser::new()
        .parse("((rating > 1) OR (rating > 2) OR (rating > 3))")
        .unwrap()
    {
        Expression::Disjunction(d) => match *d {
            mpdpopm::filters_ast::Disjunction::Compound(l, r) => {
                assert!(matches!(
                    *l,
                    mpdpopm::filters_ast::Disjunction::Simple(_, _)
                ));
                assert!(matches!(*r, Expression::Simple(_)));
            }
            _ => panic!(),
        },
        _ => panic!(),
    }
}

#[test]
fn bad_filters() {
    for filter in [
        "",
        "rating > 128",
        "(rating > )",
        "(rating > 128",
        "((rating > 1) AND (rating > 2) OR (rating > 3))",
        "((rating > 1))",
        "(rating > 128) x",
    ] {
        assert!(ExpressionParser::new().parse(filter).is_err(), "{}", filter);
    }
    assert!(matches!(
        ExpressionParser::new().parse("(rating # 128)"),
        Err(ParseError::InvalidToken { location: 8 })
    ));
    match ExpressionParser::new().parse("(rating > )") {
        Err(ParseError::UnrecognizedToken { token, start, end }) => {
            assert_eq!((token.as_str(), start, end), (")", 10, 11));
        }
        _ => panic!(),
    }
}

fn fault(filter: &str) -> String {
    ExpressionParser::new().parse(filter).unwrap_err().message()
}

#[test]
fn bad_filters_are_reported_where_they_go_wrong() {
    // the first token that no filter goes on with...
    assert_eq!(
        fault("((rating > 1) AND (rating > 2) OR (rating > 3))"),
        "Unrecognized token `OR` found at 31:33"
    );
    assert_eq!(fault("((rating > 1))"), "Unrecognized token `)` found at 13:14");
    assert_eq!(
        fault("(rating > 128) 'a b'"),
        "Unrecognized token `'a b'` found at 15:20"
    );
    assert_eq!(fault("(! artist 'x')"), "Unrecognized token `artist` found at 3:9");
    assert_eq!(fault("(== 1)"), "Unrecognized token `==` found at 1:3");
    // ...even if there is no token further on
    assert_eq!(fault(") #"), "Unrecognized token `)` found at 0:1");
    assert_eq!(fault("(rating > 128) #"), "Invalid token at 15");
    // the end
    assert_eq!(fault(""), "Unrecognized EOF found at 0");
    assert_eq!(fault("  "), "Unrecognized EOF found at 0");
    assert_eq!(fault("(rating >  "), "Unrecognized EOF found at 9");
    assert_eq!(fault("((rating > 1) OR (rating > 2)"), "Unrecognized EOF found at 29");
    // places are counted in bytes
    assert_eq!(fault("(artist == '\u{e9}\u{20ac}') )"), "Unrecognized token `)` found at 20:21");
    assert_eq!(fault("(artist == '\u{e9}' #"), "Invalid token at 16");
    assert_eq!(
        TermParser::new().parse("artist == 'a' 'b'").unwrap_err().message(),
        "Unrecognized token `'b'` found at 14:17"
    );
    assert_eq!(
        TermParser::new().parse("artist ==").unwrap_err().message(),
        "Unrecognized EOF found at 9"
    );
    assert_eq!(
        ExprOpParser::new().parse("== ==").unwrap_err().message(),
        "Unrecognized token `==` found at 3:5"
    );
    assert_eq!(
        ExprOpParser::new().parse("artist").unwrap_err().message(),
        "Unrecognized token `artist` found at 0:6"
    );
}

#[test]
fn faults_read_as_those_of_a_generated_parser() {
    type Fault = lalrpop_util::ParseError<usize, &'static str, &'static str>;
    let faults: [(&str, Fault); 3] = [
        ("(rating # 128)", Fault::InvalidToken { location: 8 }),
        ("(rating >", Fault::UnrecognizedEof { location: 9, expected: vec![] }),
        (
            "(rating > )",
            Fault::UnrecognizedToken { token: (10, ")", 11), expected: vec![] },
        ),
    ];
    for (filter, expected) in faults {
        assert_eq!(fault(filter), expected.to_string());
    }
}

#[test]
fn ratings_decide() {
    assert_eq!(
        eval("(rating > 64)", &[RATINGS, ALL]).unwrap(),
        vec!["a.mp3", "b.mp3"]
    );
    // a song without a sticker counts as zero
    assert_eq!(
        eval("(rating < 128)", &[RATINGS, ALL]).unwrap(),
        vec!["c.mp3", "d.mp3"]
    );
    assert_eq!(eval("(rating == 0)", &[RATINGS, ALL]).unwrap(), vec!["d.mp3"]);
    assert_eq!(
        eval("(rating != 255)", &[RATINGS, ALL]).unwrap(),
        vec!["b.mp3", "c.mp3", "d.mp3"]
    );
}

#[test]
fn play_counts_and_times_decide() {
    let counts = (
        "sticker find song \"\" playcount",
        "file: a.mp3\nsticker: playcount=3\nOK\n",
    );
    assert_eq!(eval("(playcount >= 3)", &[counts, ALL]).unwrap(), vec!["a.mp3"]);
    let times = (
        "sticker find song \"\" lastplayed",
        "file: a.mp3\nsticker: lastplayed=1616812013\nfile: b.mp3\nsticker: lastplayed=1616855345\nOK\n",
    );
    assert_eq!(
        eval("(lastplayed > '20210327T02:26:53Z')", &[times, ALL]).unwrap(),
        vec!["b.mp3"]
    );
    assert_eq!(
        eval("(lastplayed <= 1616812013)", &[times, ALL]).unwrap(),
        vec!["a.mp3", "c.mp3", "d.mp3"]
    );
}

#[test]
fn boolean_algebra() {
    let all = "file: a.mp3\nfile: b.mp3\nfile: c.mp3\nfile: d.mp3\nOK\n";
    let foo = ("find \"(base \\\"foo\\\")\"", "file: a.mp3\nfile: d.mp3\nOK\n");
    let bar = ("find \"(base \\\"bar\\\")\"", "file: d.mp3\nfile: b.mp3\nOK\n");
    let every = ("find \"(base '')\"", all);
    assert_eq!(
        eval("((base \"foo\") AND (base \"bar\"))", &[foo, bar]).unwrap(),
        vec!["d.mp3"]
    );
    assert_eq!(
        eval("((base \"foo\") OR (base \"bar\"))", &[foo, bar]).unwrap(),
        vec!["a.mp3", "b.mp3", "d.mp3"]
    );
    assert_eq!(
        eval("(!(base \"foo\"))", &[foo, every]).unwrap(),
        vec!["b.mp3", "c.mp3"]
    );
    assert_eq!(
        eval(
            "((base \"foo\") AND (!((base \"bar\") OR (rating > 64))))",
            &[foo, bar, RATINGS, every, every]
        )
        .unwrap(),
        Vec::<String>::new()
    );
    assert_eq!(
        eval(
            "((!(base \"foo\")) AND (base \"bar\") AND (rating == 128))",
            &[foo, every, bar, RATINGS, ALL]
        )
        .unwrap(),
        vec!["b.mp3"]
    );
}

#[test]
fn search_is_not_case_sensitive() {
    let stickers = FilterStickerNames::new("rating", "playcount", "lastplayed");
    let expr = ExpressionParser::new().parse("(artist == 'x')").unwrap();
    let mut cli = script(&[("search \"(artist == \\\"x\\\")\"", "file: a.mp3\nOK\n")]);
    let got = evaluate(&expr, false, &mut cli, &stickers).unwrap();
    assert_eq!(members(&got), vec!["a.mp3"]);
}

#[test]
fn evaluation_errors() {
    assert!(matches!(
        eval("(rating > 256)", &[]),
        Err(Error::RatingOverflow { rating: 256 })
    ));
    assert!(matches!(
        eval("(rating > 'five')", &[]),
        Err(Error::FilterTypeErr { .. })
    ));
    assert!(matches!(
        eval("(lastplayed > 'yesterday')", &[]),
        Err(Error::FilterTypeErr { .. })
    ));
    assert!(matches!(
        eval("(rating contains 5)", &[]),
        Err(Error::InvalidOperand {
            op: OpCode::Contains
        })
    ));
    assert!(matches!(
        eval(
            "(rating > 5)",
            &[(
                "sticker find song \"\" rating",
                "file: a.mp3\nsticker: rating=splat\nOK\n"
            )]
        ),
        Err(Error::NumericParse { .. })
    ));
    assert!(matches!(eval("(base 'x')", &[]), Err(Error::Client { .. })));
    match eval("(rating > 'fi\"ve')", &[]) {
        Err(err) => assert_eq!(
            err.message(),
            "Un-expected type in filter ``filter ratings expect an unsigned int; got Text(\n    \"fi\\\"ve\",\n)''"
        ),
        Ok(_) => panic!(),
    }
}

#[test]
fn numeric_tests() {
    let seven = make_numeric_test(OpCode::GreaterThan, 11).unwrap();
    assert!(seven.holds(12));
    assert!(!seven.holds(11));
    assert!(make_numeric_test(OpCode::LessThanEqual, 11).unwrap().holds(11));
    assert!(make_numeric_test(OpCode::RegexMatch, 11).is_err());
    let mut m: StringMap<i128> = StringMap::new();
    m.insert(String::from("a"), 12);
    m.insert(String::from("b"), 1);
    let songs = vec![String::from("a"), String::from("b"), String::from("c")];
    assert_eq!(members(&select_numeric(m, &songs, &seven)), vec!["a"]);
}
