//! Filters: their abstract syntax & what they select.

use vstd::prelude::*;

use crate::calendar;
use crate::calendar::Moment;
use crate::clients;
use crate::clients::{Client, RequestResponse, Session};
use crate::collections;
use crate::collections::{StringMap, StringSet};
use crate::number;
use crate::number::ParseError;
use crate::text;

verus! {

// ---------------------------------------------------------------------------------------------
// Syntax
// ---------------------------------------------------------------------------------------------

/// The operations that can appear in a filter term
#[derive(Clone, Copy, Debug, PartialEq, Eq, Structural)]
pub enum OpCode {
    Equality,
    Inequality,
    Contains,
    RegexMatch,
    RegexExclude,
    GreaterThan,
    LessThan,
    GreaterThanEqual,
    LessThanEqual,
}

/// How an operation is written.
pub open spec fn op_text(op: OpCode) -> Seq<char> {
    match op {
        OpCode::Equality => "=="@,
        OpCode::Inequality => "!="@,
        OpCode::Contains => "contains"@,
        OpCode::RegexMatch => "=~"@,
        OpCode::RegexExclude => "!~"@,
        OpCode::GreaterThan => ">"@,
        OpCode::LessThan => "<"@,
        OpCode::GreaterThanEqual => ">="@,
        OpCode::LessThanEqual => "<="@,
    }
}

impl OpCode {
    /// How the operation is written.
    pub fn text(&self) -> (r: &'static str)
        ensures
            r@ == op_text(*self),
    {
        match self {
            OpCode::Equality => "==",
            OpCode::Inequality => "!=",
            OpCode::Contains => "contains",
            OpCode::RegexMatch => "=~",
            OpCode::RegexExclude => "!~",
            OpCode::GreaterThan => ">",
            OpCode::LessThan => "<",
            OpCode::GreaterThanEqual => ">=",
            OpCode::LessThanEqual => "<=",
        }
    }
}

/// The song attributes that can appear on the LHS of a filter term
#[derive(Clone, Copy, Debug, PartialEq, Eq, Structural)]
pub enum Selector {
    Artist,
    Album,
    AlbumArtist,
    Title,
    Track,
    Name,
    Genre,
    Date,
    OriginalDate,
    Composer,
    Performer,
    Conductor,
    Work,
    Grouping,
    Comment,
    Disc,
    Label,
    MusicbrainzAristID,
    MusicbrainzAlbumID,
    MusicbrainzAlbumArtistID,
    MusicbrainzTrackID,
    MusicbrainzReleaseTrackID,
    MusicbrainzWorkID,
    File,
    Base,
    ModifiedSince,
    AudioFormat,
    Rating,
    PlayCount,
    LastPlayed,
}

/// How an attribute is written.
pub open spec fn selector_text(s: Selector) -> Seq<char> {
    match s {
        Selector::Artist => "artist"@,
        Selector::Album => "album"@,
        Selector::AlbumArtist => "albumartist"@,
        Selector::Title => "title"@,
        Selector::Track => "track"@,
        Selector::Name => "name"@,
        Selector::Genre => "genre"@,
        Selector::Date => "date"@,
        Selector::OriginalDate => "originaldate"@,
        Selector::Composer => "composer"@,
        Selector::Performer => "performer"@,
        Selector::Conductor => "conductor"@,
        Selector::Work => "work"@,
        Selector::Grouping => "grouping"@,
        Selector::Comment => "comment"@,
        Selector::Disc => "disc"@,
        Selector::Label => "label"@,
        Selector::MusicbrainzAristID => "musicbrainz_aristid"@,
        Selector::MusicbrainzAlbumID => "musicbrainz_albumid"@,
        Selector::MusicbrainzAlbumArtistID => "musicbrainz_albumartistid"@,
        Selector::MusicbrainzTrackID => "musicbrainz_trackid"@,
        Selector::MusicbrainzReleaseTrackID => "musicbrainz_releasetrackid"@,
        Selector::MusicbrainzWorkID => "musicbrainz_workid"@,
        Selector::File => "file"@,
        Selector::Base => "base"@,
        Selector::ModifiedSince => "modified-since"@,
        Selector::AudioFormat => "AudioFormat"@,
        Selector::Rating => "rating"@,
        Selector::PlayCount => "playcount"@,
        Selector::LastPlayed => "lastplayed"@,
    }
}

impl Selector {
    /// How the attribute is written.
    pub fn text(&self) -> (r: &'static str)
        ensures
            r@ == selector_text(*self),
    {
        match self {
            Selector::Artist => "artist",
            Selector::Album => "album",
            Selector::AlbumArtist => "albumartist",
            Selector::Title => "title",
            Selector::Track => "track",
            Selector::Name => "name",
            Selector::Genre => "genre",
            Selector::Date => "date",
            Selector::OriginalDate => "originaldate",
            Selector::Composer => "composer",
            Selector::Performer => "performer",
            Selector::Conductor => "conductor",
            Selector::Work => "work",
            Selector::Grouping => "grouping",
            Selector::Comment => "comment",
            Selector::Disc => "disc",
            Selector::Label => "label",
            Selector::MusicbrainzAristID => "musicbrainz_aristid",
            Selector::MusicbrainzAlbumID => "musicbrainz_albumid",
            Selector::MusicbrainzAlbumArtistID => "musicbrainz_albumartistid",
            Selector::MusicbrainzTrackID => "musicbrainz_trackid",
            Selector::MusicbrainzReleaseTrackID => "musicbrainz_releasetrackid",
            Selector::MusicbrainzWorkID => "musicbrainz_workid",
            Selector::File => "file",
            Selector::Base => "base",
            Selector::ModifiedSince => "modified-since",
            Selector::AudioFormat => "AudioFormat",
            Selector::Rating => "rating",
            Selector::PlayCount => "playcount",
            Selector::LastPlayed => "lastplayed",
        }
    }
}

/// The values that can appear on the RHS of a filter term
#[derive(Debug, PartialEq)]
pub enum Value {
    Text(String),
    UnixEpoch(i64),
    Uint(usize),
}

/// A [`Value`], as a mathematical value.
pub enum ValueView {
    Text(Seq<char>),
    UnixEpoch(i64),
    Uint(usize),
}

impl DeepView for Value {
    type V = ValueView;

    open spec fn deep_view(&self) -> ValueView {
        match self {
            Value::Text(s) => ValueView::Text(s@),
            Value::UnixEpoch(t) => ValueView::UnixEpoch(*t),
            Value::Uint(n) => ValueView::Uint(*n),
        }
    }
}

/// How a value is written in a filter that is sent to the server.
pub open spec fn quoted_value(x: ValueView) -> Seq<char> {
    match x {
        ValueView::Text(s) => clients::in_quotes(s),
        ValueView::UnixEpoch(t) => "'"@ + number::signed_decimal(t as int) + "'"@,
        ValueView::Uint(n) => "'"@ + number::decimal(n as nat) + "'"@,
    }
}

/// Write a value for a filter that is sent to the server.
pub fn quote_value(x: &Value) -> (r: String)
    ensures
        r@ == quoted_value(x.deep_view()),
{
    match x {
        Value::Text(s) => clients::enclose(s.as_str()),
        Value::UnixEpoch(t) => text::join3("'", number::write_i64(*t).as_str(), "'"),
        Value::Uint(n) => text::join3("'", number::write_usize(*n).as_str(), "'"),
    }
}

/// A single condition
#[derive(Debug)]
pub enum Term {
    UnaryCondition(Selector, Value),
    BinaryCondition(Selector, OpCode, Value),
}

/// A [`Term`], as a mathematical value.
pub enum TermView {
    UnaryCondition(Selector, ValueView),
    BinaryCondition(Selector, OpCode, ValueView),
}

impl DeepView for Term {
    type V = TermView;

    open spec fn deep_view(&self) -> TermView {
        match self {
            Term::UnaryCondition(attr, val) => TermView::UnaryCondition(*attr, val.deep_view()),
            Term::BinaryCondition(attr, op, val) => TermView::BinaryCondition(
                *attr,
                *op,
                val.deep_view(),
            ),
        }
    }
}

/// Two or more expressions, all of which must hold
#[derive(Debug)]
pub enum Conjunction {
    Simple(Box<Expression>, Box<Expression>),
    Compound(Box<Conjunction>, Box<Expression>),
}

/// Two or more expressions, one of which must hold
#[derive(Debug)]
pub enum Disjunction {
    Simple(Box<Expression>, Box<Expression>),
    Compound(Box<Disjunction>, Box<Expression>),
}

/// A filter
#[derive(Debug)]
pub enum Expression {
    Simple(Box<Term>),
    Negation(Box<Expression>),
    Conjunction(Box<Conjunction>),
    Disjunction(Box<Disjunction>),
}

// ---------------------------------------------------------------------------------------------
// Errors
// ---------------------------------------------------------------------------------------------

/// The operators of the evaluation stack
#[derive(Clone, Copy, Debug, PartialEq, Eq, Structural)]
pub enum EvalOp {
    And,
    Or,
    Not,
}

/// The name of an operator.
pub open spec fn eval_op_name(op: EvalOp) -> Seq<char> {
    match op {
        EvalOp::And => "And"@,
        EvalOp::Or => "Or"@,
        EvalOp::Not => "Not"@,
    }
}

impl EvalOp {
    /// The name of the operator.
    pub fn name(&self) -> (r: String)
        ensures
            r@ == eval_op_name(*self),
    {
        match self {
            EvalOp::And => text::owned("And"),
            EvalOp::Or => text::owned("Or"),
            EvalOp::Not => text::owned("Not"),
        }
    }
}

/// What can go wrong with a filter
#[derive(Debug)]
#[allow(inconsistent_fields)]
pub enum Error {
    /// A timestamp is not in ISO 8601 format; the payload is what was left of it
    BadISO8601String { text: Vec<u8> },
    /// A text was to be in quotes
    ExpectQuoted { text: String },
    /// A condition on one of our attributes has a value of the wrong type
    FilterTypeErr { text: String },
    /// A condition on one of our attributes has an operation that does not apply to numbers
    InvalidOperand { op: OpCode },
    /// Evaluation ended in an operator
    OperatorOnStack { op: EvalOp },
    /// A rating is out of range
    RatingOverflow { rating: usize },
    /// Evaluation ended in more, or less, than one operand
    TooManyOperands { num_ops: usize },
    /// A sticker does not hold a number
    NumericParse { sticker: String, source: ParseError },
    /// The server could not be asked
    Client { source: clients::Error },
}

/// An [`Error`], as a mathematical value.
#[allow(inconsistent_fields)]
pub enum ErrorView {
    BadISO8601String { text: Seq<u8> },
    ExpectQuoted { text: Seq<char> },
    FilterTypeErr { text: Seq<char> },
    InvalidOperand { op: OpCode },
    OperatorOnStack { op: EvalOp },
    RatingOverflow { rating: usize },
    TooManyOperands { num_ops: usize },
    NumericParse { sticker: Seq<char>, source: ParseError },
    Client { source: clients::ErrorView },
}

impl DeepView for Error {
    type V = ErrorView;

    open spec fn deep_view(&self) -> ErrorView {
        match self {
            Error::BadISO8601String { text } => ErrorView::BadISO8601String { text: text@ },
            Error::ExpectQuoted { text } => ErrorView::ExpectQuoted { text: text@ },
            Error::FilterTypeErr { text } => ErrorView::FilterTypeErr { text: text@ },
            Error::InvalidOperand { op } => ErrorView::InvalidOperand { op: *op },
            Error::OperatorOnStack { op } => ErrorView::OperatorOnStack { op: *op },
            Error::RatingOverflow { rating } => ErrorView::RatingOverflow { rating: *rating },
            Error::TooManyOperands { num_ops } => ErrorView::TooManyOperands { num_ops: *num_ops },
            Error::NumericParse { sticker, source } => ErrorView::NumericParse {
                sticker: sticker@,
                source: *source,
            },
            Error::Client { source } => ErrorView::Client { source: source.deep_view() },
        }
    }
}

/// The words in which an error is reported.
pub open spec fn error_message(e: ErrorView) -> Seq<char> {
    match e {
        ErrorView::BadISO8601String { text } => "Bad ISO8601 timestamp: ``"@ + number::byte_list(
            text,
        ) + "''"@,
        ErrorView::ExpectQuoted { text } => "Expected quote: ``"@ + text + "''"@,
        ErrorView::FilterTypeErr { text } => "Un-expected type in filter ``"@ + text + "''"@,
        ErrorView::InvalidOperand { op } => "Invalid operand "@ + op_text(op),
        ErrorView::OperatorOnStack { op } => "Operator "@ + eval_op_name(op)
            + " left on parse stack"@,
        ErrorView::RatingOverflow { rating } => "Rating "@ + number::decimal(rating as nat)
            + " overflows"@,
        ErrorView::TooManyOperands { num_ops } => "Too many operands ("@ + number::decimal(
            num_ops as nat,
        ) + ")"@,
        ErrorView::NumericParse { sticker, source } => "While parsing sticker "@ + sticker
            + ", got "@ + number::message_of(source),
        ErrorView::Client { source } => "Client error: "@ + clients::error_message(source),
    }
}

impl Error {
    /// The words in which the error is reported.
    pub fn message(&self) -> (r: String)
        ensures
            r@ == error_message(self.deep_view()),
    {
        match self {
            Error::BadISO8601String { text } => text::join3(
                "Bad ISO8601 timestamp: ``",
                number::write_byte_list(text.as_slice()).as_str(),
                "''",
            ),
            Error::ExpectQuoted { text } => text::join3("Expected quote: ``", text.as_str(), "''"),
            Error::FilterTypeErr { text } => text::join3(
                "Un-expected type in filter ``",
                text.as_str(),
                "''",
            ),
            Error::InvalidOperand { op } => text::join2("Invalid operand ", op.text()),
            Error::OperatorOnStack { op } => text::join3(
                "Operator ",
                op.name().as_str(),
                " left on parse stack",
            ),
            Error::RatingOverflow { rating } => text::join3(
                "Rating ",
                number::write_usize(*rating).as_str(),
                " overflows",
            ),
            Error::TooManyOperands { num_ops } => text::join3(
                "Too many operands (",
                number::write_usize(*num_ops).as_str(),
                ")",
            ),
            Error::NumericParse { sticker, source } => {
                let mut r = text::join3("While parsing sticker ", sticker.as_str(), ", got ");
                r.append(source.message().as_str());
                r
            },
            Error::Client { source } => text::join2("Client error: ", source.message().as_str()),
        }
    }
}

// ---------------------------------------------------------------------------------------------
// ISO 8601 timestamps
// ---------------------------------------------------------------------------------------------

/// The time zone of a timestamp
#[derive(Clone, Copy, Debug, PartialEq, Eq, Structural)]
pub enum Zone {
    /// None was given: the machine's own
    Local,
    /// UTC
    Utc,
    /// So many seconds behind UTC
    West(i32),
    /// So many seconds ahead of UTC
    East(i32),
}

/// Bytes, as characters.
pub open spec fn as_chars(bytes: Seq<u8>) -> Seq<char> {
    bytes.map_values(|b: u8| b as char)
}

/// Taking a number between `lo` & `hi` off the front of some bytes, of which it is the first `n`: the
/// number & the bytes after it. Where there are too few bytes, those are the error; where they are no
/// such number, those after them are.
pub open spec fn take_number(buf: Seq<u8>, n: int, lo: int, hi: int) -> Result<
    (int, Seq<u8>),
    Seq<u8>,
> {
    if n > buf.len() {
        Err(buf)
    } else {
        match number::parsed(as_chars(buf.take(n)), lo, hi) {
            Ok(value) => Ok((value, buf.skip(n))),
            Err(_) => Err(buf.skip(n)),
        }
    }
}

/// Two digits' worth of a number.
pub open spec fn take_two(buf: Seq<u8>) -> Result<(int, Seq<u8>), Seq<u8>> {
    take_number(buf, 2, 0, u32::MAX as int)
}

/// Whether the next byte is `c`.
pub open spec fn next_is(buf: Seq<u8>, c: u8) -> bool {
    buf.len() > 0 && buf[0] == c
}

/// The month & day that follow a year. Either may be missing, in which case it is the first; there are
/// dashes before both in the extended format, and before neither in the basic one.
pub open spec fn take_date(buf: Seq<u8>) -> Result<(int, int, Seq<u8>), Seq<u8>> {
    if buf.len() == 0 || next_is(buf, 0x54) {
        Ok((1, 1, buf))
    } else {
        let extended = next_is(buf, 0x2d);
        match take_two(
            if extended {
                buf.skip(1)
            } else {
                buf
            },
        ) {
            Err(rest) => Err(rest),
            Ok((month, rest)) => if rest.len() == 0 || next_is(rest, 0x54) {
                Ok((month, 1, rest))
            } else {
                match take_two(
                    if extended {
                        rest.skip(1)
                    } else {
                        rest
                    },
                ) {
                    Err(rest) => Err(rest),
                    Ok((day, rest)) => Ok((month, day, rest)),
                }
            },
        }
    }
}

/// Whether there is no more of a time: the bytes are over, or go on with a time zone.
pub open spec fn time_ends(buf: Seq<u8>) -> bool {
    buf.len() == 0 || next_is(buf, 0x5a) || next_is(buf, 0x2b) || next_is(buf, 0x2d)
}

/// The hour, minute & second that follow a date, after one byte. All may be missing, as may the second
/// or the last two; there are colons between them in the extended format, and not in the basic one.
pub open spec fn take_time(buf: Seq<u8>) -> Result<(int, int, int, Seq<u8>), Seq<u8>> {
    if buf.len() == 0 {
        Ok((0, 0, 0, buf))
    } else {
        match take_two(buf.skip(1)) {
            Err(rest) => Err(rest),
            Ok((hour, rest)) => if time_ends(rest) {
                Ok((hour, 0, 0, rest))
            } else {
                let extended = next_is(rest, 0x3a);
                match take_two(
                    if extended {
                        rest.skip(1)
                    } else {
                        rest
                    },
                ) {
                    Err(rest) => Err(rest),
                    Ok((minute, rest)) => if time_ends(rest) {
                        Ok((hour, minute, 0, rest))
                    } else {
                        match take_two(
                            if extended {
                                rest.skip(1)
                            } else {
                                rest
                            },
                        ) {
                            Err(rest) => Err(rest),
                            Ok((second, rest)) => Ok((hour, minute, second, rest)),
                        }
                    },
                }
            },
        }
    }
}

/// The time zone that follows a time: nothing, a `Z` (which is not taken), or a sign, an hour & perhaps
/// a minute, between which there may be a colon.
pub open spec fn take_zone(buf: Seq<u8>) -> Result<(Zone, Seq<u8>), Seq<u8>> {
    if buf.len() == 0 {
        Ok((Zone::Local, buf))
    } else if next_is(buf, 0x5a) {
        Ok((Zone::Utc, buf))
    } else if !next_is(buf, 0x2d) && !next_is(buf, 0x2b) {
        Err(buf)
    } else {
        match take_number(buf.skip(1), 2, i32::MIN as int, i32::MAX as int) {
            Err(rest) => Err(rest),
            Ok((hours, rest)) => {
                let minutes = if rest.len() == 0 {
                    Ok((0int, rest))
                } else {
                    take_number(
                        if next_is(rest, 0x3a) {
                            rest.skip(1)
                        } else {
                            rest
                        },
                        2,
                        i32::MIN as int,
                        i32::MAX as int,
                    )
                };
                match minutes {
                    Err(rest) => Err(rest),
                    Ok((minutes, rest)) => {
                        let seconds = (hours * 3600 + minutes * 60) as i32;
                        if next_is(buf, 0x2d) {
                            Ok((Zone::West(seconds), rest))
                        } else {
                            Ok((Zone::East(seconds), rest))
                        }
                    },
                }
            },
        }
    }
}

/// The moment & time zone that a timestamp in ISO 8601 format gives, & the bytes after them; or the
/// bytes that were left when it turned out not to be one.
pub open spec fn iso_fields(buf: Seq<u8>) -> Result<(Moment, Zone, Seq<u8>), Seq<u8>> {
    match take_number(buf, 4, i32::MIN as int, i32::MAX as int) {
        Err(rest) => Err(rest),
        Ok((year, rest)) => match take_date(rest) {
            Err(rest) => Err(rest),
            Ok((month, day, rest)) => match take_time(rest) {
                Err(rest) => Err(rest),
                Ok((hour, minute, second, rest)) => match take_zone(rest) {
                    Err(rest) => Err(rest),
                    Ok((zone, rest)) => Ok(
                        (
                            Moment {
                                year: year as i32,
                                month: month as u32,
                                day: day as u32,
                                hour: hour as u32,
                                minute: minute as u32,
                                second: second as u32,
                            },
                            zone,
                            rest,
                        ),
                    ),
                },
            },
        },
    }
}

/// The error for a timestamp of which `rest` was left.
pub open spec fn bad_iso(rest: Seq<u8>) -> ErrorView {
    ErrorView::BadISO8601String { text: rest }
}

fn bad_timestamp(rest: &[u8]) -> (r: Error)
    ensures
        r.deep_view() == bad_iso(rest@),
{
    Error::BadISO8601String { text: vstd::slice::slice_to_vec(rest) }
}

/// The next byte, if there is one.
fn peek(buf: &[u8]) -> (r: Option<u8>)
    ensures
        r == (if buf@.len() > 0 {
            Some(buf@[0])
        } else {
            None
        }),
{
    if buf.len() == 0 {
        None
    } else {
        Some(buf[0])
    }
}

/// Pop `n` bytes off of `buf`
fn advance(buf: &mut &[u8], n: usize)
    requires
        n <= old(buf)@.len(),
    ensures
        final(buf)@ == old(buf)@.skip(n as int),
{
    let whole: &[u8] = *buf;
    let (_, rest) = whole.split_at(n);
    assert(rest@ =~= whole@.skip(n as int));
    *buf = rest;
}

/// Pop `n` bytes off of `buf`, as characters; or none, if there are not so many.
fn take_chars(buf: &mut &[u8], n: usize) -> (r: Result<Vec<char>, Error>)
    ensures
        n > old(buf)@.len() ==> {
            &&& text::outcome_err(r, bad_iso(old(buf)@))
            &&& final(buf)@ == old(buf)@
        },
        n <= old(buf)@.len() ==> {
            &&& r is Ok
            &&& r->Ok_0@ == as_chars(old(buf)@.take(n as int))
            &&& final(buf)@ == old(buf)@.skip(n as int)
        },
{
    let whole: &[u8] = *buf;
    if n > whole.len() {
        return Err(bad_timestamp(whole));
    }
    let mut v: Vec<char> = Vec::new();
    let mut i: usize = 0;
    while i < n
        invariant
            i <= n <= whole@.len(),
            v@ == as_chars(whole@.take(i as int)),
        decreases n - i,
    {
        assert(as_chars(whole@.take(i + 1)) =~= as_chars(whole@.take(i as int)).push(
            whole@[i as int] as char,
        ));
        v.push(whole[i] as char);
        i = i + 1;
    }
    advance(buf, n);
    Ok(v)
}

/// Pop `n` bytes off of `buf` & parse them as an `i32`
fn take_i32(buf: &mut &[u8], n: usize) -> (r: Result<i32, Error>)
    ensures
        match take_number(old(buf)@, n as int, i32::MIN as int, i32::MAX as int) {
            Ok((value, rest)) => r is Ok && r->Ok_0 == value && final(buf)@ == rest,
            Err(rest) => text::outcome_err(r, bad_iso(rest)) && final(buf)@ == rest,
        },
{
    let v = take_chars(buf, n)?;
    match number::parse_i32(&v) {
        Ok(value) => Ok(value),
        Err(_) => Err(bad_timestamp(*buf)),
    }
}

/// Pop two bytes off of `buf` & parse them as a `u32`
fn take_u32(buf: &mut &[u8]) -> (r: Result<u32, Error>)
    ensures
        match take_two(old(buf)@) {
            Ok((value, rest)) => r is Ok && r->Ok_0 == value && final(buf)@ == rest,
            Err(rest) => text::outcome_err(r, bad_iso(rest)) && final(buf)@ == rest,
        },
{
    let v = take_chars(buf, 2)?;
    match number::parse_u32(&v) {
        Ok(value) => Ok(value),
        Err(_) => Err(bad_timestamp(*buf)),
    }
}

/// A number written with a few characters is not large.
proof fn lemma_few_digits(s: Seq<char>, i: int, acc: int, negative: bool, lo: int, hi: int)
    requires
        0 <= i <= s.len(),
        s.len() <= 4,
        -10000 < acc < 10000,
        s.len() - i == 0 || (s.len() - i == 1 && -1000 < acc < 1000) || (s.len() - i == 2 && -100
            < acc < 100) || (s.len() - i == 3 && -10 < acc < 10) || (s.len() - i == 4 && acc == 0),
    ensures
        match number::read_digits(s, i, acc, negative, lo, hi) {
            Ok(n) => -10000 < n < 10000,
            Err(_) => true,
        },
    decreases s.len() - i,
{
    if i < s.len() && number::is_digit(s[i]) {
        let d = number::digit(s[i]);
        if negative {
            lemma_few_digits(s, i + 1, acc * 10 - d, negative, lo, hi);
        } else {
            lemma_few_digits(s, i + 1, acc * 10 + d, negative, lo, hi);
        }
    }
}

/// A number in the first few bytes is not large.
proof fn lemma_take_number(buf: Seq<u8>, n: int, lo: int, hi: int)
    requires
        0 <= n <= 4,
    ensures
        match take_number(buf, n, lo, hi) {
            Ok((value, _)) => -10000 < value < 10000,
            Err(_) => true,
        },
{
    if n <= buf.len() {
        let s = as_chars(buf.take(n));
        assert(s.len() == n);
        if s.len() > 0 {
            lemma_few_digits(s, 0, 0, false, lo, hi);
            lemma_few_digits(s, 1, 0, false, lo, hi);
            lemma_few_digits(s, 1, 0, true, lo, hi);
        }
    }
}

/// Pop a month & a day, either of which may be missing, off of `buf`
fn take_month_day(buf: &mut &[u8]) -> (r: Result<(u32, u32), Error>)
    ensures
        match take_date(old(buf)@) {
            Ok((month, day, rest)) => {
                &&& r is Ok
                &&& r->Ok_0.0 == month
                &&& r->Ok_0.1 == day
                &&& final(buf)@ == rest
            },
            Err(rest) => text::outcome_err(r, bad_iso(rest)) && final(buf)@ == rest,
        },
{
    // At this point:
    //   1. we may be done
    //   2. we may have the time
    //   3. we may have a month in extended format
    //   4. we may have a month in basic format
    let next = peek(*buf);
    if next.is_none() || next == Some(0x54u8) {
        return Ok((1, 1));
    }
    let ext_fmt: bool = next == Some(0x2du8);
    if ext_fmt {
        advance(buf, 1);
    }
    let month: u32 = take_u32(buf)?;
    // At this point:
    //   1. we may be done
    //   2. we may have the time
    //   3. we may have the day (in basic or extended format)
    let next = peek(*buf);
    if next.is_none() || next == Some(0x54u8) {
        return Ok((month, 1));
    }
    if ext_fmt {
        advance(buf, 1);
    }
    let day: u32 = take_u32(buf)?;
    Ok((month, day))
}

/// Whether there is no more of a time: `buf` is over, or goes on with a time zone.
fn at_time_end(buf: &[u8]) -> (r: bool)
    ensures
        r == time_ends(buf@),
{
    match peek(buf) {
        None => true,
        Some(b) => b == 0x5a || b == 0x2b || b == 0x2d,
    }
}

/// Pop a time of day, if there is one, off of `buf`
fn take_hms(buf: &mut &[u8]) -> (r: Result<(u32, u32, u32), Error>)
    ensures
        match take_time(old(buf)@) {
            Ok((hour, minute, second, rest)) => {
                &&& r is Ok
                &&& r->Ok_0.0 == hour
                &&& r->Ok_0.1 == minute
                &&& r->Ok_0.2 == second
                &&& final(buf)@ == rest
            },
            Err(rest) => text::outcome_err(r, bad_iso(rest)) && final(buf)@ == rest,
        },
{
    if buf.len() == 0 {
        return Ok((0, 0, 0));
    }
    advance(buf, 1);
    // There must at least be an hour
    let hour: u32 = take_u32(buf)?;
    if at_time_end(*buf) {
        return Ok((hour, 0, 0));
    }
    let ext_fmt: bool = peek(*buf) == Some(0x3au8);
    if ext_fmt {
        advance(buf, 1);
    }
    let minute: u32 = take_u32(buf)?;
    if at_time_end(*buf) {
        return Ok((hour, minute, 0));
    }
    if ext_fmt {
        advance(buf, 1);
    }
    let second: u32 = take_u32(buf)?;
    Ok((hour, minute, second))
}

/// Pop a time zone, if there is one, off of `buf`
fn take_tz(buf: &mut &[u8]) -> (r: Result<Zone, Error>)
    ensures
        match take_zone(old(buf)@) {
            Ok((zone, rest)) => r is Ok && r->Ok_0 == zone && final(buf)@ == rest,
            Err(rest) => text::outcome_err(r, bad_iso(rest)) && final(buf)@ == rest,
        },
{
    let next = peek(*buf);
    if next.is_none() {
        return Ok(Zone::Local);
    }
    if next == Some(0x5au8) {
        return Ok(Zone::Utc);
    }
    if next != Some(0x2du8) && next != Some(0x2bu8) {
        return Err(bad_timestamp(*buf));
    }
    let west: bool = next == Some(0x2du8);
    advance(buf, 1);
    proof {
        lemma_take_number(buf@, 2, i32::MIN as int, i32::MAX as int);
    }
    let hours: i32 = take_i32(buf, 2)?;
    let minutes: i32 = if buf.len() == 0 {
        0
    } else {
        if peek(*buf) == Some(0x3au8) {
            advance(buf, 1);
        }
        proof {
            lemma_take_number(buf@, 2, i32::MIN as int, i32::MAX as int);
        }
        take_i32(buf, 2)?
    };
    let seconds: i32 = hours * 3600 + minutes * 60;
    if west {
        Ok(Zone::West(seconds))
    } else {
        Ok(Zone::East(seconds))
    }
}

/// Read the fields of a timestamp in ISO 8601 format: year (expanded year representation is not
/// supported), month, day, hour, minute, second & time zone, all but the first of which may be missing
pub fn parse_iso_fields(buf: &mut &[u8]) -> (r: Result<(Moment, Zone), Error>)
    ensures
        match iso_fields(old(buf)@) {
            Ok((moment, zone, rest)) => {
                &&& r is Ok
                &&& r->Ok_0 == (moment, zone)
                &&& final(buf)@ == rest
                &&& -9999 <= moment.year <= 9999
            },
            Err(rest) => text::outcome_err(r, bad_iso(rest)) && final(buf)@ == rest,
        },
{
    proof {
        lemma_take_number(buf@, 4, i32::MIN as int, i32::MAX as int);
    }
    let year: i32 = take_i32(buf, 4)?;
    let (month, day) = take_month_day(buf)?;
    let (hour, minute, second) = take_hms(buf)?;
    let zone = take_tz(buf)?;
    Ok((Moment { year, month, day, hour, minute, second }, zone))
}

/// Whether a timestamp, if there is one, is that of a moment in a time zone. In the machine's own time
/// zone there may be none for a moment that it skips or repeats.
pub open spec fn is_timestamp(m: Moment, zone: Zone, t: Option<i64>) -> bool {
    match zone {
        Zone::Utc => t == calendar::timestamp_spec(m, 0),
        Zone::West(seconds) => t == calendar::timestamp_spec(m, -seconds),
        Zone::East(seconds) => t == calendar::timestamp_spec(m, seconds as int),
        Zone::Local => calendar::is_local(m, t),
    }
}

/// The timestamp of a moment in a time zone, if it has one.
fn timestamp(m: Moment, zone: Zone) -> (r: Option<i64>)
    requires
        -9999 <= m.year <= 9999,
    ensures
        is_timestamp(m, zone, r),
{
    match zone {
        Zone::Utc => calendar::utc_timestamp(m),
        Zone::West(seconds) => calendar::west_timestamp(m, seconds),
        Zone::East(seconds) => calendar::east_timestamp(m, seconds),
        Zone::Local => calendar::local_timestamp(m),
    }
}

/// What comes of reading a timestamp whose fields are these, if `t` is the timestamp that they have.
pub open spec fn iso_outcome(
    fields: Result<(Moment, Zone, Seq<u8>), Seq<u8>>,
    t: Option<i64>,
) -> Result<i64, ErrorView> {
    match (fields, t) {
        (Err(rest), _) => Err(bad_iso(rest)),
        (Ok((_, _, rest)), None) => Err(bad_iso(rest)),
        (Ok(_), Some(t)) => Ok(t),
    }
}

/// Whether `t` may be the timestamp that these fields have.
pub open spec fn iso_timestamp(
    fields: Result<(Moment, Zone, Seq<u8>), Seq<u8>>,
    t: Option<i64>,
) -> bool {
    match fields {
        Ok((m, zone, _)) => is_timestamp(m, zone, t),
        Err(_) => true,
    }
}

/// The bytes that are left after reading a timestamp.
pub open spec fn iso_rest(fields: Result<(Moment, Zone, Seq<u8>), Seq<u8>>) -> Seq<u8> {
    match fields {
        Ok((_, _, rest)) => rest,
        Err(rest) => rest,
    }
}

/// What comes of reading a timestamp, if `t` is the timestamp that its fields have & `rest` is what is
/// left after them.
pub fn settle_iso_8601(t: Option<i64>, rest: &[u8]) -> (r: Result<i64, Error>)
    ensures
        text::outcome(r) == (match t {
            Some(t) => Ok(t),
            None => Err(bad_iso(rest@)),
        }),
{
    match t {
        Some(t) => Ok(t),
        None => Err(bad_timestamp(rest)),
    }
}

/// Parse a timestamp in ISO 8601 format to the number of seconds since the Unix epoch
pub fn parse_iso_8601(buf: &mut &[u8]) -> (r: Result<i64, Error>)
    ensures
        final(buf)@ == iso_rest(iso_fields(old(buf)@)),
        exists|t: Option<i64>| #[trigger]
            iso_timestamp(iso_fields(old(buf)@), t) && text::outcome(r) == iso_outcome(
                iso_fields(old(buf)@),
                t,
            ),
{
    let ghost fields = iso_fields(buf@);
    match parse_iso_fields(buf) {
        Err(e) => {
            assert(iso_timestamp(fields, None));
            Err(e)
        },
        Ok((m, zone)) => {
            let t = timestamp(m, zone);
            assert(iso_timestamp(fields, t));
            settle_iso_8601(t, *buf)
        },
    }
}

// ---------------------------------------------------------------------------------------------
// Quoted text
// ---------------------------------------------------------------------------------------------

/// A character before the rest of a text.
pub open spec fn cons(c: char, rest: Option<Seq<char>>) -> Option<Seq<char>> {
    match rest {
        Some(rest) => Some(seq![c] + rest),
        None => None,
    }
}

/// The text in quotes from index `i` up to the closing quote. A backslash stands for the character
/// after it. There is none if the text has no closing quote.
pub open spec fn unquoted_from(s: Seq<char>, i: int, quote: char) -> Option<Seq<char>>
    decreases s.len() - i,
{
    if i < 0 || i >= s.len() {
        None
    } else if s[i] == quote {
        Some(Seq::empty())
    } else if s[i] == '\\' {
        if i + 1 >= s.len() {
            None
        } else {
            cons(s[i + 1], unquoted_from(s, i + 2, quote))
        }
    } else {
        cons(s[i], unquoted_from(s, i + 1, quote))
    }
}

/// The text that a token in quotes stands for.
pub open spec fn unquoted(s: Seq<char>) -> Result<Seq<char>, ErrorView> {
    if s.len() == 0 {
        Ok(Seq::empty())
    } else if s[0] != '\'' && s[0] != '"' {
        Err(ErrorView::ExpectQuoted { text: s })
    } else {
        match unquoted_from(s, 1, s[0]) {
            Some(r) => Ok(r),
            None => Err(ErrorView::ExpectQuoted { text: s }),
        }
    }
}

/// A text in quotes, of either kind, stands for the characters between them, one by one, with a backslash
/// before any of them harmless; the same quote ends it. Without quotes, it stands for nothing.
pub proof fn law_unquoted(quote: char, c: char, rest: Seq<char>)
    ensures
        quote == '"' || quote == '\'' ==> {
            &&& unquoted(seq![quote, quote] + rest) == Ok::<Seq<char>, ErrorView>(Seq::empty())
            &&& unquoted(seq![quote]) is Err
            &&& unquoted(seq![quote, '\\']) is Err
            &&& match unquoted(seq![quote] + rest) {
                Ok(text) => {
                    &&& unquoted(seq![quote, '\\', c] + rest) == Ok::<Seq<char>, ErrorView>(
                        seq![c] + text,
                    )
                    &&& c != quote && c != '\\' ==> unquoted(seq![quote, c] + rest) == Ok::<
                        Seq<char>,
                        ErrorView,
                    >(seq![c] + text)
                },
                Err(_) => {
                    &&& unquoted(seq![quote, '\\', c] + rest) is Err
                    &&& c != quote && c != '\\' ==> unquoted(seq![quote, c] + rest) is Err
                },
            }
        },
        quote != '"' && quote != '\'' ==> unquoted(seq![quote] + rest) is Err,
{
    let s = seq![quote] + rest;
    let bare = seq![quote, c] + rest;
    let escaped = seq![quote, '\\', c] + rest;
    let closed = seq![quote, quote] + rest;
    assert(s[0] == quote && bare[0] == quote && escaped[0] == quote && closed[0] == quote);
    assert(closed[1] == quote);
    assert(bare[1] == c);
    assert(escaped[1] == '\\' && escaped[2] == c);
    lemma_unquoted_shifted(s, bare, 1, 1, quote);
    lemma_unquoted_shifted(s, escaped, 1, 2, quote);
    reveal_with_fuel(unquoted_from, 2);
}

proof fn lemma_unquoted_shifted(s: Seq<char>, t: Seq<char>, i: int, by: int, quote: char)
    requires
        1 <= i,
        0 <= by,
        t.len() == s.len() + by,
        forall|k: int| i <= k < s.len() ==> #[trigger] s[k] == t[k + by],
    ensures
        unquoted_from(t, i + by, quote) == unquoted_from(s, i, quote),
    decreases s.len() - i,
{
    if i < s.len() {
        assert(s[i] == t[i + by]);
        lemma_unquoted_shifted(s, t, i + 1, by, quote);
        if i + 1 < s.len() {
            assert(s[i + 1] == t[i + 1 + by]);
            lemma_unquoted_shifted(s, t, i + 2, by, quote);
        }
    }
}

/// "Un-quote" a token
///
/// Textual tokens must be quoted, and double-quote & backslashes within backslash-escaped. If the
/// string is quoted with single-quotes, then any single-quotes inside the string will also need
/// to be escaped.
///
/// In fact, *any* characters within may be harmlessly backslash escaped; the MPD implementation
/// walks the the string, skipping backslashes as it goes, so this implementation will do the same.
pub fn expect_quoted(qtext: &str) -> (r: Result<String, Error>)
    ensures
        text::outcome(r) == unquoted(qtext@),
{
    let v = text::chars_of(qtext);
    if v.len() == 0 {
        return Ok(String::new());
    }
    let quote = v[0];
    if quote != '\'' && quote != '"' {
        return Err(Error::ExpectQuoted { text: text::owned(qtext) });
    }
    let mut ret = String::new();
    let mut i: usize = 1;
    let ghost all = unquoted_from(v@, 1, quote);
    assert(ret@ + all->0 =~= all->0);
    while i < v.len() && v[i] != quote
        invariant
            v@ == qtext@,
            1 <= i <= v@.len(),
            all == unquoted_from(v@, 1, quote),
            all == (match unquoted_from(v@, i as int, quote) {
                Some(rest) => Some(ret@ + rest),
                None => None,
            }),
            quote == v@[0],
            quote == '\'' || quote == '"',
        decreases v@.len() - i,
    {
        let ghost done = ret@;
        if v[i] == '\\' {
            i = i + 1;
            if i >= v.len() {
                return Err(Error::ExpectQuoted { text: text::owned(qtext) });
            }
        }
        ret.push(v[i]);
        i = i + 1;
        proof {
            if let Some(rest) = unquoted_from(v@, i as int, quote) {
                assert(done + (seq![v@[i - 1]] + rest) =~= ret@ + rest);
            }
        }
    }
    if i < v.len() {
        assert(ret@ + Seq::empty() =~= ret@);
        Ok(ret)
    } else {
        Err(Error::ExpectQuoted { text: text::owned(qtext) })
    }
}

// ---------------------------------------------------------------------------------------------
// Terms
// ---------------------------------------------------------------------------------------------

/// The songs that something selects, in an order, or the error that prevented it.
pub type Songs = Result<Seq<Seq<char>>, ErrorView>;

/// Whether an operation applies to numbers.
pub open spec fn is_numeric(op: OpCode) -> bool {
    match op {
        OpCode::Contains => false,
        OpCode::RegexMatch => false,
        OpCode::RegexExclude => false,
        _ => true,
    }
}

/// Whether an operation that applies to numbers holds between two.
pub open spec fn holds(op: OpCode, x: int, val: int) -> bool {
    match op {
        OpCode::Equality => x == val,
        OpCode::Inequality => x != val,
        OpCode::GreaterThan => x > val,
        OpCode::LessThan => x < val,
        OpCode::GreaterThanEqual => x >= val,
        OpCode::LessThanEqual => x <= val,
        _ => false,
    }
}

/// An operation that applies to numbers, & its right-hand side
#[derive(Clone, Copy)]
pub struct NumericTest {
    op: OpCode,
    val: i128,
}

impl NumericTest {
    /// The operation.
    pub closed spec fn op(&self) -> OpCode {
        self.op
    }

    /// The right-hand side.
    pub closed spec fn val(&self) -> int {
        self.val as int
    }

    /// Whether the operation holds of `x`.
    pub fn holds(&self, x: i128) -> (r: bool)
        ensures
            r == holds(self.op(), x as int, self.val()),
            self.op() == OpCode::Equality ==> (r <==> x == self.val()),
            self.op() == OpCode::Inequality ==> (r <==> x != self.val()),
            self.op() == OpCode::GreaterThan ==> (r <==> x > self.val()),
            self.op() == OpCode::LessThan ==> (r <==> x < self.val()),
            self.op() == OpCode::GreaterThanEqual ==> (r <==> x >= self.val()),
            self.op() == OpCode::LessThanEqual ==> (r <==> x <= self.val()),
    {
        match self.op {
            OpCode::Equality => x == self.val,
            OpCode::Inequality => x != self.val,
            OpCode::GreaterThan => x > self.val,
            OpCode::LessThan => x < self.val,
            OpCode::GreaterThanEqual => x >= self.val,
            OpCode::LessThanEqual => x <= self.val,
            _ => false,
        }
    }
}

/// Create a test that will carry out an operator on its argument
///
/// If the operation is not pertinent to numbers, this is an error.
pub fn make_numeric_test(op: OpCode, val: i128) -> (r: Result<NumericTest, Error>)
    ensures
        r is Ok == is_numeric(op),
        r is Ok ==> r->Ok_0.op() == op && r->Ok_0.val() == val,
        r is Err ==> text::outcome_err(r, ErrorView::InvalidOperand { op }),
{
    match op {
        OpCode::Contains | OpCode::RegexMatch | OpCode::RegexExclude => Err(
            Error::InvalidOperand { op },
        ),
        _ => Ok(NumericTest { op, val }),
    }
}

/// Conditions on numbers are those of arithmetic: "<" is less than, ">" its converse, ">=" & "<=" are what
/// "<" & ">" leave, "==" is both of them, & "!=" what "==" leaves.
pub proof fn law_comparisons(x: int, y: int)
    ensures
        holds(OpCode::LessThan, x, y) <==> x < y,
        holds(OpCode::GreaterThan, x, y) <==> holds(OpCode::LessThan, y, x),
        holds(OpCode::GreaterThanEqual, x, y) <==> !holds(OpCode::LessThan, x, y),
        holds(OpCode::LessThanEqual, x, y) <==> !holds(OpCode::GreaterThan, x, y),
        holds(OpCode::Equality, x, y) <==> holds(OpCode::GreaterThanEqual, x, y) && holds(
            OpCode::LessThanEqual,
            x,
            y,
        ),
        holds(OpCode::Inequality, x, y) <==> !holds(OpCode::Equality, x, y),
{
}

/// The types of number that stickers hold
#[derive(Clone, Copy, Debug, PartialEq, Eq, Structural)]
pub enum Kind {
    /// A rating
    Byte,
    /// A play count
    Count,
    /// A timestamp
    Time,
}

/// The least number of a kind.
pub open spec fn kind_lo(kind: Kind) -> int {
    match kind {
        Kind::Byte => 0,
        Kind::Count => 0,
        Kind::Time => i64::MIN as int,
    }
}

/// The greatest number of a kind.
pub open spec fn kind_hi(kind: Kind) -> int {
    match kind {
        Kind::Byte => 255,
        Kind::Count => usize::MAX as int,
        Kind::Time => i64::MAX as int,
    }
}

/// The number of a kind that a text writes.
pub open spec fn number_of(kind: Kind, s: Seq<char>) -> Result<i128, ParseError> {
    match number::parsed(s, kind_lo(kind), kind_hi(kind)) {
        Ok(n) => Ok(n as i128),
        Err(e) => Err(e),
    }
}

fn parse_number(kind: Kind, s: &str) -> (r: Result<i128, ParseError>)
    ensures
        r == number_of(kind, s@),
{
    match kind {
        Kind::Byte => match number::parse_u8(s) {
            Ok(n) => Ok(n as i128),
            Err(e) => Err(e),
        },
        Kind::Count => match number::parse_usize(s) {
            Ok(n) => Ok(n as i128),
            Err(e) => Err(e),
        },
        Kind::Time => match number::parse_i64(s) {
            Ok(n) => Ok(n as i128),
            Err(e) => Err(e),
        },
    }
}

/// The first `n` stickers, as numbers; the first that is none is the one that is reported.
pub open spec fn numbers(m: Seq<(Seq<char>, Seq<char>)>, n: int, kind: Kind) -> Result<
    Seq<(Seq<char>, i128)>,
    ParseError,
>
    decreases n,
{
    if n <= 0 {
        Ok(Seq::empty())
    } else {
        match numbers(m, n - 1, kind) {
            Err(e) => Err(e),
            Ok(done) => match number_of(kind, m[n - 1].1) {
                Err(e) => Err(e),
                Ok(x) => Ok(collections::put(done, m[n - 1].0, x)),
            },
        }
    }
}

/// The numbers, with zero for each of the first `n` songs that has none.
pub open spec fn defaulted(m: Seq<(Seq<char>, i128)>, songs: Seq<Seq<char>>, n: int) -> Seq<
    (Seq<char>, i128),
>
    decreases n,
{
    if n <= 0 {
        m
    } else {
        let done = defaulted(m, songs, n - 1);
        if collections::lookup(done, songs[n - 1]) is None {
            collections::put(done, songs[n - 1], 0)
        } else {
            done
        }
    }
}

/// Those of the first `n` songs of whose numbers an operation holds.
pub open spec fn selected(m: Seq<(Seq<char>, i128)>, n: int, op: OpCode, val: int) -> Seq<Seq<char>>
    decreases n,
{
    if n <= 0 {
        Seq::empty()
    } else if holds(op, m[n - 1].1 as int, val) {
        selected(m, n - 1, op, val).push(m[n - 1].0)
    } else {
        selected(m, n - 1, op, val)
    }
}

/// The songs of whose numbers an operation holds, given all stickers & all songs: a song without a
/// sticker counts as zero.
pub open spec fn numeric_selection(
    m: Seq<(Seq<char>, i128)>,
    songs: Seq<Seq<char>>,
    op: OpCode,
    val: int,
) -> Seq<Seq<char>> {
    let all = defaulted(m, songs, songs.len() as int);
    collections::distinct(selected(all, all.len() as int, op, val))
}

/// The songs of whose sticker an operation holds: ask for the stickers, and then for all songs.
pub open spec fn numeric_spec(
    s: Session,
    sticker: Seq<char>,
    kind: Kind,
    op: OpCode,
    val: int,
) -> (Songs, Session) {
    if !is_numeric(op) {
        (Err(ErrorView::InvalidOperand { op }), s)
    } else {
        let (stickers, s1) = clients::get_stickers_spec(s, sticker);
        match stickers {
            Err(source) => (Err(ErrorView::Client { source }), s1),
            Ok(stickers) => match numbers(stickers, stickers.len() as int, kind) {
                Err(source) => (Err(ErrorView::NumericParse { sticker, source }), s1),
                Ok(m) => {
                    let (songs, s2) = clients::all_songs_spec(s1);
                    match songs {
                        Err(source) => (Err(ErrorView::Client { source }), s2),
                        Ok(songs) => (Ok(numeric_selection(m, songs, op, val)), s2),
                    }
                },
            },
        }
    }
}

proof fn lemma_numbers_err(m: Seq<(Seq<char>, Seq<char>)>, n: int, k: int, kind: Kind)
    requires
        n <= k,
        numbers(m, n, kind) is Err,
    ensures
        numbers(m, k, kind) == numbers(m, n, kind),
    decreases k - n,
{
    if n < k {
        lemma_numbers_err(m, n, k - 1, kind);
    }
}

/// The stickers, as numbers.
fn to_numbers(stickers: &StringMap<String>, kind: Kind) -> (r: Result<StringMap<i128>, ParseError>)
    ensures
        (match r {
            Ok(m) => Ok(m@),
            Err(e) => Err(e),
        }) == numbers(stickers.deep_view(), stickers@.len() as int, kind),
{
    let ghost all = stickers.deep_view();
    let mut m: StringMap<i128> = StringMap::new();
    let mut i: usize = 0;
    while i < stickers.len()
        invariant
            all == stickers.deep_view(),
            i <= stickers@.len(),
            numbers(all, i as int, kind) == Ok::<Seq<(Seq<char>, i128)>, ParseError>(m@),
        decreases stickers@.len() - i,
    {
        assert(all[i as int] == (stickers@[i as int].0, stickers@[i as int].1@));
        match parse_number(kind, stickers.value(i).as_str()) {
            Ok(x) => {
                m.insert(stickers.key(i).clone(), x);
            },
            Err(e) => {
                proof {
                    lemma_numbers_err(all, i + 1, stickers@.len() as int, kind);
                }
                return Err(e);
            },
        }
        i = i + 1;
    }
    Ok(m)
}

/// The songs of whose numbers a test holds, given all numbers & all songs.
pub fn select_numeric(m: StringMap<i128>, songs: &Vec<String>, test: &NumericTest) -> (r: StringSet)
    ensures
        r@ == numeric_selection(m@, text::texts(songs@), test.op(), test.val()),
{
    let ghost start = m@;
    let ghost all = text::texts(songs@);
    let mut m = m;
    let mut i: usize = 0;
    while i < songs.len()
        invariant
            all == text::texts(songs@),
            i <= songs@.len(),
            m@ == defaulted(start, all, i as int),
        decreases songs@.len() - i,
    {
        assert(all[i as int] == songs@[i as int]@);
        if m.get(songs[i].as_str()).is_none() {
            m.insert(songs[i].clone(), 0);
        }
        i = i + 1;
    }
    let mut kept: Vec<String> = Vec::new();
    assert(text::texts(kept@) =~= Seq::<Seq<char>>::empty());
    let mut j: usize = 0;
    while j < m.len()
        invariant
            j <= m@.len(),
            text::texts(kept@) == selected(m@, j as int, test.op(), test.val()),
        decreases m@.len() - j,
    {
        let ghost before = text::texts(kept@);
        if test.holds(*m.value(j)) {
            kept.push(m.key(j).clone());
            assert(text::texts(kept@) =~= before.push(m@[j as int].0));
        }
        j = j + 1;
    }
    StringSet::from_vec(kept)
}

/// The songs of whose sticker an operation holds
fn eval_numeric_sticker_term<S: RequestResponse>(
    sticker: &str,
    client: &mut Client<S>,
    op: OpCode,
    numeric_val: i128,
    kind: Kind,
) -> (r: Result<StringSet, Error>)
    ensures
        (text::outcome(r), final(client).session()) == numeric_spec(
            old(client).session(),
            sticker@,
            kind,
            op,
            numeric_val as int,
        ),
{
    let test = make_numeric_test(op, numeric_val)?;
    let stickers = match client.get_stickers(sticker) {
        Ok(stickers) => stickers,
        Err(source) => {
            return Err(Error::Client { source });
        },
    };
    proof {
        collections::lemma_deep_len(stickers@);
    }
    let m = match to_numbers(&stickers, kind) {
        Ok(m) => m,
        Err(source) => {
            return Err(Error::NumericParse { sticker: text::owned(sticker), source });
        },
    };
    let songs = match client.get_all_songs() {
        Ok(songs) => songs,
        Err(source) => {
            return Err(Error::Client { source });
        },
    };
    proof {
        clients::lemma_texts(songs);
    }
    Ok(select_numeric(m, &songs, &test))
}

/// Convenience struct collecting the names for assorted stickers on which one may search
///
/// While the search terms 'rating', 'playcount' &c are fixed & part of the filter grammar, the
/// precise names of the corresponding stickers are configurable & hence must be passed in.
#[derive(Clone, Copy)]
pub struct FilterStickerNames<'a> {
    rating: &'a str,
    playcount: &'a str,
    lastplayed: &'a str,
}

/// A [`FilterStickerNames`], as a mathematical value.
pub struct NamesView {
    pub rating: Seq<char>,
    pub playcount: Seq<char>,
    pub lastplayed: Seq<char>,
}

impl<'a> DeepView for FilterStickerNames<'a> {
    type V = NamesView;

    closed spec fn deep_view(&self) -> NamesView {
        NamesView {
            rating: self.rating@,
            playcount: self.playcount@,
            lastplayed: self.lastplayed@,
        }
    }
}

impl<'a> FilterStickerNames<'a> {
    /// The names of the stickers.
    pub fn new(rating: &'a str, playcount: &'a str, lastplayed: &'a str) -> (r: FilterStickerNames<
        'a,
    >)
        ensures
            r.deep_view() == (NamesView {
                rating: rating@,
                playcount: playcount@,
                lastplayed: lastplayed@,
            }),
    {
        FilterStickerNames { rating, playcount, lastplayed }
    }
}

/// How a value is shown in an error.
pub open spec fn shown(val: ValueView) -> Seq<char> {
    match val {
        ValueView::Text(s) => "Text(\n    "@ + text::debug_text(s) + ",\n)"@,
        ValueView::UnixEpoch(t) => "UnixEpoch(\n    "@ + number::signed_decimal(t as int)
            + ",\n)"@,
        ValueView::Uint(n) => "Uint(\n    "@ + number::decimal(n as nat) + ",\n)"@,
    }
}

/// The error for a condition with a value of the wrong type.
pub open spec fn type_error(val: ValueView) -> ErrorView {
    ErrorView::FilterTypeErr { text: "filter ratings expect an unsigned int; got "@ + shown(val) }
}

fn wrong_type(val: &Value) -> (r: Error)
    ensures
        r.deep_view() == type_error(val.deep_view()),
{
    let shown = match val {
        Value::Text(s) => text::join3("Text(\n    ", text::debug_str(s.as_str()).as_str(), ",\n)"),
        Value::UnixEpoch(t) => text::join3(
            "UnixEpoch(\n    ",
            number::write_i64(*t).as_str(),
            ",\n)",
        ),
        Value::Uint(n) => text::join3("Uint(\n    ", number::write_usize(*n).as_str(), ",\n)"),
    };
    Error::FilterTypeErr {
        text: text::join2("filter ratings expect an unsigned int; got ", shown.as_str()),
    }
}

/// The songs that a reply to a search lists, each once.
pub open spec fn found(r: (Result<Seq<Seq<char>>, clients::ErrorView>, Session)) -> (
    Songs,
    Session,
) {
    match r.0 {
        Ok(songs) => (Ok(collections::distinct(songs)), r.1),
        Err(source) => (Err(ErrorView::Client { source }), r.1),
    }
}

/// The songs that a term selects. Conditions on ratings, play counts & times of last play are
/// decided by stickers; the server decides the others.
pub open spec fn term_spec(t: TermView, case: bool, names: NamesView, s: Session) -> (
    Songs,
    Session,
) {
    match t {
        TermView::UnaryCondition(attr, val) => found(
            clients::find1_spec(s, selector_text(attr), quoted_value(val), case),
        ),
        TermView::BinaryCondition(attr, op, val) => match attr {
            Selector::Rating => match val {
                ValueView::Uint(n) => if n > 255 {
                    (Err(ErrorView::RatingOverflow { rating: n }), s)
                } else {
                    numeric_spec(s, names.rating, Kind::Byte, op, n as int)
                },
                _ => (Err(type_error(val)), s),
            },
            Selector::PlayCount => match val {
                ValueView::Uint(n) => numeric_spec(s, names.playcount, Kind::Count, op, n as int),
                _ => (Err(type_error(val)), s),
            },
            Selector::LastPlayed => match val {
                ValueView::UnixEpoch(t) => numeric_spec(
                    s,
                    names.lastplayed,
                    Kind::Time,
                    op,
                    t as int,
                ),
                ValueView::Uint(n) => numeric_spec(s, names.lastplayed, Kind::Time, op, n as int),
                ValueView::Text(_) => (Err(type_error(val)), s),
            },
            _ => found(
                clients::find2_spec(s, selector_text(attr), op_text(op), quoted_value(val), case),
            ),
        },
    }
}

/// The set of the songs found.
fn to_set(r: Result<Vec<String>, clients::Error>) -> (out: Result<StringSet, Error>)
    ensures
        forall|s: Session| #[trigger] found((text::outcome(r), s)) == (text::outcome(out), s),
{
    match r {
        Ok(songs) => {
            proof {
                clients::lemma_texts(songs);
            }
            Ok(StringSet::from_vec(songs))
        },
        Err(source) => Err(Error::Client { source }),
    }
}

/// Evaluate a Term
///
/// Take a Term from the Abstract Syntax tree & resolve it to a collection of song URIs. Set `case`
/// to `true` to search case-sensitively & `false` to make the search case-insensitive.
pub fn eval_term<'a, S: RequestResponse>(
    term: &Term,
    case: bool,
    client: &mut Client<S>,
    stickers: &FilterStickerNames<'a>,
) -> (r: Result<StringSet, Error>)
    ensures
        (text::outcome(r), final(client).session()) == term_spec(
            term.deep_view(),
            case,
            stickers.deep_view(),
            old(client).session(),
        ),
{
    match term {
        Term::UnaryCondition(attr, val) => {
            let songs = client.find1(attr.text(), quote_value(val).as_str(), case);
            to_set(songs)
        },
        Term::BinaryCondition(attr, op, val) => match attr {
            Selector::Rating => match val {
                Value::Uint(n) => {
                    if *n > 255 {
                        return Err(Error::RatingOverflow { rating: *n });
                    }
                    eval_numeric_sticker_term(
                        stickers.rating,
                        client,
                        *op,
                        *n as i128,
                        Kind::Byte,
                    )
                },
                _ => Err(wrong_type(val)),
            },
            Selector::PlayCount => match val {
                Value::Uint(n) => eval_numeric_sticker_term(
                    stickers.playcount,
                    client,
                    *op,
                    *n as i128,
                    Kind::Count,
                ),
                _ => Err(wrong_type(val)),
            },
            Selector::LastPlayed => match val {
                Value::UnixEpoch(t) => eval_numeric_sticker_term(
                    stickers.lastplayed,
                    client,
                    *op,
                    *t as i128,
                    Kind::Time,
                ),
                Value::Uint(n) => eval_numeric_sticker_term(
                    stickers.lastplayed,
                    client,
                    *op,
                    *n as i128,
                    Kind::Time,
                ),
                Value::Text(_) => Err(wrong_type(val)),
            },
            _ => {
                let songs = client.find2(attr.text(), op.text(), quote_value(val).as_str(), case);
                to_set(songs)
            },
        },
    }
}

// ---------------------------------------------------------------------------------------------
// Expressions
// ---------------------------------------------------------------------------------------------

/// The songs that are not among some: ask for all songs.
pub open spec fn negation_spec(songs: Seq<Seq<char>>, s: Session) -> (Songs, Session) {
    let (all, s1) = clients::all_songs_spec(s);
    match all {
        Ok(all) => (Ok(collections::distinct(collections::without(all, songs))), s1),
        Err(source) => (Err(ErrorView::Client { source }), s1),
    }
}

/// The songs that an expression selects. Terms are evaluated from left to right.
pub open spec fn eval_spec(e: Expression, case: bool, names: NamesView, s: Session) -> (
    Songs,
    Session,
)
    decreases e,
{
    match e {
        Expression::Simple(t) => term_spec(t.deep_view(), case, names, s),
        Expression::Negation(e) => {
            let (songs, s1) = eval_spec(*e, case, names, s);
            match songs {
                Ok(songs) => negation_spec(songs, s1),
                Err(e) => (Err(e), s1),
            }
        },
        Expression::Conjunction(c) => conj_spec(*c, case, names, s),
        Expression::Disjunction(d) => disj_spec(*d, case, names, s),
    }
}

/// The songs that all of two or more expressions select.
pub open spec fn conj_spec(c: Conjunction, case: bool, names: NamesView, s: Session) -> (
    Songs,
    Session,
)
    decreases c,
{
    let (left, s1) = match c {
        Conjunction::Simple(l, _) => eval_spec(*l, case, names, s),
        Conjunction::Compound(c, _) => conj_spec(*c, case, names, s),
    };
    match left {
        Err(e) => (Err(e), s1),
        Ok(left) => {
            let (right, s2) = match c {
                Conjunction::Simple(_, r) => eval_spec(*r, case, names, s1),
                Conjunction::Compound(_, e) => eval_spec(*e, case, names, s1),
            };
            match right {
                Err(e) => (Err(e), s2),
                Ok(right) => (Ok(collections::common(left, right)), s2),
            }
        },
    }
}

/// The songs that at least one of two or more expressions selects.
pub open spec fn disj_spec(d: Disjunction, case: bool, names: NamesView, s: Session) -> (
    Songs,
    Session,
)
    decreases d,
{
    let (left, s1) = match d {
        Disjunction::Simple(l, _) => eval_spec(*l, case, names, s),
        Disjunction::Compound(d, _) => disj_spec(*d, case, names, s),
    };
    match left {
        Err(e) => (Err(e), s1),
        Ok(left) => {
            let (right, s2) = match d {
                Disjunction::Simple(_, r) => eval_spec(*r, case, names, s1),
                Disjunction::Compound(_, e) => eval_spec(*e, case, names, s1),
            };
            match right {
                Err(e) => (Err(e), s2),
                Ok(right) => (Ok(collections::with_items(left, right)), s2),
            }
        },
    }
}

/// The evaluation stack contains logical operators & sets of song URIs
enum EvalStackNode {
    Op(EvalOp),
    Result(StringSet),
}

/// A node of the evaluation stack, as a mathematical value.
enum NodeView {
    Op(EvalOp),
    Result(Seq<Seq<char>>),
}

impl DeepView for EvalStackNode {
    type V = NodeView;

    closed spec fn deep_view(&self) -> NodeView {
        match self {
            EvalStackNode::Op(op) => NodeView::Op(*op),
            EvalStackNode::Result(r) => NodeView::Result(r@),
        }
    }
}

/// The evaluation stack, as a mathematical value.
spec fn nodes(stack: Seq<EvalStackNode>) -> Seq<NodeView> {
    stack.map_values(|n: EvalStackNode| n.deep_view())
}

/// The evaluation stack, reduced as far as possible: a result below which there is a "not" is negated,
/// and two results below which there is an "and" or an "or" are combined. A step that fails leaves the
/// stack as it was before that step.
spec fn reduced(stack: Seq<NodeView>, s: Session) -> (
    Result<(), ErrorView>,
    Seq<NodeView>,
    Session,
)
    decreases stack.len(),
{
    let n = stack.len();
    if n > 1 {
        match (stack[n - 2], stack[n - 1]) {
            (NodeView::Op(EvalOp::Not), NodeView::Result(r)) => {
                let (res, s1) = negation_spec(r, s);
                match res {
                    Err(e) => (Err(e), stack, s1),
                    Ok(res) => reduced(stack.take(n - 2).push(NodeView::Result(res)), s1),
                }
            },
            (NodeView::Result(r1), NodeView::Result(r2)) => if n > 2 && stack[n - 3]
                == NodeView::Op(EvalOp::And) {
                reduced(
                    stack.take(n - 3).push(NodeView::Result(collections::common(r1, r2))),
                    s,
                )
            } else if n > 2 && stack[n - 3] == NodeView::Op(EvalOp::Or) {
                reduced(
                    stack.take(n - 3).push(NodeView::Result(collections::with_items(r1, r2))),
                    s,
                )
            } else {
                (Ok(()), stack, s)
            },
            _ => (Ok(()), stack, s),
        }
    } else {
        (Ok(()), stack, s)
    }
}

/// Whether there is nothing to reduce.
spec fn is_reduced(stack: Seq<NodeView>, s: Session) -> bool {
    reduced(stack, s) == (Ok::<(), ErrorView>(()), stack, s)
}

/// A reduced stack cannot be reduced further.
proof fn lemma_reduced_stable(stack: Seq<NodeView>, s: Session, t: Session)
    ensures
        reduced(stack, s).0 is Ok ==> is_reduced(reduced(stack, s).1, t),
    decreases stack.len(),
{
    let n = stack.len();
    if n > 1 {
        match (stack[n - 2], stack[n - 1]) {
            (NodeView::Op(EvalOp::Not), NodeView::Result(r)) => {
                let (res, s1) = negation_spec(r, s);
                if let Ok(res) = res {
                    lemma_reduced_stable(stack.take(n - 2).push(NodeView::Result(res)), s1, t);
                }
            },
            (NodeView::Result(r1), NodeView::Result(r2)) => {
                if n > 2 && stack[n - 3] == NodeView::Op(EvalOp::And) {
                    lemma_reduced_stable(
                        stack.take(n - 3).push(NodeView::Result(collections::common(r1, r2))),
                        s,
                        t,
                    );
                } else if n > 2 && stack[n - 3] == NodeView::Op(EvalOp::Or) {
                    lemma_reduced_stable(
                        stack.take(n - 3).push(NodeView::Result(collections::with_items(r1, r2))),
                        s,
                        t,
                    );
                }
            },
            _ => {},
        }
    }
}

/// What the evaluation of the expressions that are left, the last of them first, comes to, given the
/// evaluation stack.
spec fn resume(
    pending: Seq<Expression>,
    stack: Seq<NodeView>,
    case: bool,
    names: NamesView,
    s: Session,
) -> (Songs, Session)
    decreases pending.len(),
{
    if pending.len() == 0 {
        (finish(stack), s)
    } else {
        let (songs, s1) = eval_spec(pending.last(), case, names, s);
        resume_with(pending.drop_last(), stack, case, names, songs, s1)
    }
}

/// The same, once the expression at hand has been evaluated.
spec fn resume_with(
    pending: Seq<Expression>,
    stack: Seq<NodeView>,
    case: bool,
    names: NamesView,
    songs: Songs,
    s: Session,
) -> (Songs, Session)
    decreases pending.len(),
{
    match songs {
        Err(e) => (Err(e), s),
        Ok(songs) => {
            let (done, stack, s1) = reduced(stack.push(NodeView::Result(songs)), s);
            match done {
                Err(e) => (Err(e), s1),
                Ok(_) => if pending.len() == 0 {
                    (finish(stack), s1)
                } else {
                    let (songs, s2) = eval_spec(pending.last(), case, names, s1);
                    resume_with(pending.drop_last(), stack, case, names, songs, s2)
                },
            }
        },
    }
}

/// What is left on the evaluation stack when there is nothing left to evaluate.
spec fn finish(stack: Seq<NodeView>) -> Songs {
    if stack.len() != 1 {
        Err(ErrorView::TooManyOperands { num_ops: stack.len() as usize })
    } else {
        match stack[0] {
            NodeView::Result(r) => Ok(r),
            NodeView::Op(op) => Err(ErrorView::OperatorOnStack { op }),
        }
    }
}

/// Evaluating a negation is evaluating its operand with a "not" on the stack.
proof fn lemma_negation(
    pending: Seq<Expression>,
    stack: Seq<NodeView>,
    e: Box<Expression>,
    case: bool,
    names: NamesView,
    s: Session,
)
    ensures
        resume(pending.push(Expression::Negation(e)), stack, case, names, s) == resume(
            pending.push(*e),
            stack.push(NodeView::Op(EvalOp::Not)),
            case,
            names,
            s,
        ),
{
    assert(pending.push(Expression::Negation(e)).drop_last() =~= pending);
    assert(pending.push(*e).drop_last() =~= pending);
    let (songs, s1) = eval_spec(*e, case, names, s);
    if let Ok(songs) = songs {
        let with_op = stack.push(NodeView::Op(EvalOp::Not)).push(NodeView::Result(songs));
        assert(with_op.take(with_op.len() - 2) =~= stack);
    }
}

/// Two results below which there is a binary operator.
proof fn lemma_binary(
    pending: Seq<Expression>,
    stack: Seq<NodeView>,
    op: EvalOp,
    left: Songs,
    r: Expression,
    case: bool,
    names: NamesView,
    s: Session,
)
    requires
        op == EvalOp::And || op == EvalOp::Or,
    ensures
        resume_with(
            pending.push(r),
            stack.push(NodeView::Op(op)),
            case,
            names,
            left,
            s,
        ) == (match left {
            Err(e) => (Err(e), s),
            Ok(left) => {
                let (right, s1) = eval_spec(r, case, names, s);
                match right {
                    Err(e) => (Err(e), s1),
                    Ok(right) => resume_with(
                        pending,
                        stack,
                        case,
                        names,
                        Ok(
                            if op == EvalOp::And {
                                collections::common(left, right)
                            } else {
                                collections::with_items(left, right)
                            },
                        ),
                        s1,
                    ),
                }
            },
        }),
{
    reveal_with_fuel(resume_with, 3);
    assert(pending.push(r).drop_last() =~= pending);
    if let Ok(left) = left {
        let one = stack.push(NodeView::Op(op)).push(NodeView::Result(left));
        assert(is_reduced(one, s));
        let (right, s1) = eval_spec(r, case, names, s);
        if let Ok(right) = right {
            let two = one.push(NodeView::Result(right));
            assert(two.take(two.len() - 3) =~= stack);
        }
    }
}

/// Walking down a conjunction: the last expression waits, with an "and" on the stack.
proof fn lemma_conjunction(
    pending: Seq<Expression>,
    stack: Seq<NodeView>,
    c: Conjunction,
    case: bool,
    names: NamesView,
    s: Session,
)
    ensures
        ({
            let (songs, s1) = conj_spec(c, case, names, s);
            let below = stack.push(NodeView::Op(EvalOp::And));
            resume_with(pending, stack, case, names, songs, s1) == (match c {
                Conjunction::Simple(l, r) => resume(
                    pending.push(*r).push(*l),
                    below,
                    case,
                    names,
                    s,
                ),
                Conjunction::Compound(c, e) => {
                    let (songs, s1) = conj_spec(*c, case, names, s);
                    resume_with(pending.push(*e), below, case, names, songs, s1)
                },
            })
        }),
{
    match c {
        Conjunction::Simple(l, r) => {
            let (left, s1) = eval_spec(*l, case, names, s);
            lemma_binary(pending, stack, EvalOp::And, left, *r, case, names, s1);
            assert(pending.push(*r).push(*l).drop_last() =~= pending.push(*r));
        },
        Conjunction::Compound(c, e) => {
            let (left, s1) = conj_spec(*c, case, names, s);
            lemma_binary(pending, stack, EvalOp::And, left, *e, case, names, s1);
        },
    }
}

/// Walking down a disjunction: the last expression waits, with an "or" on the stack.
proof fn lemma_disjunction(
    pending: Seq<Expression>,
    stack: Seq<NodeView>,
    d: Disjunction,
    case: bool,
    names: NamesView,
    s: Session,
)
    ensures
        ({
            let (songs, s1) = disj_spec(d, case, names, s);
            let below = stack.push(NodeView::Op(EvalOp::Or));
            resume_with(pending, stack, case, names, songs, s1) == (match d {
                Disjunction::Simple(l, r) => resume(
                    pending.push(*r).push(*l),
                    below,
                    case,
                    names,
                    s,
                ),
                Disjunction::Compound(d, e) => {
                    let (songs, s1) = disj_spec(*d, case, names, s);
                    resume_with(pending.push(*e), below, case, names, songs, s1)
                },
            })
        }),
{
    match d {
        Disjunction::Simple(l, r) => {
            let (left, s1) = eval_spec(*l, case, names, s);
            lemma_binary(pending, stack, EvalOp::Or, left, *r, case, names, s1);
            assert(pending.push(*r).push(*l).drop_last() =~= pending.push(*r));
        },
        Disjunction::Compound(d, e) => {
            let (left, s1) = disj_spec(*d, case, names, s);
            lemma_binary(pending, stack, EvalOp::Or, left, *e, case, names, s1);
        },
    }
}

/// The number of expressions & operators in an expression.
spec fn weight(e: Expression) -> nat
    decreases e,
{
    match e {
        Expression::Simple(_) => 1,
        Expression::Negation(e) => 1 + weight(*e),
        Expression::Conjunction(c) => 1 + conj_weight(*c),
        Expression::Disjunction(d) => 1 + disj_weight(*d),
    }
}

spec fn conj_weight(c: Conjunction) -> nat
    decreases c,
{
    match c {
        Conjunction::Simple(l, r) => weight(*l) + weight(*r),
        Conjunction::Compound(c, e) => conj_weight(*c) + weight(*e),
    }
}

spec fn disj_weight(d: Disjunction) -> nat
    decreases d,
{
    match d {
        Disjunction::Simple(l, r) => weight(*l) + weight(*r),
        Disjunction::Compound(d, e) => disj_weight(*d) + weight(*e),
    }
}

spec fn total_weight(pending: Seq<Expression>) -> nat
    decreases pending.len(),
{
    if pending.len() == 0 {
        0
    } else {
        total_weight(pending.drop_last()) + weight(pending.last())
    }
}

proof fn lemma_total_push(pending: Seq<Expression>, e: Expression)
    ensures
        total_weight(pending.push(e)) == total_weight(pending) + weight(e),
{
    assert(pending.push(e).drop_last() =~= pending);
}

/// The expressions that references refer to.
spec fn deref(v: Seq<&Expression>) -> Seq<Expression> {
    v.map_values(|e: &Expression| *e)
}

/// The songs that are not in `res`
fn negate_result<S: RequestResponse>(res: &StringSet, client: &mut Client<S>) -> (r: Result<
    StringSet,
    Error,
>)
    ensures
        (text::outcome(r), final(client).session()) == negation_spec(res@, old(client).session()),
{
    match client.get_all_songs() {
        Ok(songs) => {
            proof {
                clients::lemma_texts(songs);
            }
            Ok(collections::difference(&songs, res))
        },
        Err(source) => Err(Error::Client { source }),
    }
}

/// Reduce the evaluation stack as far as possible.
///
/// We can pop the stack in two cases:
///
/// 1. S.len() > 2 and S[-3] is either And or Or, and both S[-1] & S[-2] are Result-s
/// 2. S.len() > 1, S[-2] is Not, and S[-1] is a Result
fn reduce<S: RequestResponse>(stack: &mut Vec<EvalStackNode>, client: &mut Client<S>) -> (r: Result<
    (),
    Error,
>)
    ensures
        ({
            let (done, left, s) = reduced(nodes(old(stack)@), old(client).session());
            &&& final(client).session() == s
            &&& nodes(final(stack)@) == left
            &&& text::outcome(r) == done
        }),
{
    let ghost start = reduced(nodes(stack@), client.session());
    let mut more = true;
    while more
        invariant
            start == reduced(nodes(old(stack)@), old(client).session()),
            start == reduced(nodes(stack@), client.session()),
            !more ==> is_reduced(nodes(stack@), client.session()),
        decreases
            stack@.len(),
            (if more {
                1int
            } else {
                0
            }),
    {
        let n: usize = stack.len();
        let ghost view = nodes(stack@);
        more = false;
        if n > 1 {
            assert(view[n - 1] == stack@[n - 1].deep_view());
            assert(view[n - 2] == stack@[n - 2].deep_view());
            // Take care to compute the reduction *before* popping the stack
            let reduction: Option<StringSet> = match (&stack[n - 2], &stack[n - 1]) {
                (EvalStackNode::Op(EvalOp::Not), EvalStackNode::Result(r)) => {
                    let negated = negate_result(r, client)?;
                    Some(negated)
                },
                (EvalStackNode::Result(r1), EvalStackNode::Result(r2)) => {
                    if n > 2 {
                        assert(view[n - 3] == stack@[n - 3].deep_view());
                        match &stack[n - 3] {
                            EvalStackNode::Op(EvalOp::And) => Some(r1.intersection(r2)),
                            EvalStackNode::Op(EvalOp::Or) => Some(r1.union(r2)),
                            _ => None,
                        }
                    } else {
                        None
                    }
                },
                _ => None,
            };
            if let Some(res) = reduction {
                let binary: bool = match &stack[n - 2] {
                    EvalStackNode::Op(_) => false,
                    EvalStackNode::Result(_) => true,
                };
                stack.pop();
                stack.pop();
                if binary {
                    stack.pop();
                    assert(nodes(stack@) =~= view.take(n - 3));
                } else {
                    assert(nodes(stack@) =~= view.take(n - 2));
                }
                let ghost below = nodes(stack@);
                stack.push(EvalStackNode::Result(res));
                assert(nodes(stack@) =~= below.push(NodeView::Result(res@)));
                more = true;
            }
        }
    }
    Ok(())
}

/// Evaluate an abstract syntax tree (AST)
pub fn evaluate<'a, S: RequestResponse>(
    expr: &Expression,
    case: bool,
    client: &mut Client<S>,
    stickers: &FilterStickerNames<'a>,
) -> (r: Result<StringSet, Error>)
    ensures
        (text::outcome(r), final(client).session()) == eval_spec(
            *expr,
            case,
            stickers.deep_view(),
            old(client).session(),
        ),
{
    let ghost names = stickers.deep_view();
    let ghost start = client.session();
    // We maintain *two* stacks, one for parsing & one for evaluation.  Let sp (for "stack(parse)")
    // be a stack of references to nodes in the parse tree.
    let mut sp: Vec<&Expression> = Vec::new();
    // Initialize it with the root; as we walk the tree, we'll pop the "most recent" node, and push
    // children.
    sp.push(expr);
    // Let se (for "stack(eval)") be a stack of operators & URIs.
    let mut se: Vec<EvalStackNode> = Vec::new();
    proof {
        lemma_start(*expr, case, names, start);
        assert(deref(sp@) =~= seq![*expr]);
        assert(nodes(se@) =~= Seq::empty());
    }

    // Simple DFS traversal of the AST:
    while sp.len() > 0
        invariant
            names == stickers.deep_view(),
            start == old(client).session(),
            eval_spec(*expr, case, names, start) == resume(
                deref(sp@),
                nodes(se@),
                case,
                names,
                client.session(),
            ),
            forall|t: Session| #[trigger]
                is_reduced(nodes(se@), t),
        decreases total_weight(deref(sp@)),
    {
        let ghost pending = deref(sp@);
        let ghost stack = nodes(se@);
        let ghost s = client.session();
        // pop the stack...
        let node = sp.pop().unwrap();
        let ghost rest = deref(sp@);
        proof {
            assert(pending =~= rest.push(*node));
            assert(pending.drop_last() =~= rest);
            lemma_total_push(rest, *node);
        }
        // and dispatch based on what we've got:
        match node {
            // 1. we have a simple term: this can be immediately resolved to a set of song URIs. Do
            // so & push the resulting set onto the evaluation stack.
            Expression::Simple(bt) => {
                let songs = eval_term(bt, case, client, stickers)?;
                let ghost songs_view = songs@;
                se.push(EvalStackNode::Result(songs));
                proof {
                    assert(nodes(se@) =~= stack.push(NodeView::Result(songs_view)));
                    lemma_resume_with(rest, stack, case, names, songs_view, client.session());
                }
            },
            // 2. we have a negation: push the "not" operator onto the evaluation stack & the child
            // onto the parse stack.
            Expression::Negation(be) => {
                se.push(EvalStackNode::Op(EvalOp::Not));
                sp.push(&**be);
                proof {
                    lemma_negation(rest, stack, *be, case, names, s);
                    lemma_total_push(rest, **be);
                    assert(nodes(se@) =~= stack.push(NodeView::Op(EvalOp::Not)));
                    assert(deref(sp@) =~= rest.push(**be));
                }
            },
            // 3. conjunction-- push the "and" operator onto the evaluation stack & the children
            // onto the parse stack (be sure to push the right-hand child first, so it will be
            // popped second)
            Expression::Conjunction(bc) => {
                let mut conj: &Conjunction = &**bc;
                let mut walking = true;
                proof {
                    let (songs, s1) = conj_spec(**bc, case, names, s);
                    assert(resume(pending, stack, case, names, s) == resume_with(
                        rest,
                        stack,
                        case,
                        names,
                        songs,
                        s1,
                    ));
                }
                let ghost bound = total_weight(pending);
                while walking
                    invariant
                        s == client.session(),
                        total_weight(deref(sp@)) + (if walking {
                            conj_weight(*conj)
                        } else {
                            0
                        }) < bound,
                        walking ==> eval_spec(*expr, case, names, start) == ({
                            let (songs, s1) = conj_spec(*conj, case, names, s);
                            resume_with(deref(sp@), nodes(se@), case, names, songs, s1)
                        }),
                        !walking ==> {
                            &&& eval_spec(*expr, case, names, start) == resume(
                                deref(sp@),
                                nodes(se@),
                                case,
                                names,
                                s,
                            )
                            &&& nodes(se@).len() > 0
                            &&& nodes(se@).last() is Op
                        },
                    decreases
                        conj,
                        (if walking {
                            1int
                        } else {
                            0
                        }),
                {
                    let ghost p = deref(sp@);
                    let ghost q = nodes(se@);
                    proof {
                        lemma_conjunction(p, q, *conj, case, names, s);
                    }
                    match conj {
                        Conjunction::Simple(bel, ber) => {
                            se.push(EvalStackNode::Op(EvalOp::And));
                            sp.push(&**ber);
                            sp.push(&**bel);
                            walking = false;
                            proof {
                                lemma_total_push(p, **ber);
                                lemma_total_push(p.push(**ber), **bel);
                                assert(nodes(se@) =~= q.push(NodeView::Op(EvalOp::And)));
                                assert(deref(sp@) =~= p.push(**ber).push(**bel));
                            }
                        },
                        Conjunction::Compound(bc, be) => {
                            se.push(EvalStackNode::Op(EvalOp::And));
                            sp.push(&**be);
                            conj = &**bc;
                            proof {
                                lemma_total_push(p, **be);
                                assert(nodes(se@) =~= q.push(NodeView::Op(EvalOp::And)));
                                assert(deref(sp@) =~= p.push(**be));
                            }
                        },
                    }
                }
            },
            Expression::Disjunction(bd) => {
                let mut disj: &Disjunction = &**bd;
                let mut walking = true;
                proof {
                    let (songs, s1) = disj_spec(**bd, case, names, s);
                    assert(resume(pending, stack, case, names, s) == resume_with(
                        rest,
                        stack,
                        case,
                        names,
                        songs,
                        s1,
                    ));
                }
                let ghost bound = total_weight(pending);
                while walking
                    invariant
                        s == client.session(),
                        total_weight(deref(sp@)) + (if walking {
                            disj_weight(*disj)
                        } else {
                            0
                        }) < bound,
                        walking ==> eval_spec(*expr, case, names, start) == ({
                            let (songs, s1) = disj_spec(*disj, case, names, s);
                            resume_with(deref(sp@), nodes(se@), case, names, songs, s1)
                        }),
                        !walking ==> {
                            &&& eval_spec(*expr, case, names, start) == resume(
                                deref(sp@),
                                nodes(se@),
                                case,
                                names,
                                s,
                            )
                            &&& nodes(se@).len() > 0
                            &&& nodes(se@).last() is Op
                        },
                    decreases
                        disj,
                        (if walking {
                            1int
                        } else {
                            0
                        }),
                {
                    let ghost p = deref(sp@);
                    let ghost q = nodes(se@);
                    proof {
                        lemma_disjunction(p, q, *disj, case, names, s);
                    }
                    match disj {
                        Disjunction::Simple(bel, ber) => {
                            se.push(EvalStackNode::Op(EvalOp::Or));
                            sp.push(&**ber);
                            sp.push(&**bel);
                            walking = false;
                            proof {
                                lemma_total_push(p, **ber);
                                lemma_total_push(p.push(**ber), **bel);
                                assert(nodes(se@) =~= q.push(NodeView::Op(EvalOp::Or)));
                                assert(deref(sp@) =~= p.push(**ber).push(**bel));
                            }
                        },
                        Disjunction::Compound(bd, be) => {
                            se.push(EvalStackNode::Op(EvalOp::Or));
                            sp.push(&**be);
                            disj = &**bd;
                            proof {
                                lemma_total_push(p, **be);
                                assert(nodes(se@) =~= q.push(NodeView::Op(EvalOp::Or)));
                                assert(deref(sp@) =~= p.push(**be));
                            }
                        },
                    }
                }
            },
        }
        let ghost unreduced = nodes(se@);
        let ghost s1 = client.session();
        reduce(&mut se, client)?;
        assert forall|t: Session| #[trigger]
            is_reduced(nodes(se@), t) by {
            lemma_reduced_stable(unreduced, s1, t);
        }
    }

    // At this point, sp is empty, and se had better have one element, and that element had better be
    // a Result.
    if se.len() != 1 {
        return Err(Error::TooManyOperands { num_ops: se.len() });
    }
    assert(nodes(se@)[0] == se@[0].deep_view());
    match se.pop().unwrap() {
        EvalStackNode::Result(result) => Ok(result),
        EvalStackNode::Op(op) => Err(Error::OperatorOnStack { op }),
    }
}

/// Evaluation starts with the whole expression & an empty stack.
proof fn lemma_start(e: Expression, case: bool, names: NamesView, s: Session)
    ensures
        resume(seq![e], Seq::empty(), case, names, s) == eval_spec(e, case, names, s),
{
    assert(seq![e].drop_last() =~= Seq::empty());
    let (songs, s1) = eval_spec(e, case, names, s);
    if let Ok(songs) = songs {
        let one = Seq::<NodeView>::empty().push(NodeView::Result(songs));
        assert(one.len() == 1);
    }
}

/// Going on after an expression is going on with the stack reduced.
proof fn lemma_resume_with(
    pending: Seq<Expression>,
    stack: Seq<NodeView>,
    case: bool,
    names: NamesView,
    songs: Seq<Seq<char>>,
    s: Session,
)
    ensures
        resume_with(pending, stack, case, names, Ok(songs), s) == ({
            let (done, stack, s1) = reduced(stack.push(NodeView::Result(songs)), s);
            match done {
                Err(e) => (Err(e), s1),
                Ok(_) => resume(pending, stack, case, names, s1),
            }
        }),
{
}

} // verus!
