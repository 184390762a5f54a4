//! What timestamps in ISO 8601 format stand for.

use vstd::prelude::*;

use crate::calendar::Moment;
use crate::filters;
use crate::filters::Tok;
use crate::filters_ast;
use crate::filters_ast::{ValueView, Zone};
use crate::number;

verus! {

// ---------------------------------------------------------------------------------------------
// Digits
// ---------------------------------------------------------------------------------------------

/// The byte of a decimal digit.
pub open spec fn digit_byte(d: int) -> u8 {
    (0x30 + d) as u8
}

/// A number below a hundred, in two digits.
pub open spec fn two(n: int) -> Seq<u8> {
    seq![digit_byte(n / 10), digit_byte(n % 10)]
}

/// A number below ten thousand, in four digits.
pub open spec fn four(n: int) -> Seq<u8> {
    two(n / 100) + two(n % 100)
}

proof fn lemma_number(digits: Seq<u8>, rest: Seq<u8>, lo: int, hi: int, n: int)
    requires
        digits.len() > 0,
        lo <= 0,
        forall|i: int| 0 <= i < digits.len() ==> 0x30 <= #[trigger] digits[i] <= 0x39,
        number::value(filters_ast::as_chars(digits)) == n,
        n <= hi,
        hi >= 0,
    ensures
        filters_ast::take_number(digits + rest, digits.len() as int, lo, hi) == Ok::<
            (int, Seq<u8>),
            Seq<u8>,
        >((n, rest)),
{
    let buf = digits + rest;
    let k = digits.len() as int;
    assert(buf.take(k) =~= digits);
    assert(buf.skip(k) =~= rest);
    let s = filters_ast::as_chars(digits);
    assert forall|i: int| 0 <= i < s.len() implies number::is_digit(#[trigger] s[i]) by {
        assert(s[i] == digits[i] as char);
        assert(0x30 <= digits[i] <= 0x39);
    }
    assert(number::is_digit(s[0]));
    number::law_parsed_unsigned(s, hi);
    number::lemma_read_above(s, 0, 0, lo, hi);
}

proof fn lemma_two(n: int, rest: Seq<u8>, lo: int, hi: int)
    requires
        0 <= n < 100,
        lo <= 0,
        hi >= 100,
    ensures
        filters_ast::take_number(two(n) + rest, 2, lo, hi) == Ok::<(int, Seq<u8>), Seq<u8>>(
            (n, rest),
        ),
{
    let s = filters_ast::as_chars(two(n));
    assert(s.len() == 2);
    assert(s[0] == digit_byte(n / 10) as char && s[1] == digit_byte(n % 10) as char);
    reveal_with_fuel(number::value, 3);
    assert(s.drop_last() =~= seq![s[0]]);
    assert(seq![s[0]].drop_last() =~= Seq::<char>::empty());
    assert(number::digit(s[0]) == n / 10);
    assert(number::digit(s[1]) == n % 10);
    assert(number::value(s) == n);
    lemma_number(two(n), rest, lo, hi, n);
}

proof fn lemma_four(n: int, rest: Seq<u8>, lo: int, hi: int)
    requires
        0 <= n < 10000,
        lo <= 0,
        hi >= 10000,
    ensures
        filters_ast::take_number(four(n) + rest, 4, lo, hi) == Ok::<(int, Seq<u8>), Seq<u8>>(
            (n, rest),
        ),
{
    let s = filters_ast::as_chars(four(n));
    let (a, b) = (n / 100, n % 100);
    assert(s.len() == 4);
    assert(s[0] == digit_byte(a / 10) as char && s[1] == digit_byte(a % 10) as char);
    assert(s[2] == digit_byte(b / 10) as char && s[3] == digit_byte(b % 10) as char);
    reveal_with_fuel(number::value, 5);
    assert(s.drop_last() =~= seq![s[0], s[1], s[2]]);
    assert(seq![s[0], s[1], s[2]].drop_last() =~= seq![s[0], s[1]]);
    assert(seq![s[0], s[1]].drop_last() =~= seq![s[0]]);
    assert(seq![s[0]].drop_last() =~= Seq::<char>::empty());
    assert(number::digit(s[0]) == a / 10 && number::digit(s[1]) == a % 10);
    assert(number::digit(s[2]) == b / 10 && number::digit(s[3]) == b % 10);
    assert(number::value(s) == n);
    lemma_number(four(n), rest, lo, hi, n);
}

// ---------------------------------------------------------------------------------------------
// Parts
// ---------------------------------------------------------------------------------------------

/// A separator, which the extended format has & the basic one has not.
pub open spec fn separator(extended: bool, c: u8) -> Seq<u8> {
    if extended {
        seq![c]
    } else {
        Seq::empty()
    }
}

/// How a month & a day are written: both, the month alone, or neither.
pub open spec fn date_text(extended: bool, month: int, day: int, parts: int) -> Seq<u8> {
    if parts >= 2 {
        separator(extended, 0x2d) + two(month) + separator(extended, 0x2d) + two(day)
    } else if parts == 1 {
        separator(extended, 0x2d) + two(month)
    } else {
        Seq::empty()
    }
}

/// How a time of day is written: with the second, without it, with the hour alone, or not at all.
pub open spec fn time_text(extended: bool, hour: int, minute: int, second: int, parts: int) -> Seq<u8> {
    if parts >= 3 {
        seq![0x54u8] + two(hour) + separator(extended, 0x3a) + two(minute) + separator(
            extended,
            0x3a,
        ) + two(second)
    } else if parts == 2 {
        seq![0x54u8] + two(hour) + separator(extended, 0x3a) + two(minute)
    } else if parts == 1 {
        seq![0x54u8] + two(hour)
    } else {
        Seq::empty()
    }
}

/// How a time zone is written: not at all, as a "Z", or as a sign, an hour & a minute.
pub open spec fn zone_text(extended: bool, zone: Zone) -> Seq<u8> {
    match zone {
        Zone::Local => Seq::empty(),
        Zone::Utc => seq![0x5au8],
        Zone::West(seconds) => seq![0x2du8] + two(seconds as int / 3600) + separator(extended, 0x3a)
            + two(seconds as int % 3600 / 60),
        Zone::East(seconds) => seq![0x2bu8] + two(seconds as int / 3600) + separator(extended, 0x3a)
            + two(seconds as int % 3600 / 60),
    }
}

/// Whether a time zone can be written so: less than a hundred hours, in whole minutes.
pub open spec fn is_writable(zone: Zone) -> bool {
    match zone {
        Zone::West(seconds) => 0 <= seconds < 360000 && seconds % 60 == 0,
        Zone::East(seconds) => 0 <= seconds < 360000 && seconds % 60 == 0,
        _ => true,
    }
}

proof fn lemma_first_digit(n: int, rest: Seq<u8>)
    requires
        0 <= n < 100,
    ensures
        0x30 <= (two(n) + rest)[0] <= 0x39,
        (two(n) + rest).len() >= 2,
{
    assert((two(n) + rest)[0] == digit_byte(n / 10));
}

/// Two digits after a separator, if there is to be one.
proof fn lemma_separated(extended: bool, c: u8, n: int, rest: Seq<u8>)
    requires
        0 <= n < 100,
        c == 0x2d || c == 0x3a,
    ensures
        ({
            let buf = separator(extended, c) + two(n) + rest;
            &&& filters_ast::next_is(buf, c) == extended
            &&& filters_ast::take_two(
                if extended {
                    buf.skip(1)
                } else {
                    buf
                },
            ) == Ok::<(int, Seq<u8>), Seq<u8>>((n, rest))
            &&& buf.len() > 0
            &&& buf[0] == (if extended {
                c
            } else {
                digit_byte(n / 10)
            })
        }),
{
    let buf = separator(extended, c) + two(n) + rest;
    lemma_two(n, rest, 0, u32::MAX as int);
    lemma_first_digit(n, rest);
    if extended {
        assert(buf.skip(1) =~= two(n) + rest);
        assert(buf[0] == c);
    } else {
        assert(buf =~= two(n) + rest);
    }
}

proof fn lemma_date(extended: bool, month: int, day: int, parts: int, rest: Seq<u8>)
    requires
        0 <= month < 100,
        0 <= day < 100,
        rest.len() == 0 || rest[0] == 0x54,
    ensures
        filters_ast::take_date(date_text(extended, month, day, parts) + rest) == Ok::<
            (int, int, Seq<u8>),
            Seq<u8>,
        >(
            (
                if parts >= 1 {
                    month
                } else {
                    1
                },
                if parts >= 2 {
                    day
                } else {
                    1
                },
                rest,
            ),
        ),
{
    let buf = date_text(extended, month, day, parts) + rest;
    if parts >= 2 {
        let more = separator(extended, 0x2d) + two(day) + rest;
        assert(buf =~= separator(extended, 0x2d) + two(month) + more);
        lemma_separated(extended, 0x2d, month, more);
        lemma_separated(extended, 0x2d, day, rest);
    } else if parts == 1 {
        lemma_separated(extended, 0x2d, month, rest);
    } else {
        assert(buf =~= rest);
    }
}

proof fn lemma_time(extended: bool, hour: int, minute: int, second: int, parts: int, rest: Seq<u8>)
    requires
        0 <= hour < 100,
        0 <= minute < 100,
        0 <= second < 100,
        parts <= 0 ==> rest.len() == 0,
        rest.len() == 0 || rest[0] == 0x5a || rest[0] == 0x2b || rest[0] == 0x2d,
    ensures
        filters_ast::take_time(time_text(extended, hour, minute, second, parts) + rest) == Ok::<
            (int, int, int, Seq<u8>),
            Seq<u8>,
        >(
            (
                if parts >= 1 {
                    hour
                } else {
                    0
                },
                if parts >= 2 {
                    minute
                } else {
                    0
                },
                if parts >= 3 {
                    second
                } else {
                    0
                },
                rest,
            ),
        ),
{
    let buf = time_text(extended, hour, minute, second, parts) + rest;
    if parts >= 3 {
        lemma_time_three(extended, hour, minute, second, rest);
    } else if parts == 2 {
        lemma_time_two(extended, hour, minute, rest);
    } else if parts == 1 {
        assert(buf.skip(1) =~= two(hour) + rest);
        lemma_two(hour, rest, 0, u32::MAX as int);
    } else {
        assert(buf =~= rest);
    }
}

proof fn lemma_goes_on(extended: bool, n: int, rest: Seq<u8>)
    requires
        0 <= n < 100,
    ensures
        !filters_ast::time_ends(separator(extended, 0x3a) + two(n) + rest),
{
    lemma_separated(extended, 0x3a, n, rest);
    assert(0x30 <= digit_byte(n / 10) <= 0x39);
}

proof fn lemma_time_three(extended: bool, hour: int, minute: int, second: int, rest: Seq<u8>)
    requires
        0 <= hour < 100,
        0 <= minute < 100,
        0 <= second < 100,
    ensures
        filters_ast::take_time(time_text(extended, hour, minute, second, 3) + rest) == Ok::<
            (int, int, int, Seq<u8>),
            Seq<u8>,
        >((hour, minute, second, rest)),
{
    let buf = time_text(extended, hour, minute, second, 3) + rest;
    let last = separator(extended, 0x3a) + two(second) + rest;
    let more = separator(extended, 0x3a) + two(minute) + last;
    assert(buf.skip(1) =~= two(hour) + more);
    assert(filters_ast::take_two(buf.skip(1)) == Ok::<(int, Seq<u8>), Seq<u8>>((hour, more))) by {
        lemma_two(hour, more, 0, u32::MAX as int);
    }
    lemma_goes_on(extended, minute, last);
    lemma_goes_on(extended, second, rest);
    lemma_separated(extended, 0x3a, minute, last);
    lemma_separated(extended, 0x3a, second, rest);
    lemma_three(buf, more, last, hour, minute, second, rest);
}

proof fn lemma_three(
    buf: Seq<u8>,
    more: Seq<u8>,
    last: Seq<u8>,
    hour: int,
    minute: int,
    second: int,
    rest: Seq<u8>,
)
    requires
        buf.len() > 0,
        filters_ast::take_two(buf.skip(1)) == Ok::<(int, Seq<u8>), Seq<u8>>((hour, more)),
        !filters_ast::time_ends(more),
        !filters_ast::time_ends(last),
        filters_ast::next_is(last, 0x3a) == filters_ast::next_is(more, 0x3a),
        filters_ast::take_two(
            if filters_ast::next_is(more, 0x3a) {
                more.skip(1)
            } else {
                more
            },
        ) == Ok::<(int, Seq<u8>), Seq<u8>>((minute, last)),
        filters_ast::take_two(
            if filters_ast::next_is(more, 0x3a) {
                last.skip(1)
            } else {
                last
            },
        ) == Ok::<(int, Seq<u8>), Seq<u8>>((second, rest)),
    ensures
        filters_ast::take_time(buf) == Ok::<(int, int, int, Seq<u8>), Seq<u8>>(
            (hour, minute, second, rest),
        ),
{
}

proof fn lemma_time_two(extended: bool, hour: int, minute: int, rest: Seq<u8>)
    requires
        0 <= hour < 100,
        0 <= minute < 100,
        rest.len() == 0 || rest[0] == 0x5a || rest[0] == 0x2b || rest[0] == 0x2d,
    ensures
        filters_ast::take_time(time_text(extended, hour, minute, 0, 2) + rest) == Ok::<
            (int, int, int, Seq<u8>),
            Seq<u8>,
        >((hour, minute, 0, rest)),
{
    let buf = time_text(extended, hour, minute, 0, 2) + rest;
    let more = separator(extended, 0x3a) + two(minute) + rest;
    assert(buf.skip(1) =~= two(hour) + more);
    assert(filters_ast::take_two(buf.skip(1)) == Ok::<(int, Seq<u8>), Seq<u8>>((hour, more))) by {
        lemma_two(hour, more, 0, u32::MAX as int);
    }
    lemma_goes_on(extended, minute, rest);
    lemma_separated(extended, 0x3a, minute, rest);
    assert(filters_ast::time_ends(rest));
}

proof fn lemma_zone(extended: bool, zone: Zone)
    requires
        is_writable(zone),
    ensures
        filters_ast::take_zone(zone_text(extended, zone)) == Ok::<(Zone, Seq<u8>), Seq<u8>>(
            (
                zone,
                if zone == Zone::Utc {
                    seq![0x5au8]
                } else {
                    Seq::empty()
                },
            ),
        ),
{
    let buf = zone_text(extended, zone);
    match zone {
        Zone::Local => {
            assert(buf =~= Seq::empty());
        },
        Zone::Utc => {},
        Zone::West(seconds) => lemma_offset(extended, seconds as int, 0x2d),
        Zone::East(seconds) => lemma_offset(extended, seconds as int, 0x2b),
    }
}

proof fn lemma_offset(extended: bool, seconds: int, sign: u8)
    requires
        0 <= seconds < 360000,
        seconds % 60 == 0,
        sign == 0x2d || sign == 0x2b,
    ensures
        ({
            let (h, m) = (seconds / 3600, seconds % 3600 / 60);
            let rest = separator(extended, 0x3a) + two(m);
            let buf = seq![sign] + two(h) + separator(extended, 0x3a) + two(m);
            &&& filters_ast::next_is(buf, sign)
            &&& filters_ast::take_number(buf.skip(1), 2, i32::MIN as int, i32::MAX as int) == Ok::<
                (int, Seq<u8>),
                Seq<u8>,
            >((h, rest))
            &&& rest.len() > 0
            &&& filters_ast::take_number(
                if filters_ast::next_is(rest, 0x3a) {
                    rest.skip(1)
                } else {
                    rest
                },
                2,
                i32::MIN as int,
                i32::MAX as int,
            ) == Ok::<(int, Seq<u8>), Seq<u8>>((m, Seq::empty()))
            &&& h * 3600 + m * 60 == seconds
        }),
{
    let (h, m) = (seconds / 3600, seconds % 3600 / 60);
    let rest = separator(extended, 0x3a) + two(m);
    let buf = seq![sign] + two(h) + separator(extended, 0x3a) + two(m);
    assert(0 <= h < 100 && 0 <= m < 60);
    assert(buf.skip(1) =~= two(h) + rest);
    lemma_two(h, rest, i32::MIN as int, i32::MAX as int);
    lemma_two(m, Seq::empty(), i32::MIN as int, i32::MAX as int);
    assert(two(m) + Seq::<u8>::empty() =~= two(m));
    lemma_first_digit(m, Seq::empty());
    if extended {
        assert(rest.skip(1) =~= two(m));
        assert(rest[0] == 0x3a);
    } else {
        assert(rest =~= two(m));
    }
}

// ---------------------------------------------------------------------------------------------
// Laws
// ---------------------------------------------------------------------------------------------

/// A timestamp in ISO 8601 format, basic or extended, gives the date, the time of day & the time zone that
/// it was written with. What is left out is the first month, the first day, or zero.
pub proof fn law_iso(m: Moment, zone: Zone, extended: bool, date_parts: int, time_parts: int)
    requires
        0 <= m.year < 10000,
        m.month < 100,
        m.day < 100,
        m.hour < 100,
        m.minute < 100,
        m.second < 100,
        is_writable(zone),
        zone != Zone::Local ==> time_parts >= 1,
    ensures
        filters_ast::iso_fields(
            four(m.year as int) + date_text(extended, m.month as int, m.day as int, date_parts)
                + time_text(
                extended,
                m.hour as int,
                m.minute as int,
                m.second as int,
                time_parts,
            ) + zone_text(extended, zone),
        ) matches Ok((got, got_zone, _)) && got_zone == zone && got == (Moment {
            year: m.year,
            month: if date_parts >= 1 {
                m.month
            } else {
                1
            },
            day: if date_parts >= 2 {
                m.day
            } else {
                1
            },
            hour: if time_parts >= 1 {
                m.hour
            } else {
                0
            },
            minute: if time_parts >= 2 {
                m.minute
            } else {
                0
            },
            second: if time_parts >= 3 {
                m.second
            } else {
                0
            },
        }),
{
    let zoned = zone_text(extended, zone);
    let time_of_day = time_text(
        extended,
        m.hour as int,
        m.minute as int,
        m.second as int,
        time_parts,
    );
    let time = time_of_day + zoned;
    let month_and_day = date_text(extended, m.month as int, m.day as int, date_parts);
    let date = month_and_day + time;
    let buf = four(m.year as int) + month_and_day + time_of_day + zoned;
    lemma_parts(four(m.year as int), month_and_day, time_of_day, zoned);
    lemma_starts(
        extended,
        m.hour as int,
        m.minute as int,
        m.second as int,
        time_parts,
        zone,
    );
    lemma_four(m.year as int, date, i32::MIN as int, i32::MAX as int);
    lemma_date(extended, m.month as int, m.day as int, date_parts, time);
    lemma_time(
        extended,
        m.hour as int,
        m.minute as int,
        m.second as int,
        time_parts,
        zoned,
    );
    lemma_zone(extended, zone);
    lemma_fields(
        buf,
        m.year as int,
        date,
        (
            if date_parts >= 1 {
                m.month as int
            } else {
                1
            },
            if date_parts >= 2 {
                m.day as int
            } else {
                1
            },
            time,
        ),
        (
            if time_parts >= 1 {
                m.hour as int
            } else {
                0
            },
            if time_parts >= 2 {
                m.minute as int
            } else {
                0
            },
            if time_parts >= 3 {
                m.second as int
            } else {
                0
            },
            zoned,
        ),
        (
            zone,
            if zone == Zone::Utc {
                seq![0x5au8]
            } else {
                Seq::empty()
            },
        ),
    );
}

proof fn lemma_parts(a: Seq<u8>, b: Seq<u8>, c: Seq<u8>, d: Seq<u8>)
    ensures
        a + b + c + d == a + (b + (c + d)),
{
    assert(a + b + c + d =~= a + (b + (c + d)));
}

/// What a time of day & a time zone start with.
proof fn lemma_starts(
    extended: bool,
    hour: int,
    minute: int,
    second: int,
    parts: int,
    zone: Zone,
)
    requires
        zone != Zone::Local ==> parts >= 1,
    ensures
        ({
            let zoned = zone_text(extended, zone);
            let time = time_text(extended, hour, minute, second, parts) + zoned;
            &&& zoned.len() == 0 || zoned[0] == 0x5a || zoned[0] == 0x2b || zoned[0] == 0x2d
            &&& parts <= 0 ==> zoned.len() == 0
            &&& time.len() == 0 || time[0] == 0x54
        }),
{
}

proof fn lemma_fields(
    buf: Seq<u8>,
    year: int,
    date: Seq<u8>,
    day: (int, int, Seq<u8>),
    time: (int, int, int, Seq<u8>),
    zone: (Zone, Seq<u8>),
)
    requires
        filters_ast::take_number(buf, 4, i32::MIN as int, i32::MAX as int) == Ok::<
            (int, Seq<u8>),
            Seq<u8>,
        >((year, date)),
        filters_ast::take_date(date) == Ok::<(int, int, Seq<u8>), Seq<u8>>(day),
        filters_ast::take_time(day.2) == Ok::<(int, int, int, Seq<u8>), Seq<u8>>(time),
        filters_ast::take_zone(time.3) == Ok::<(Zone, Seq<u8>), Seq<u8>>(zone),
    ensures
        filters_ast::iso_fields(buf) == Ok::<(Moment, Zone, Seq<u8>), Seq<u8>>(
            (
                Moment {
                    year: year as i32,
                    month: day.0 as u32,
                    day: day.1 as u32,
                    hour: time.0 as u32,
                    minute: time.1 as u32,
                    second: time.2 as u32,
                },
                zone.0,
                zone.1,
            ),
        ),
{
}

/// The timestamp that such a moment stands for is counted from the Unix epoch in UTC: a time zone that is
/// behind it adds to what the clock shows, & one that is ahead of it takes away.
pub proof fn law_iso_zones(m: Moment, zone: Zone, rest: Seq<u8>, t: Option<i64>)
    requires
        crate::calendar::is_valid(m),
        -9999 <= m.year <= 9999,
        zone matches Zone::West(seconds) ==> 0 <= seconds < 86400,
        zone matches Zone::East(seconds) ==> 0 <= seconds < 86400,
        zone != Zone::Local,
        filters_ast::iso_timestamp(Ok((m, zone, rest)), t),
    ensures
        filters_ast::iso_outcome(Ok((m, zone, rest)), t) matches Ok(got) && got == (
        crate::calendar::epoch_seconds(m) + match zone {
            Zone::West(seconds) => seconds as int,
            Zone::East(seconds) => -(seconds as int),
            _ => 0,
        }),
{
    match zone {
        Zone::West(seconds) => crate::calendar::law_clock(m, -(seconds as int)),
        Zone::East(seconds) => crate::calendar::law_clock(m, seconds as int),
        _ => crate::calendar::law_clock(m, 0),
    }
}

/// A number in a filter is that number; a text in quotes that is a timestamp in ISO 8601 format, with a
/// time zone, is that time, & a text that is no timestamp is that text.
pub proof fn law_values(
    n: usize,
    raw: Seq<char>,
    s: Seq<char>,
    m: Moment,
    zone: Zone,
    rest: Seq<u8>,
    v: ValueView,
)
    requires
        filters_ast::unquoted(raw) == Ok::<Seq<char>, filters_ast::ErrorView>(s),
    ensures
        filters::value_is(Tok::Uint(n), v) <==> v == ValueView::Uint(n),
        filters_ast::iso_fields(vstd::utf8::encode_utf8(s)) is Err ==> (filters::value_is(
            Tok::Quoted(raw),
            v,
        ) <==> v == ValueView::Text(s)),
        ({
            &&& filters_ast::iso_fields(vstd::utf8::encode_utf8(s)) == Ok::<
                (Moment, Zone, Seq<u8>),
                Seq<u8>,
            >((m, zone, rest))
            &&& crate::calendar::is_valid(m)
            &&& -9999 <= m.year <= 9999
            &&& zone matches Zone::West(seconds) ==> 0 <= seconds < 86400
            &&& zone matches Zone::East(seconds) ==> 0 <= seconds < 86400
            &&& zone != Zone::Local
        }) ==> (filters::value_is(Tok::Quoted(raw), v) <==> (v matches ValueView::UnixEpoch(t) && t
            == crate::calendar::epoch_seconds(m) + match zone {
            Zone::West(seconds) => seconds as int,
            Zone::East(seconds) => -(seconds as int),
            _ => 0,
        })),
{
    let fields = filters_ast::iso_fields(vstd::utf8::encode_utf8(s));
    match fields {
        Err(_) => {
            let none: Option<i64> = None;
            assert(filters_ast::iso_timestamp(fields, none));
        },
        Ok((m, zone, rest)) => {
            let t = match zone {
                Zone::West(seconds) => crate::calendar::timestamp_spec(m, -(seconds as int)),
                Zone::East(seconds) => crate::calendar::timestamp_spec(m, seconds as int),
                _ => crate::calendar::timestamp_spec(m, 0),
            };
            if zone != Zone::Local {
                assert(filters_ast::iso_timestamp(fields, t));
                if crate::calendar::is_valid(m) && -9999 <= m.year <= 9999 && (
                zone matches Zone::West(seconds) ==> 0 <= seconds < 86400) && (
                zone matches Zone::East(seconds) ==> 0 <= seconds < 86400) {
                    law_iso_zones(m, zone, rest, t);
                }
            }
        },
    }
}

/// A timestamp without a time zone is in the machine's own, whichever that is: no time that is less than a
/// day from what the clock shows in UTC is ruled out, & any other is.
pub proof fn law_local(m: Moment, rest: Seq<u8>, t: i64)
    ensures
        filters_ast::iso_timestamp(Ok((m, Zone::Local, rest)), Some(t)) <==> crate::calendar::is_valid(m)
            && -86400 < t - crate::calendar::epoch_seconds(m) < 86400,
        filters_ast::iso_timestamp(Ok((m, Zone::Local, rest)), None),
{
}

} // verus!
