//! What is asked of the server for a condition.

use vstd::prelude::*;

use crate::clients;
use crate::clients::Session;
use crate::fields;
use crate::filters;
use crate::filters::{Tok, Word};
use crate::filters_ast;
use crate::filters_ast::{Expression, OpCode, Selector, TermView, ValueView};
use crate::messages;
use crate::mppopm;
use crate::number;
use crate::quoting;
use crate::text;

verus! {

// ---------------------------------------------------------------------------------------------
// Words
// ---------------------------------------------------------------------------------------------

/// What sets a word apart from the others: its length, & some of its characters in lower case.
pub(crate) closed spec fn key(w: Word) -> (int, char, char, char, char) {
    match w {
        Word::Open => (1, '(', ' ', ' ', ' '),
        Word::Close => (1, ')', ' ', ' ', ' '),
        Word::Not => (1, '!', ' ', ' ', ' '),
        Word::And => (3, 'a', 'n', 'd', ' '),
        Word::Or => (2, 'o', 'r', ' ', ' '),
        Word::Op(OpCode::Equality) => (2, '=', '=', ' ', ' '),
        Word::Op(OpCode::Inequality) => (2, '!', '=', ' ', ' '),
        Word::Op(OpCode::Contains) => (8, 'c', 'o', 'n', ' '),
        Word::Op(OpCode::RegexMatch) => (2, '=', '~', ' ', ' '),
        Word::Op(OpCode::RegexExclude) => (2, '!', '~', ' ', ' '),
        Word::Op(OpCode::GreaterThan) => (1, '>', ' ', ' ', ' '),
        Word::Op(OpCode::LessThan) => (1, '<', ' ', ' ', ' '),
        Word::Op(OpCode::GreaterThanEqual) => (2, '>', '=', ' ', ' '),
        Word::Op(OpCode::LessThanEqual) => (2, '<', '=', ' ', ' '),
        Word::Sel(Selector::Artist) => (6, 'a', 'r', 't', ' '),
        Word::Sel(Selector::Album) => (5, 'a', 'l', 'b', ' '),
        Word::Sel(Selector::AlbumArtist) => (11, 'a', 'l', 'b', ' '),
        Word::Sel(Selector::Title) => (5, 't', 'i', 't', ' '),
        Word::Sel(Selector::Track) => (5, 't', 'r', 'a', ' '),
        Word::Sel(Selector::Name) => (4, 'n', 'a', 'm', ' '),
        Word::Sel(Selector::Genre) => (5, 'g', 'e', 'n', ' '),
        Word::Sel(Selector::Date) => (4, 'd', 'a', 't', ' '),
        Word::Sel(Selector::OriginalDate) => (12, 'o', 'r', 'i', ' '),
        Word::Sel(Selector::Composer) => (8, 'c', 'o', 'm', ' '),
        Word::Sel(Selector::Performer) => (9, 'p', 'e', 'r', ' '),
        Word::Sel(Selector::Conductor) => (9, 'c', 'o', 'n', ' '),
        Word::Sel(Selector::Work) => (4, 'w', 'o', 'r', ' '),
        Word::Sel(Selector::Grouping) => (8, 'g', 'r', 'o', ' '),
        Word::Sel(Selector::Comment) => (7, 'c', 'o', 'm', ' '),
        Word::Sel(Selector::Disc) => (4, 'd', 'i', 's', ' '),
        Word::Sel(Selector::Label) => (5, 'l', 'a', 'b', ' '),
        Word::Sel(Selector::MusicbrainzAristID) => (19, 'm', 'u', 's', 'i'),
        Word::Sel(Selector::MusicbrainzAlbumID) => (19, 'm', 'u', 's', 'b'),
        Word::Sel(Selector::MusicbrainzAlbumArtistID) => (25, 'm', 'u', 's', 'b'),
        Word::Sel(Selector::MusicbrainzTrackID) => (19, 'm', 'u', 's', 'a'),
        Word::Sel(Selector::MusicbrainzReleaseTrackID) => (26, 'm', 'u', 's', 'l'),
        Word::Sel(Selector::MusicbrainzWorkID) => (18, 'm', 'u', 's', 'r'),
        Word::Sel(Selector::File) => (4, 'f', 'i', 'l', ' '),
        Word::Sel(Selector::Base) => (4, 'b', 'a', 's', ' '),
        Word::Sel(Selector::ModifiedSince) => (14, 'm', 'o', 'd', ' '),
        Word::Sel(Selector::AudioFormat) => (11, 'a', 'u', 'd', ' '),
        Word::Sel(Selector::Rating) => (6, 'r', 'a', 't', ' '),
        Word::Sel(Selector::PlayCount) => (9, 'p', 'l', 'a', ' '),
        Word::Sel(Selector::LastPlayed) => (10, 'l', 'a', 's', ' '),
    }
}

/// The place of a word among all words.
spec fn place(w: Word) -> int {
    match w {
        Word::Open => 0,
        Word::Close => 1,
        Word::Not => 2,
        Word::And => 3,
        Word::Or => 4,
        Word::Op(OpCode::Equality) => 5,
        Word::Op(OpCode::Inequality) => 6,
        Word::Op(OpCode::Contains) => 7,
        Word::Op(OpCode::RegexMatch) => 8,
        Word::Op(OpCode::RegexExclude) => 9,
        Word::Op(OpCode::GreaterThan) => 10,
        Word::Op(OpCode::LessThan) => 11,
        Word::Op(OpCode::GreaterThanEqual) => 12,
        Word::Op(OpCode::LessThanEqual) => 13,
        Word::Sel(Selector::Artist) => 14,
        Word::Sel(Selector::Album) => 15,
        Word::Sel(Selector::AlbumArtist) => 16,
        Word::Sel(Selector::Title) => 17,
        Word::Sel(Selector::Track) => 18,
        Word::Sel(Selector::Name) => 19,
        Word::Sel(Selector::Genre) => 20,
        Word::Sel(Selector::Date) => 21,
        Word::Sel(Selector::OriginalDate) => 22,
        Word::Sel(Selector::Composer) => 23,
        Word::Sel(Selector::Performer) => 24,
        Word::Sel(Selector::Conductor) => 25,
        Word::Sel(Selector::Work) => 26,
        Word::Sel(Selector::Grouping) => 27,
        Word::Sel(Selector::Comment) => 28,
        Word::Sel(Selector::Disc) => 29,
        Word::Sel(Selector::Label) => 30,
        Word::Sel(Selector::MusicbrainzAristID) => 31,
        Word::Sel(Selector::MusicbrainzAlbumID) => 32,
        Word::Sel(Selector::MusicbrainzAlbumArtistID) => 33,
        Word::Sel(Selector::MusicbrainzTrackID) => 34,
        Word::Sel(Selector::MusicbrainzReleaseTrackID) => 35,
        Word::Sel(Selector::MusicbrainzWorkID) => 36,
        Word::Sel(Selector::File) => 37,
        Word::Sel(Selector::Base) => 38,
        Word::Sel(Selector::ModifiedSince) => 39,
        Word::Sel(Selector::AudioFormat) => 40,
        Word::Sel(Selector::Rating) => 41,
        Word::Sel(Selector::PlayCount) => 42,
        Word::Sel(Selector::LastPlayed) => 43,
    }
}

proof fn lemma_place(w: Word)
    ensures
        0 <= place(w) < filters::words().len(),
        filters::words()[place(w)] == w,
{
}

pub(crate) proof fn lemma_key(w: Word)
    ensures
        ({
            let t = filters::word_text(w);
            let k = key(w);
            &&& t.len() == k.0
            &&& 0 < t.len() < 27
            &&& text::ascii_lower(t[0]) == k.1
            &&& t.len() > 1 ==> text::ascii_lower(t[1]) == k.2
            &&& t.len() > 2 ==> text::ascii_lower(t[2]) == k.3
            &&& t.len() > 14 ==> text::ascii_lower(t[14]) == k.4
            &&& t.len() <= 1 ==> k.2 == ' '
            &&& t.len() <= 2 ==> k.3 == ' '
            &&& t.len() <= 14 ==> k.4 == ' '
        }),
{
    reveal_strlit("(");
    reveal_strlit(")");
    reveal_strlit("!");
    reveal_strlit("AND");
    reveal_strlit("OR");
    reveal_strlit("==");
    reveal_strlit("!=");
    reveal_strlit("contains");
    reveal_strlit("=~");
    reveal_strlit("!~");
    reveal_strlit(">");
    reveal_strlit("<");
    reveal_strlit(">=");
    reveal_strlit("<=");
    reveal_strlit("artist");
    reveal_strlit("album");
    reveal_strlit("albumartist");
    reveal_strlit("title");
    reveal_strlit("track");
    reveal_strlit("name");
    reveal_strlit("genre");
    reveal_strlit("date");
    reveal_strlit("originaldate");
    reveal_strlit("composer");
    reveal_strlit("performer");
    reveal_strlit("conductor");
    reveal_strlit("work");
    reveal_strlit("grouping");
    reveal_strlit("comment");
    reveal_strlit("disc");
    reveal_strlit("label");
    reveal_strlit("musicbrainz_aristid");
    reveal_strlit("musicbrainz_albumid");
    reveal_strlit("musicbrainz_albumartistid");
    reveal_strlit("musicbrainz_trackid");
    reveal_strlit("musicbrainz_releasetrackid");
    reveal_strlit("musicbrainz_workid");
    reveal_strlit("file");
    reveal_strlit("base");
    reveal_strlit("modified-since");
    reveal_strlit("AudioFormat");
    reveal_strlit("rating");
    reveal_strlit("playcount");
    reveal_strlit("lastplayed");
}

/// There are none but visible ASCII characters in a word.
pub(crate) proof fn lemma_visible(w: Word, k: int)
    requires
        0 <= k < filters::word_text(w).len(),
    ensures
        ' ' < filters::word_text(w)[k] <= '~',
{
    reveal_strlit("(");
    reveal_strlit(")");
    reveal_strlit("!");
    reveal_strlit("AND");
    reveal_strlit("OR");
    reveal_strlit("==");
    reveal_strlit("!=");
    reveal_strlit("contains");
    reveal_strlit("=~");
    reveal_strlit("!~");
    reveal_strlit(">");
    reveal_strlit("<");
    reveal_strlit(">=");
    reveal_strlit("<=");
    reveal_strlit("artist");
    reveal_strlit("album");
    reveal_strlit("albumartist");
    reveal_strlit("title");
    reveal_strlit("track");
    reveal_strlit("name");
    reveal_strlit("genre");
    reveal_strlit("date");
    reveal_strlit("originaldate");
    reveal_strlit("composer");
    reveal_strlit("performer");
    reveal_strlit("conductor");
    reveal_strlit("work");
    reveal_strlit("grouping");
    reveal_strlit("comment");
    reveal_strlit("disc");
    reveal_strlit("label");
    reveal_strlit("musicbrainz_aristid");
    reveal_strlit("musicbrainz_albumid");
    reveal_strlit("musicbrainz_albumartistid");
    reveal_strlit("musicbrainz_trackid");
    reveal_strlit("musicbrainz_releasetrackid");
    reveal_strlit("musicbrainz_workid");
    reveal_strlit("file");
    reveal_strlit("base");
    reveal_strlit("modified-since");
    reveal_strlit("AudioFormat");
    reveal_strlit("rating");
    reveal_strlit("playcount");
    reveal_strlit("lastplayed");
    lemma_key(w);
    assert(k == 0 || k == 1 || k == 2 || k == 3 || k == 4 || k == 5 || k == 6 || k == 7 || k == 8 || k
        == 9 || k == 10 || k == 11 || k == 12 || k == 13 || k == 14 || k == 15 || k == 16 || k == 17
        || k == 18 || k == 19 || k == 20 || k == 21 || k == 22 || k == 23 || k == 24 || k == 25 || k
        == 26);
}

proof fn lemma_distinct(v: Word, w: Word)
    requires
        key(v) == key(w),
    ensures
        v == w,
{
}

/// A word that is followed by a space, or is a parenthesis, is the token there.
pub(crate) proof fn lemma_word_token(s: Seq<char>, i: int, w: Word)
    requires
        0 <= i,
        ({
            let j = i + filters::word_text(w).len();
            &&& j <= s.len()
            &&& s.subrange(i, j) == filters::word_text(w)
            &&& w == Word::Open || w == Word::Close || j < s.len() && s[j] == ' ' || w == Word::Not && j
                < s.len() && s[j] == '('
        }),
    ensures
        filters::token_at(s, i) == Some((Tok::Word(w), i + filters::word_text(w).len())),
        text::word_from(s, i) == i,
{
    let t = filters::word_text(w);
    let n = t.len() as int;
    lemma_key(w);
    lemma_place(w);
    lemma_visible(w, 0);
    assert forall|k: int| 0 <= k < n implies #[trigger] s[i + k] == t[k] by {
        assert(s.subrange(i, i + n)[k] == t[k]);
    }
    assert(s[i] == s[i + 0]);
    assert(filters::matches_at(w, s, i)) by {
        assert forall|k: int| 0 <= k < t.len() implies filters::char_matches(
            w,
            #[trigger] s[i + k],
            t[k],
        ) by {}
    }
    filters::lemma_longest(s, i, filters::words().len() as int);
    assert(filters::matches_at(filters::words()[place(w)], s, i));
    let v = filters::longest(s, i, filters::words().len() as int)->0;
    let u = filters::word_text(v);
    lemma_key(v);
    assert(filters::char_matches(v, s[i + 0], u[0]));
    if w != Word::Open && w != Word::Close && u.len() > n {
        lemma_visible(v, n);
        assert(filters::char_matches(v, s[i + n], u[n]));
        if s[i + n] == '(' {
            lemma_no_parenthesis(v);
        }
    }
    if n > 1 {
        assert(filters::char_matches(v, s[i + 1], u[1]));
    }
    if n > 2 {
        assert(filters::char_matches(v, s[i + 2], u[2]));
    }
    if n > 14 {
        assert(filters::char_matches(v, s[i + 14], u[14]));
    }
    if w == Word::Open || w == Word::Close {
        lemma_parenthesis(v);
    }
    assert(key(v) == key(w));
    lemma_distinct(v, w);
    lemma_not_a_value(w);
}

proof fn lemma_parenthesis(v: Word)
    requires
        key(v).1 == '(' || key(v).1 == ')',
    ensures
        key(v).0 == 1,
{
}

/// No word has a closing parenthesis after its start.
pub(crate) proof fn lemma_no_closing(w: Word, k: int)
    requires
        0 < k < filters::word_text(w).len(),
    ensures
        filters::word_text(w)[k] != ')',
{
    reveal_strlit("(");
    reveal_strlit(")");
    reveal_strlit("!");
    reveal_strlit("AND");
    reveal_strlit("OR");
    reveal_strlit("==");
    reveal_strlit("!=");
    reveal_strlit("contains");
    reveal_strlit("=~");
    reveal_strlit("!~");
    reveal_strlit(">");
    reveal_strlit("<");
    reveal_strlit(">=");
    reveal_strlit("<=");
    reveal_strlit("artist");
    reveal_strlit("album");
    reveal_strlit("albumartist");
    reveal_strlit("title");
    reveal_strlit("track");
    reveal_strlit("name");
    reveal_strlit("genre");
    reveal_strlit("date");
    reveal_strlit("originaldate");
    reveal_strlit("composer");
    reveal_strlit("performer");
    reveal_strlit("conductor");
    reveal_strlit("work");
    reveal_strlit("grouping");
    reveal_strlit("comment");
    reveal_strlit("disc");
    reveal_strlit("label");
    reveal_strlit("musicbrainz_aristid");
    reveal_strlit("musicbrainz_albumid");
    reveal_strlit("musicbrainz_albumartistid");
    reveal_strlit("musicbrainz_trackid");
    reveal_strlit("musicbrainz_releasetrackid");
    reveal_strlit("musicbrainz_workid");
    reveal_strlit("file");
    reveal_strlit("base");
    reveal_strlit("modified-since");
    reveal_strlit("AudioFormat");
    reveal_strlit("rating");
    reveal_strlit("playcount");
    reveal_strlit("lastplayed");
    lemma_key(w);
    assert(k == 0 || k == 1 || k == 2 || k == 3 || k == 4 || k == 5 || k == 6 || k == 7 || k == 8 || k
        == 9 || k == 10 || k == 11 || k == 12 || k == 13 || k == 14 || k == 15 || k == 16 || k == 17
        || k == 18 || k == 19 || k == 20 || k == 21 || k == 22 || k == 23 || k == 24 || k == 25 || k
        == 26);
}

/// No word has a parenthesis in second place.
proof fn lemma_no_parenthesis(v: Word)
    ensures
        key(v).2 != '(',
{
}

/// No word starts like a value.
pub(crate) proof fn lemma_not_a_value(w: Word)
    ensures
        !number::is_digit(filters::word_text(w)[0]),
        filters::word_text(w)[0] != '"',
        filters::word_text(w)[0] != '\'',
{
    lemma_key(w);
}

// ---------------------------------------------------------------------------------------------
// Values
// ---------------------------------------------------------------------------------------------

/// The text that a value is compared with.
pub open spec fn value_text(v: ValueView) -> Seq<char> {
    match v {
        ValueView::Text(s) => s,
        ValueView::UnixEpoch(t) => number::signed_decimal(t as int),
        ValueView::Uint(n) => number::decimal(n as nat),
    }
}

/// Where a quote is closed does not depend on what is around it.
pub(crate) proof fn lemma_closing(s: Seq<char>, p: Seq<char>, raw: Seq<char>, rest: Seq<char>, i: int, quote: char)
    requires
        s == p + raw + rest,
        0 <= i <= raw.len(),
        filters::closing_quote(raw, i, quote) is Some,
    ensures
        filters::closing_quote(s, p.len() + i, quote) == Some(
            p.len() + filters::closing_quote(raw, i, quote)->0,
        ),
        i <= filters::closing_quote(raw, i, quote)->0 < raw.len(),
    decreases raw.len() - i,
{
    assert(s[p.len() + i] == raw[i]);
    if raw[i] != quote {
        if raw[i] == '\\' {
            lemma_closing(s, p, raw, rest, i + 2, quote);
        } else {
            lemma_closing(s, p, raw, rest, i + 1, quote);
        }
    }
}

/// An escaped text is closed by the quote after it.
proof fn lemma_escaped_closed(p: Seq<char>, x: Seq<char>)
    ensures
        filters::closing_quote(p + clients::escaped(x) + seq!['"'], p.len() as int, '"') == Some(
            p.len() + clients::escaped(x).len() as int,
        ),
    decreases x.len(),
{
    let s = p + clients::escaped(x) + seq!['"'];
    let i = p.len() as int;
    if x.len() == 0 {
        assert(clients::escaped(x) =~= Seq::empty());
        assert(s[i] == '"');
    } else {
        let c = x[0];
        let rest = x.drop_first();
        assert(seq![c] + rest =~= x);
        quoting::lemma_escaped_concat(seq![c], rest);
        reveal_with_fuel(clients::escaped, 2);
        assert(seq![c].drop_last() =~= Seq::<char>::empty());
        if c == '"' || c == '\\' {
            assert(clients::escaped(seq![c]) =~= seq!['\\', c]);
            let q = p + seq!['\\', c];
            lemma_escaped_closed(q, rest);
            assert(q + clients::escaped(rest) + seq!['"'] =~= s);
            assert(s[i] == '\\' && s[i + 1] == c);
        } else {
            assert(clients::escaped(seq![c]) =~= seq![c]);
            let q = p + seq![c];
            lemma_escaped_closed(q, rest);
            assert(q + clients::escaped(rest) + seq!['"'] =~= s);
            assert(s[i] == c);
        }
    }
}

/// A text without quotes or backslashes is closed by the quote after it, & stands for itself.
proof fn lemma_bare_closed(x: Seq<char>, i: int)
    requires
        0 <= i <= x.len(),
        forall|k: int| 0 <= k < x.len() ==> #[trigger] x[k] != '\'' && x[k] != '\\',
    ensures
        ({
            let raw = "'"@ + x + "'"@;
            &&& filters::closing_quote(raw, i + 1, '\'') == Some(raw.len() - 1)
            &&& filters_ast::unquoted_from(raw, i + 1, '\'') == Some(x.skip(i))
        }),
    decreases x.len() - i,
{
    reveal_strlit("'");
    let raw = "'"@ + x + "'"@;
    if i < x.len() {
        assert(raw[i + 1] == x[i]);
        lemma_bare_closed(x, i + 1);
        assert(seq![x[i]] + x.skip(i + 1) =~= x.skip(i));
    } else {
        assert(raw[i + 1] == '\'');
        assert(x.skip(i) =~= Seq::empty());
    }
}

/// A value is written as one token in quotes, which stands for its text.
proof fn lemma_value(v: ValueView)
    ensures
        ({
            let raw = filters_ast::quoted_value(v);
            &&& raw.len() >= 2
            &&& raw[0] == '"' || raw[0] == '\''
            &&& filters::closing_quote(raw, 1, raw[0]) == Some(raw.len() - 1)
            &&& filters_ast::unquoted(raw) == Ok::<Seq<char>, filters_ast::ErrorView>(
                value_text(v),
            )
        }),
{
    match v {
        ValueView::Text(x) => {
            lemma_escaped_closed(seq!['"'], x);
            quoting::law_quoted_value(x);
            assert(clients::in_quotes(x)[0] == '"');
        },
        _ => {
            let x = value_text(v);
            let n: int = match v {
                ValueView::UnixEpoch(t) => t as int,
                ValueView::Uint(n) => n as int,
                ValueView::Text(_) => 0,
            };
            let m: nat = if n < 0 {
                (-n) as nat
            } else {
                n as nat
            };
            number::lemma_decimal(m);
            assert forall|k: int| 0 <= k < x.len() implies #[trigger] x[k] != '\'' && x[k] != '\\' by {
                if n < 0 {
                    if k > 0 {
                        assert(x[k] == number::decimal(m)[k - 1]);
                        assert(number::is_digit(number::decimal(m)[k - 1]));
                    }
                } else {
                    assert(number::is_digit(number::decimal(m)[k]));
                }
            }
            lemma_bare_closed(x, 0);
            reveal_strlit("'");
            assert(x.skip(0) =~= x);
            assert(filters_ast::quoted_value(v)[0] == '\'');
        },
    }
}

// ---------------------------------------------------------------------------------------------
// Conditions
// ---------------------------------------------------------------------------------------------

/// A space is passed over.
proof fn lemma_space(s: Seq<char>, i: int)
    requires
        0 <= i < s.len() - 1,
        s[i] == ' ',
        !text::is_whitespace(s[i + 1]),
    ensures
        text::word_from(s, i) == i + 1,
{
    reveal_with_fuel(text::word_from, 2);
}

/// A word at an index after a space.
proof fn lemma_next_word(p: Seq<char>, w: Word, rest: Seq<char>)
    requires
        w == Word::Close || rest.len() > 0 && rest[0] == ' ',
    ensures
        ({
            let s = p + " "@ + filters::word_text(w) + rest;
            let i = p.len() as int;
            let j = i + 1 + filters::word_text(w).len();
            &&& text::word_from(s, i) == i + 1
            &&& filters::token_at(s, i + 1) == Some((Tok::Word(w), j))
        }),
{
    reveal_strlit(" ");
    let t = filters::word_text(w);
    let s = p + " "@ + t + rest;
    let i = p.len() as int;
    assert(s.subrange(i + 1, i + 1 + t.len()) =~= t);
    lemma_key(w);
    lemma_visible(w, 0);
    assert(s[i] == ' ');
    assert(s[i + 1] == t[0]);
    lemma_space(s, i);
    lemma_word_token(s, i + 1, w);
}

/// A value at an index after a space.
proof fn lemma_next_value(p: Seq<char>, v: ValueView, rest: Seq<char>)
    ensures
        ({
            let raw = filters_ast::quoted_value(v);
            let s = p + " "@ + raw + rest;
            let i = p.len() as int;
            &&& text::word_from(s, i) == i + 1
            &&& filters::token_at(s, i + 1) == Some((Tok::Quoted(raw), i + 1 + raw.len()))
        }),
{
    reveal_strlit(" ");
    let raw = filters_ast::quoted_value(v);
    let s = p + " "@ + raw + rest;
    let i = p.len() as int;
    lemma_value(v);
    assert(s[i] == ' ');
    assert(s[i + 1] == raw[0]);
    lemma_space(s, i);
    lemma_closing(s, p + " "@, raw, rest, 1, raw[0]);
    assert(s.subrange(i + 1, i + 1 + raw.len()) =~= raw);
}

/// How a condition is written.
spec fn written(t: TermView) -> Seq<char> {
    match t {
        TermView::UnaryCondition(attr, val) => "("@ + filters_ast::selector_text(attr) + " "@
            + filters_ast::quoted_value(val) + ")"@,
        TermView::BinaryCondition(attr, op, val) => "("@ + filters_ast::selector_text(attr) + " "@
            + filters_ast::op_text(op) + " "@ + filters_ast::quoted_value(val) + ")"@,
    }
}

/// The tokens that write a condition, in parentheses, the value being written as `raw`.
pub open spec fn condition_tokens(t: TermView, raw: Seq<char>) -> Seq<Tok> {
    match t {
        TermView::UnaryCondition(attr, _) => seq![
            Tok::Word(Word::Open),
            Tok::Word(Word::Sel(attr)),
            Tok::Quoted(raw),
            Tok::Word(Word::Close),
        ],
        TermView::BinaryCondition(attr, op, _) => seq![
            Tok::Word(Word::Open),
            Tok::Word(Word::Sel(attr)),
            Tok::Word(Word::Op(op)),
            Tok::Quoted(raw),
            Tok::Word(Word::Close),
        ],
    }
}

/// The value of a condition.
pub open spec fn value_in(t: TermView) -> ValueView {
    match t {
        TermView::UnaryCondition(_, val) => val,
        TermView::BinaryCondition(_, _, val) => val,
    }
}

/// Whether what there is from an index on are these tokens.
#[verifier::opaque]
pub(crate) open spec fn follow(s: Seq<char>, i: int, toks: Seq<Tok>) -> bool {
    let scan = filters::scan_from(s, i);
    scan.stop is None && filters::tokens_in(scan.lexemes) == toks
}

/// A token before the rest.
pub(crate) proof fn lemma_follow(s: Seq<char>, i: int, j: int, t: Tok, k: int, toks: Seq<Tok>)
    requires
        0 <= i,
        text::word_from(s, i) == j,
        filters::token_at(s, j) == Some((t, k)),
        i <= j < k <= s.len(),
        follow(s, k, toks),
    ensures
        follow(s, i, seq![t] + toks),
{
    reveal(follow);
    let l = filters::Lexeme { tok: t, start: j, end: k };
    assert(filters::tokens_in(seq![l] + filters::scan_from(s, k).lexemes) =~= seq![t]
        + filters::tokens_in(filters::scan_from(s, k).lexemes));
}

/// There is nothing after the end.
pub(crate) proof fn lemma_nothing_follows(s: Seq<char>)
    ensures
        follow(s, s.len() as int, Seq::empty()),
{
    reveal(follow);
    assert(filters::scan_from(s, s.len() as int).lexemes =~= Seq::empty());
    assert(filters::tokens_in(Seq::empty()) =~= Seq::<Tok>::empty());
}

/// What there is from the start on are the tokens of a text.
pub(crate) proof fn lemma_follow_all(s: Seq<char>, toks: Seq<Tok>)
    requires
        follow(s, 0, toks),
    ensures
        filters::tokens_of(s) == Some(toks),
{
    reveal(follow);
}

/// The parenthesis at the end.
proof fn lemma_last(p: Seq<char>)
    ensures
        follow(p + ")"@, p.len() as int, seq![Tok::Word(Word::Close)]),
{
    reveal_strlit(")");
    let s = p + ")"@;
    let i = p.len() as int;
    assert(s.subrange(i, i + 1) =~= ")"@);
    lemma_word_token(s, i, Word::Close);
    lemma_nothing_follows(s);
    lemma_follow(s, i, i, Tok::Word(Word::Close), i + 1, Seq::empty());
    assert(seq![Tok::Word(Word::Close)] + Seq::<Tok>::empty() =~= seq![Tok::Word(Word::Close)]);
}

/// A value & the parenthesis at the end.
proof fn lemma_value_tokens(p: Seq<char>, v: ValueView)
    ensures
        ({
            let raw = filters_ast::quoted_value(v);
            follow(
                p + " "@ + raw + ")"@,
                p.len() as int,
                seq![Tok::Quoted(raw), Tok::Word(Word::Close)],
            )
        }),
{
    reveal_strlit(" ");
    let raw = filters_ast::quoted_value(v);
    let s = p + " "@ + raw + ")"@;
    lemma_value(v);
    lemma_next_value(p, v, ")"@);
    lemma_last(p + " "@ + raw);
    let i = p.len() as int;
    lemma_follow(
        s,
        i,
        i + 1,
        Tok::Quoted(raw),
        i + 1 + raw.len(),
        seq![Tok::Word(Word::Close)],
    );
    assert(seq![Tok::Quoted(raw)] + seq![Tok::Word(Word::Close)] =~= seq![
        Tok::Quoted(raw),
        Tok::Word(Word::Close),
    ]);
}

/// An operation, a value & the parenthesis at the end.
proof fn lemma_op_tokens(p: Seq<char>, op: OpCode, v: ValueView)
    ensures
        ({
            let raw = filters_ast::quoted_value(v);
            follow(
                p + " "@ + filters_ast::op_text(op) + " "@ + raw + ")"@,
                p.len() as int,
                seq![Tok::Word(Word::Op(op)), Tok::Quoted(raw), Tok::Word(Word::Close)],
            )
        }),
{
    reveal_strlit(" ");
    let raw = filters_ast::quoted_value(v);
    let o = filters_ast::op_text(op);
    let s = p + " "@ + o + " "@ + raw + ")"@;
    let rest = " "@ + raw + ")"@;
    assert(filters::word_text(Word::Op(op)) == o);
    lemma_key(Word::Op(op));
    assert(s =~= p + " "@ + o + rest);
    lemma_next_word(p, Word::Op(op), rest);
    lemma_value_tokens(p + " "@ + o, v);
    let i = p.len() as int;
    let toks = seq![Tok::Quoted(raw), Tok::Word(Word::Close)];
    lemma_follow(s, i, i + 1, Tok::Word(Word::Op(op)), i + 1 + o.len(), toks);
    assert(seq![Tok::Word(Word::Op(op))] + toks =~= seq![
        Tok::Word(Word::Op(op)),
        Tok::Quoted(raw),
        Tok::Word(Word::Close),
    ]);
}

/// The parenthesis at the start, & an attribute.
proof fn lemma_attr_tokens(attr: Selector, rest: Seq<char>, toks: Seq<Tok>)
    requires
        rest.len() > 0,
        rest[0] == ' ',
        follow(
            "("@ + filters_ast::selector_text(attr) + rest,
            1 + filters_ast::selector_text(attr).len() as int,
            toks,
        ),
    ensures
        follow(
            "("@ + filters_ast::selector_text(attr) + rest,
            0,
            seq![Tok::Word(Word::Open), Tok::Word(Word::Sel(attr))] + toks,
        ),
{
    reveal_strlit("(");
    let sel = filters_ast::selector_text(attr);
    let s = "("@ + sel + rest;
    let j = 1 + sel.len() as int;
    lemma_key(Word::Sel(attr));
    assert(filters::word_text(Word::Sel(attr)) == sel);
    assert(s.subrange(1, j) =~= sel);
    assert(s[j] == ' ');
    lemma_word_token(s, 1, Word::Sel(attr));
    lemma_follow(s, 1, 1, Tok::Word(Word::Sel(attr)), j, toks);
    assert(s.subrange(0, 1) =~= "("@);
    assert(filters::word_text(Word::Open) == "("@);
    lemma_word_token(s, 0, Word::Open);
    lemma_follow(s, 0, 0, Tok::Word(Word::Open), 1, seq![Tok::Word(Word::Sel(attr))] + toks);
    assert(seq![Tok::Word(Word::Open)] + (seq![Tok::Word(Word::Sel(attr))] + toks) =~= seq![
        Tok::Word(Word::Open),
        Tok::Word(Word::Sel(attr)),
    ] + toks);
}

/// The tokens of a condition as it is written.
proof fn lemma_condition_tokens(t: TermView)
    ensures
        filters::tokens_of(written(t)) == Some(
            condition_tokens(t, filters_ast::quoted_value(value_in(t))),
        ),
        clients::needs_quotes(written(t)),
{
    reveal_strlit("(");
    reveal_strlit(" ");
    let s = written(t);
    let raw = filters_ast::quoted_value(value_in(t));
    match t {
        TermView::UnaryCondition(attr, val) => {
            let p = "("@ + filters_ast::selector_text(attr);
            let rest = " "@ + raw + ")"@;
            assert(s =~= p + rest);
            lemma_value_tokens(p, val);
            let toks = seq![Tok::Quoted(raw), Tok::Word(Word::Close)];
            lemma_attr_tokens(attr, rest, toks);
            assert(seq![Tok::Word(Word::Open), Tok::Word(Word::Sel(attr))] + toks
                =~= condition_tokens(t, raw));
            lemma_follow_all(s, condition_tokens(t, raw));
            assert(s[p.len() as int] == ' ');
            assert(clients::wants_quotes(s[p.len() as int]));
        },
        TermView::BinaryCondition(attr, op, val) => {
            let p = "("@ + filters_ast::selector_text(attr);
            let rest = " "@ + filters_ast::op_text(op) + " "@ + raw + ")"@;
            assert(s =~= p + rest);
            lemma_op_tokens(p, op, val);
            let toks = seq![Tok::Word(Word::Op(op)), Tok::Quoted(raw), Tok::Word(Word::Close)];
            lemma_attr_tokens(attr, rest, toks);
            assert(seq![Tok::Word(Word::Open), Tok::Word(Word::Sel(attr))] + toks
                =~= condition_tokens(t, raw));
            lemma_follow_all(s, condition_tokens(t, raw));
            assert(s[p.len() as int] == ' ');
            assert(clients::wants_quotes(s[p.len() as int]));
        },
    }
}

// ---------------------------------------------------------------------------------------------
// Laws
// ---------------------------------------------------------------------------------------------

/// Attributes & operations are written as MPD has them.
pub proof fn law_spelling()
    ensures
        filters_ast::selector_text(Selector::Artist) == "artist"@,
        filters_ast::selector_text(Selector::Album) == "album"@,
        filters_ast::selector_text(Selector::AlbumArtist) == "albumartist"@,
        filters_ast::selector_text(Selector::Title) == "title"@,
        filters_ast::selector_text(Selector::Track) == "track"@,
        filters_ast::selector_text(Selector::Name) == "name"@,
        filters_ast::selector_text(Selector::Genre) == "genre"@,
        filters_ast::selector_text(Selector::Date) == "date"@,
        filters_ast::selector_text(Selector::OriginalDate) == "originaldate"@,
        filters_ast::selector_text(Selector::Composer) == "composer"@,
        filters_ast::selector_text(Selector::Performer) == "performer"@,
        filters_ast::selector_text(Selector::Conductor) == "conductor"@,
        filters_ast::selector_text(Selector::Work) == "work"@,
        filters_ast::selector_text(Selector::Grouping) == "grouping"@,
        filters_ast::selector_text(Selector::Comment) == "comment"@,
        filters_ast::selector_text(Selector::Disc) == "disc"@,
        filters_ast::selector_text(Selector::Label) == "label"@,
        filters_ast::selector_text(Selector::MusicbrainzAristID) == "musicbrainz_aristid"@,
        filters_ast::selector_text(Selector::MusicbrainzAlbumID) == "musicbrainz_albumid"@,
        filters_ast::selector_text(Selector::MusicbrainzAlbumArtistID) == "musicbrainz_albumartistid"@,
        filters_ast::selector_text(Selector::MusicbrainzTrackID) == "musicbrainz_trackid"@,
        filters_ast::selector_text(Selector::MusicbrainzReleaseTrackID) == "musicbrainz_releasetrackid"@,
        filters_ast::selector_text(Selector::MusicbrainzWorkID) == "musicbrainz_workid"@,
        filters_ast::selector_text(Selector::File) == "file"@,
        filters_ast::selector_text(Selector::Base) == "base"@,
        filters_ast::selector_text(Selector::ModifiedSince) == "modified-since"@,
        filters_ast::selector_text(Selector::AudioFormat) == "AudioFormat"@,
        filters_ast::selector_text(Selector::Rating) == "rating"@,
        filters_ast::selector_text(Selector::PlayCount) == "playcount"@,
        filters_ast::selector_text(Selector::LastPlayed) == "lastplayed"@,
        filters_ast::op_text(OpCode::Equality) == "=="@,
        filters_ast::op_text(OpCode::Inequality) == "!="@,
        filters_ast::op_text(OpCode::Contains) == "contains"@,
        filters_ast::op_text(OpCode::RegexMatch) == "=~"@,
        filters_ast::op_text(OpCode::RegexExclude) == "!~"@,
        filters_ast::op_text(OpCode::GreaterThan) == ">"@,
        filters_ast::op_text(OpCode::LessThan) == "<"@,
        filters_ast::op_text(OpCode::GreaterThanEqual) == ">="@,
        filters_ast::op_text(OpCode::LessThanEqual) == "<="@,
{
}

/// Whether a condition is decided by the server, & not by stickers.
pub open spec fn is_searched(t: TermView) -> bool {
    match t {
        TermView::UnaryCondition(_, _) => true,
        TermView::BinaryCondition(attr, _, _) => attr != Selector::Rating && attr
            != Selector::PlayCount && attr != Selector::LastPlayed,
    }
}

/// Whether a request asks for the songs that a condition selects: it is "find" or, if case is not to be
/// heeded, "search", & its one argument is made of the tokens of a condition with the same attribute, the
/// same operation & a value that stands for the same text.
pub open spec fn asks_for(request: Seq<char>, t: TermView, case: bool) -> bool {
    messages::arguments_of(request) matches Ok(args) && {
        &&& args.len() == 2
        &&& args[0] == (if case {
            "find"@
        } else {
            "search"@
        })
        &&& exists|raw: Seq<char>|
            {
                &&& filters::tokens_of(args[1]) == Some(#[trigger] condition_tokens(t, raw))
                &&& filters_ast::unquoted(raw) == Ok::<Seq<char>, filters_ast::ErrorView>(
                    value_text(value_in(t)),
                )
            }
    }
}

/// The request for a condition.
spec fn condition_request(t: TermView, case: bool) -> Seq<char> {
    clients::find_word(case) + " "@ + clients::quoted(written(t))
}

proof fn lemma_condition_request(t: TermView, case: bool)
    ensures
        asks_for(condition_request(t, case), t, case),
{
    let word = clients::find_word(case);
    reveal_strlit("find");
    reveal_strlit("search");
    let filter = written(t);
    let args = seq![word, filter];
    lemma_condition_tokens(t);
    lemma_value(value_in(t));
    assert forall|i: int| 0 <= i < word.len() implies #[trigger] word[i] > ' '
        && !clients::wants_quotes(word[i]) by {}
    assert(quoting::carries(word));
    assert(!clients::needs_quotes(word));
    assert(quoting::carries(filter));
    quoting::law_quoted_arguments(args);
    reveal_with_fuel(mppopm::command_message, 3);
    assert(mppopm::command_message(args, 2) =~= word + " "@ + clients::quoted(filter));
    let raw = filters_ast::quoted_value(value_in(t));
    assert(filters::tokens_of(args[1]) == Some(condition_tokens(t, raw)));
}

/// What is asked of the server for a condition that it decides is the condition itself, in one request.
pub proof fn law_condition_asked(
    t: TermView,
    case: bool,
    names: filters_ast::NamesView,
    s: Session,
)
    requires
        is_searched(t),
    ensures
        ({
            let after = filters_ast::term_spec(t, case, names, s).1;
            &&& after.server == s.server
            &&& after.sent.len() == s.sent.len() + 1
            &&& after.sent.drop_last() == s.sent
            &&& asks_for(after.sent.last(), t, case)
        }),
{
    lemma_condition_request(t, case);
    let after = filters_ast::term_spec(t, case, names, s).1;
    assert(after.sent == s.sent.push(condition_request(t, case)));
    assert(after.sent.drop_last() =~= s.sent);
}

/// What is asked of the server for a condition is read as a filter with the same attribute, the same
/// operation & the same value, if that is text; unless the text is a timestamp, which a filter takes as
/// such.
pub proof fn law_condition_read_back(
    request: Seq<char>,
    t: TermView,
    x: Seq<char>,
    case: bool,
    e: Expression,
)
    requires
        asks_for(request, t, case),
        value_in(t) == ValueView::Text(x),
        filters_ast::iso_fields(vstd::utf8::encode_utf8(x)) is Err,
        filters::is_filter(messages::arguments_of(request)->Ok_0[1], e),
    ensures
        e matches Expression::Simple(term) && term.deep_view() == t,
{
    let filter = messages::arguments_of(request)->Ok_0[1];
    let raw = choose|raw: Seq<char>|
        {
            &&& filters::tokens_of(filter) == Some(#[trigger] condition_tokens(t, raw))
            &&& filters_ast::unquoted(raw) == Ok::<Seq<char>, filters_ast::ErrorView>(
                value_text(value_in(t)),
            )
        };
    let toks = condition_tokens(t, raw);
    assert(filters::is_writing(toks, e));
    assert(toks[1] is Word && toks[1]->Word_0 is Sel);
    match e {
        Expression::Simple(term) => {
            assert(filters::writes_term(toks, 1, *term));
        },
        Expression::Negation(_) => {},
        Expression::Conjunction(c) => {
            filters::lemma_conj_opens(toks, 1, *c);
        },
        Expression::Disjunction(d) => {
            filters::lemma_disj_opens(toks, 1, *d);
        },
    }
}

/// Conditions that differ in their attribute, their operation or the text of their value, or in whether case is
/// heeded, are asked for differently.
pub proof fn law_conditions_told_apart(
    request: Seq<char>,
    a: TermView,
    b: TermView,
    a_case: bool,
    b_case: bool,
)
    requires
        asks_for(request, a, a_case),
        asks_for(request, b, b_case),
    ensures
        a_case == b_case,
        value_text(value_in(a)) == value_text(value_in(b)),
        match (a, b) {
            (TermView::UnaryCondition(p, _), TermView::UnaryCondition(q, _)) => p == q,
            (TermView::BinaryCondition(p, f, _), TermView::BinaryCondition(q, g, _)) => p == q && f
                == g,
            _ => false,
        },
{
    reveal_strlit("find");
    reveal_strlit("search");
    assert("find"@.len() == 4 && "search"@.len() == 6);
    let filter = messages::arguments_of(request)->Ok_0[1];
    let v = choose|raw: Seq<char>|
        {
            &&& filters::tokens_of(filter) == Some(#[trigger] condition_tokens(a, raw))
            &&& filters_ast::unquoted(raw) == Ok::<Seq<char>, filters_ast::ErrorView>(
                value_text(value_in(a)),
            )
        };
    let w = choose|raw: Seq<char>|
        {
            &&& filters::tokens_of(filter) == Some(#[trigger] condition_tokens(b, raw))
            &&& filters_ast::unquoted(raw) == Ok::<Seq<char>, filters_ast::ErrorView>(
                value_text(value_in(b)),
            )
        };
    let (x, y) = (condition_tokens(a, v), condition_tokens(b, w));
    assert(x == y);
    assert(x.len() == y.len());
    assert(x[1] == y[1] && x[2] == y[2]);
    if x.len() == 5 {
        assert(x[3] == y[3]);
    }
}

/// The name of an attribute, in letters of either case, with a space after it, is the token there.
pub proof fn law_attribute_in_any_case(s: Seq<char>, i: int, attr: Selector)
    requires
        0 <= i,
        ({
            let name = filters_ast::selector_text(attr);
            let j = i + name.len();
            &&& j < s.len()
            &&& s[j] == ' '
            &&& forall|k: int|
                0 <= k < name.len() ==> text::ascii_lower(#[trigger] s[i + k]) == text::ascii_lower(
                    name[k],
                )
        }),
    ensures
        filters::token_at(s, i) == Some(
            (Tok::Word(Word::Sel(attr)), i + filters_ast::selector_text(attr).len()),
        ),
{
    let w = Word::Sel(attr);
    let t = filters::word_text(w);
    let n = t.len() as int;
    lemma_key(w);
    lemma_place(w);
    assert(s[i] == s[i + 0]);
    assert(text::ascii_lower(s[i]) == key(w).1);
    assert(filters::matches_at(w, s, i)) by {
        assert forall|k: int| 0 <= k < t.len() implies filters::char_matches(
            w,
            #[trigger] s[i + k],
            t[k],
        ) by {}
    }
    filters::lemma_longest(s, i, filters::words().len() as int);
    assert(filters::matches_at(filters::words()[place(w)], s, i));
    let v = filters::longest(s, i, filters::words().len() as int)->0;
    let u = filters::word_text(v);
    lemma_key(v);
    assert(filters::char_matches(v, s[i + 0], u[0]));
    if u.len() > n {
        lemma_visible(v, n);
        assert(filters::char_matches(v, s[i + n], u[n]));
    }
    if n > 1 {
        assert(filters::char_matches(v, s[i + 1], u[1]));
    }
    if n > 2 {
        assert(filters::char_matches(v, s[i + 2], u[2]));
    }
    if n > 14 {
        assert(filters::char_matches(v, s[i + 14], u[14]));
    }
    assert(key(v) == key(w));
    lemma_distinct(v, w);
    lemma_letter_first(attr);
}

proof fn lemma_letter_first(attr: Selector)
    ensures
        'a' <= key(Word::Sel(attr)).1 <= 'z',
{
}

/// A number in base ten is the token there, up to the first character that is no digit.
pub proof fn law_number_token(s: Seq<char>, i: int, n: usize)
    requires
        0 <= i,
        ({
            let j = i + number::decimal(n as nat).len();
            &&& j <= s.len()
            &&& s.subrange(i, j) == number::decimal(n as nat)
            &&& j < s.len() ==> !number::is_digit(s[j])
        }),
    ensures
        filters::token_at(s, i) == Some((Tok::Uint(n), i + number::decimal(n as nat).len())),
{
    let digits = number::decimal(n as nat);
    let j = i + digits.len();
    number::lemma_decimal(n as nat);
    number::law_parsed_decimal(n as nat, usize::MAX as int);
    assert forall|k: int| i <= k < j implies '0' <= #[trigger] s[k] <= '9' by {
        assert(s.subrange(i, j)[k - i] == s[k]);
        assert(number::is_digit(digits[k - i]));
    }
    fields::lemma_digits_end(s, i, j);
}

/// Whitespace before a token, or after the last one, does not matter.
pub proof fn law_whitespace_between(s: Seq<char>, i: int)
    requires
        0 <= i < s.len(),
        text::is_whitespace(s[i]),
    ensures
        filters::scan_from(s, i) == filters::scan_from(s, i + 1),
{
    reveal_with_fuel(text::word_from, 2);
    lemma_word_from(s, i + 1);
}

proof fn lemma_word_from(s: Seq<char>, i: int)
    requires
        0 <= i <= s.len(),
    ensures
        i <= text::word_from(s, i) <= s.len(),
    decreases s.len() - i,
{
    if i < s.len() {
        lemma_word_from(s, i + 1);
    }
}

} // verus!
