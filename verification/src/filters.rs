//! The filter grammar.
//!
//! A filter is a condition on a song in parentheses, or filters combined:
//!
//! ```text
//! Expression := "(" Term ")"
//!             | "(" "!" Expression ")"
//!             | "(" Expression ("AND" Expression)+ ")"
//!             | "(" Expression ("OR" Expression)+ ")"
//!
//! Term       := Selector Value
//!             | Selector Operation Value
//! ```
//!
//! A value is an unsigned integer, or text in single or double quotes; text that is a timestamp in ISO
//! 8601 format stands for that timestamp. Attributes may be written in any case.

use vstd::prelude::*;

use crate::fields;
use crate::filters_ast;
use crate::filters_ast::{Conjunction, Disjunction, Expression, OpCode, Selector, Term, Value, ValueView};
use crate::number;
use crate::text;

verus! {

// ---------------------------------------------------------------------------------------------
// Tokens
// ---------------------------------------------------------------------------------------------

/// The tokens that are always written the same
#[derive(Clone, Copy, Debug, PartialEq, Eq, Structural)]
pub enum Word {
    Open,
    Close,
    Not,
    And,
    Or,
    Op(OpCode),
    Sel(Selector),
}

/// How a word is written.
pub open spec fn word_text(w: Word) -> Seq<char> {
    match w {
        Word::Open => "("@,
        Word::Close => ")"@,
        Word::Not => "!"@,
        Word::And => "AND"@,
        Word::Or => "OR"@,
        Word::Op(op) => filters_ast::op_text(op),
        Word::Sel(selector) => filters_ast::selector_text(selector),
    }
}

/// All words.
pub open spec fn words() -> Seq<Word> {
    seq![
        Word::Open,
        Word::Close,
        Word::Not,
        Word::And,
        Word::Or,
        Word::Op(OpCode::Equality),
        Word::Op(OpCode::Inequality),
        Word::Op(OpCode::Contains),
        Word::Op(OpCode::RegexMatch),
        Word::Op(OpCode::RegexExclude),
        Word::Op(OpCode::GreaterThan),
        Word::Op(OpCode::LessThan),
        Word::Op(OpCode::GreaterThanEqual),
        Word::Op(OpCode::LessThanEqual),
        Word::Sel(Selector::Artist),
        Word::Sel(Selector::Album),
        Word::Sel(Selector::AlbumArtist),
        Word::Sel(Selector::Title),
        Word::Sel(Selector::Track),
        Word::Sel(Selector::Name),
        Word::Sel(Selector::Genre),
        Word::Sel(Selector::Date),
        Word::Sel(Selector::OriginalDate),
        Word::Sel(Selector::Composer),
        Word::Sel(Selector::Performer),
        Word::Sel(Selector::Conductor),
        Word::Sel(Selector::Work),
        Word::Sel(Selector::Grouping),
        Word::Sel(Selector::Comment),
        Word::Sel(Selector::Disc),
        Word::Sel(Selector::Label),
        Word::Sel(Selector::MusicbrainzAristID),
        Word::Sel(Selector::MusicbrainzAlbumID),
        Word::Sel(Selector::MusicbrainzAlbumArtistID),
        Word::Sel(Selector::MusicbrainzTrackID),
        Word::Sel(Selector::MusicbrainzReleaseTrackID),
        Word::Sel(Selector::MusicbrainzWorkID),
        Word::Sel(Selector::File),
        Word::Sel(Selector::Base),
        Word::Sel(Selector::ModifiedSince),
        Word::Sel(Selector::AudioFormat),
        Word::Sel(Selector::Rating),
        Word::Sel(Selector::PlayCount),
        Word::Sel(Selector::LastPlayed),
    ]
}

/// Whether `c` may be written for the character `t` of a word.
pub open spec fn char_matches(w: Word, c: char, t: char) -> bool {
    c == t || (w is Sel && text::ascii_lower(c) == text::ascii_lower(t))
}

/// Whether `s` holds a word at index `i`.
pub open spec fn matches_at(w: Word, s: Seq<char>, i: int) -> bool {
    let t = word_text(w);
    &&& i + t.len() <= s.len()
    &&& forall|k: int| 0 <= k < t.len() ==> char_matches(w, #[trigger] s[i + k], t[k])
}

/// The longest of the first `n` words that `s` holds at index `i`.
pub open spec fn longest(s: Seq<char>, i: int, n: int) -> Option<Word>
    decreases n,
{
    if n <= 0 {
        None
    } else {
        let w = words()[n - 1];
        let best = longest(s, i, n - 1);
        if matches_at(w, s, i) && (best is None || word_text(w).len() > word_text(best->0).len()) {
            Some(w)
        } else {
            best
        }
    }
}

/// A token
#[derive(Debug)]
pub enum Token {
    /// A word
    Word(Word),
    /// An unsigned integer
    Uint(usize),
    /// Text in quotes, with the quotes
    Quoted(String),
}

/// A [`Token`], as a mathematical value.
pub enum Tok {
    Word(Word),
    Uint(usize),
    Quoted(Seq<char>),
}

impl DeepView for Token {
    type V = Tok;

    open spec fn deep_view(&self) -> Tok {
        match self {
            Token::Word(w) => Tok::Word(*w),
            Token::Uint(n) => Tok::Uint(*n),
            Token::Quoted(s) => Tok::Quoted(s@),
        }
    }
}

/// The index of the first closing quote from `i` on; a character after a backslash is none.
pub open spec fn closing_quote(s: Seq<char>, i: int, quote: char) -> Option<int>
    decreases s.len() - i,
{
    if i < 0 || i >= s.len() {
        None
    } else if s[i] == quote {
        Some(i)
    } else if s[i] == '\\' {
        if i + 1 >= s.len() {
            None
        } else {
            closing_quote(s, i + 2, quote)
        }
    } else {
        closing_quote(s, i + 1, quote)
    }
}

/// The token at index `i`, & the index after it.
pub open spec fn token_at(s: Seq<char>, i: int) -> Option<(Tok, int)> {
    if s[i] == '\'' || s[i] == '"' {
        match closing_quote(s, i + 1, s[i]) {
            Some(j) => Some((Tok::Quoted(s.subrange(i, j + 1)), j + 1)),
            None => None,
        }
    } else if number::is_digit(s[i]) {
        let j = fields::digits_end(s, i);
        match number::parsed(s.subrange(i, j), 0, usize::MAX as int) {
            Ok(n) => Some((Tok::Uint(n as usize), j)),
            Err(_) => None,
        }
    } else {
        match longest(s, i, words().len() as int) {
            Some(w) => Some((Tok::Word(w), i + word_text(w).len())),
            None => None,
        }
    }
}

/// A token in a text, with the index of its first character & the index after its last one.
pub struct Lexeme {
    pub tok: Tok,
    pub start: int,
    pub end: int,
}

/// What a text is made of: the tokens up to the first index, if any, at which there is none.
pub struct Scan {
    pub lexemes: Seq<Lexeme>,
    pub stop: Option<int>,
}

/// What `s` is made of from index `i` on. There may be whitespace between tokens.
pub open spec fn scan_from(s: Seq<char>, i: int) -> Scan
    decreases s.len() - i,
{
    let j = text::word_from(s, i);
    if i < 0 || j < i || j >= s.len() {
        Scan { lexemes: Seq::empty(), stop: None }
    } else {
        match token_at(s, j) {
            Some((t, k)) if j < k <= s.len() => lexeme_then(
                Lexeme { tok: t, start: j, end: k },
                scan_from(s, k),
            ),
            _ => Scan { lexemes: Seq::empty(), stop: Some(j) },
        }
    }
}

/// A token before the rest of the tokens.
pub open spec fn lexeme_then(l: Lexeme, rest: Scan) -> Scan {
    Scan { lexemes: seq![l] + rest.lexemes, stop: rest.stop }
}

/// The tokens themselves.
pub open spec fn tokens_in(lexemes: Seq<Lexeme>) -> Seq<Tok> {
    lexemes.map_values(|l: Lexeme| l.tok)
}

/// The tokens of a text, if it is made of tokens.
pub open spec fn tokens_of(s: Seq<char>) -> Option<Seq<Tok>> {
    let scan = scan_from(s, 0);
    match scan.stop {
        None => Some(tokens_in(scan.lexemes)),
        Some(_) => None,
    }
}

// ---------------------------------------------------------------------------------------------
// Errors
// ---------------------------------------------------------------------------------------------

/// Why a text is not a filter; places are counted in bytes
#[derive(Debug)]
pub enum ParseError {
    /// There is no token at this place
    InvalidToken { location: usize },
    /// The text ends too early; its last token ends at this place
    UnrecognizedEof { location: usize },
    /// No filter goes on with this token
    UnrecognizedToken { token: String, start: usize, end: usize },
}

/// A [`ParseError`], as a mathematical value.
pub enum FaultView {
    InvalidToken { location: nat },
    UnrecognizedEof { location: nat },
    UnrecognizedToken { token: Seq<char>, start: nat, end: nat },
}

impl DeepView for ParseError {
    type V = FaultView;

    open spec fn deep_view(&self) -> FaultView {
        match self {
            ParseError::InvalidToken { location } => FaultView::InvalidToken {
                location: *location as nat,
            },
            ParseError::UnrecognizedEof { location } => FaultView::UnrecognizedEof {
                location: *location as nat,
            },
            ParseError::UnrecognizedToken { token, start, end } => FaultView::UnrecognizedToken {
                token: token@,
                start: *start as nat,
                end: *end as nat,
            },
        }
    }
}

/// The words in which an error is reported. What might have stood there instead is not listed.
pub open spec fn error_message(e: FaultView) -> Seq<char> {
    match e {
        FaultView::InvalidToken { location } => "Invalid token at "@ + number::decimal(location),
        FaultView::UnrecognizedEof { location } => "Unrecognized EOF found at "@ + number::decimal(
            location,
        ),
        FaultView::UnrecognizedToken { token, start, end } => "Unrecognized token `"@ + token
            + "` found at "@ + (number::decimal(start) + ":"@ + number::decimal(end)),
    }
}

impl ParseError {
    /// The words in which the error is reported.
    pub fn message(&self) -> (r: String)
        ensures
            r@ == error_message(self.deep_view()),
    {
        match self {
            ParseError::InvalidToken { location } => text::join2(
                "Invalid token at ",
                number::write_usize(*location).as_str(),
            ),
            ParseError::UnrecognizedEof { location } => text::join2(
                "Unrecognized EOF found at ",
                number::write_usize(*location).as_str(),
            ),
            ParseError::UnrecognizedToken { token, start, end } => {
                let place = text::join3(
                    number::write_usize(*start).as_str(),
                    ":",
                    number::write_usize(*end).as_str(),
                );
                let found = text::join3("Unrecognized token `", token.as_str(), "` found at ");
                text::join2(found.as_str(), place.as_str())
            },
        }
    }
}

/// How many of the tokens can be taken, the first `n` having been: the start of what can be parsed is told by
/// `starts`.
pub open spec fn reach(t: Seq<Tok>, starts: spec_fn(Seq<Tok>) -> bool, n: int) -> int
    decreases t.len() - n,
{
    if 0 <= n < t.len() && starts(t.take(n + 1)) {
        reach(t, starts, n + 1)
    } else {
        n
    }
}

/// The number of bytes before index `i`.
pub open spec fn bytes_before(s: Seq<char>, i: int) -> nat {
    text::byte_count(s.take(i))
}

/// Why `s` cannot be parsed: the first token with which nothing that can be parsed goes on, or else the place
/// at which there is no token, or else that the text ends too early. `starts` tells what is the start of
/// something that can be parsed.
pub open spec fn fault(s: Seq<char>, starts: spec_fn(Seq<Tok>) -> bool) -> FaultView {
    let scan = scan_from(s, 0);
    let n = reach(tokens_in(scan.lexemes), starts, 0);
    if n < scan.lexemes.len() {
        let l = scan.lexemes[n];
        FaultView::UnrecognizedToken {
            token: s.subrange(l.start, l.end),
            start: bytes_before(s, l.start),
            end: bytes_before(s, l.end),
        }
    } else {
        match scan.stop {
            Some(at) => FaultView::InvalidToken { location: bytes_before(s, at) },
            None => FaultView::UnrecognizedEof {
                location: if scan.lexemes.len() == 0 {
                    0
                } else {
                    bytes_before(s, scan.lexemes.last().end)
                },
            },
        }
    }
}

// ---------------------------------------------------------------------------------------------
// Tokenizing
// ---------------------------------------------------------------------------------------------

/// All words.
fn all_words() -> (r: Vec<Word>)
    ensures
        r@ == words(),
{
    vec![
        Word::Open,
        Word::Close,
        Word::Not,
        Word::And,
        Word::Or,
        Word::Op(OpCode::Equality),
        Word::Op(OpCode::Inequality),
        Word::Op(OpCode::Contains),
        Word::Op(OpCode::RegexMatch),
        Word::Op(OpCode::RegexExclude),
        Word::Op(OpCode::GreaterThan),
        Word::Op(OpCode::LessThan),
        Word::Op(OpCode::GreaterThanEqual),
        Word::Op(OpCode::LessThanEqual),
        Word::Sel(Selector::Artist),
        Word::Sel(Selector::Album),
        Word::Sel(Selector::AlbumArtist),
        Word::Sel(Selector::Title),
        Word::Sel(Selector::Track),
        Word::Sel(Selector::Name),
        Word::Sel(Selector::Genre),
        Word::Sel(Selector::Date),
        Word::Sel(Selector::OriginalDate),
        Word::Sel(Selector::Composer),
        Word::Sel(Selector::Performer),
        Word::Sel(Selector::Conductor),
        Word::Sel(Selector::Work),
        Word::Sel(Selector::Grouping),
        Word::Sel(Selector::Comment),
        Word::Sel(Selector::Disc),
        Word::Sel(Selector::Label),
        Word::Sel(Selector::MusicbrainzAristID),
        Word::Sel(Selector::MusicbrainzAlbumID),
        Word::Sel(Selector::MusicbrainzAlbumArtistID),
        Word::Sel(Selector::MusicbrainzTrackID),
        Word::Sel(Selector::MusicbrainzReleaseTrackID),
        Word::Sel(Selector::MusicbrainzWorkID),
        Word::Sel(Selector::File),
        Word::Sel(Selector::Base),
        Word::Sel(Selector::ModifiedSince),
        Word::Sel(Selector::AudioFormat),
        Word::Sel(Selector::Rating),
        Word::Sel(Selector::PlayCount),
        Word::Sel(Selector::LastPlayed),
    ]
}

impl Word {
    /// How the word is written.
    pub fn text(&self) -> (r: &'static str)
        ensures
            r@ == word_text(*self),
    {
        match self {
            Word::Open => "(",
            Word::Close => ")",
            Word::Not => "!",
            Word::And => "AND",
            Word::Or => "OR",
            Word::Op(op) => op.text(),
            Word::Sel(selector) => selector.text(),
        }
    }
}

/// An ASCII letter in lower case; any other character as it is.
fn to_lower(c: char) -> (r: char)
    ensures
        r == text::ascii_lower(c),
{
    if 'A' <= c && c <= 'Z' {
        ((c as u8) + 0x20) as char
    } else {
        c
    }
}

/// Whether `v` holds a word at index `i`.
fn word_matches(w: Word, v: &[char], i: usize) -> (r: bool)
    requires
        i <= v@.len(),
    ensures
        r == matches_at(w, v@, i as int),
{
    let t = text::chars_of(w.text());
    let n: usize = v.len();
    if t.len() > n - i {
        return false;
    }
    let folds: bool = match w {
        Word::Sel(_) => true,
        _ => false,
    };
    let mut k: usize = 0;
    while k < t.len()
        invariant
            t@ == word_text(w),
            folds == (w is Sel),
            n == v@.len(),
            i + t@.len() <= n,
            k <= t@.len(),
            forall|j: int| 0 <= j < k ==> char_matches(w, #[trigger] v@[i + j], t@[j]),
        decreases t@.len() - k,
    {
        let c = v[i + k];
        if !(c == t[k] || (folds && to_lower(c) == to_lower(t[k]))) {
            assert(!char_matches(w, v@[i + k], t@[k as int]));
            return false;
        }
        k = k + 1;
    }
    true
}

/// The longest word that `v` holds at index `i`.
fn longest_word(v: &[char], i: usize) -> (r: Option<Word>)
    requires
        i <= v@.len(),
    ensures
        r == longest(v@, i as int, words().len() as int),
{
    let all = all_words();
    let mut best: Option<Word> = None;
    let mut best_len: usize = 0;
    let mut n: usize = 0;
    while n < all.len()
        invariant
            all@ == words(),
            i <= v@.len(),
            n <= all@.len(),
            best == longest(v@, i as int, n as int),
            best is Some ==> best_len == word_text(best->0).len(),
        decreases all@.len() - n,
    {
        let w = all[n];
        if word_matches(w, v, i) {
            let len: usize = text::chars_of(w.text()).len();
            if best.is_none() || len > best_len {
                best = Some(w);
                best_len = len;
            }
        }
        n = n + 1;
    }
    best
}

/// The index of the first closing quote from `from` on.
fn find_closing_quote(v: &[char], from: usize, quote: char) -> (r: Option<usize>)
    requires
        from <= v@.len(),
    ensures
        (match r {
            Some(j) => Some(j as int),
            None => None,
        }) == closing_quote(v@, from as int, quote),
        r is Some ==> from <= r->0 < v@.len(),
{
    let mut i: usize = from;
    while i < v.len()
        invariant
            from <= i <= v@.len(),
            closing_quote(v@, from as int, quote) == closing_quote(v@, i as int, quote),
        decreases v@.len() - i,
    {
        if v[i] == quote {
            return Some(i);
        }
        if v[i] == '\\' {
            if v.len() - i < 2 {
                return None;
            }
            i = i + 2;
        } else {
            i = i + 1;
        }
    }
    None
}

/// The token at index `i`, & the index after it.
fn next_token(v: &[char], i: usize) -> (r: Option<(Token, usize)>)
    requires
        i < v@.len(),
    ensures
        (match r {
            Some((t, j)) => Some((t.deep_view(), j as int)),
            None => None,
        }) == token_at(v@, i as int),
        r is Some ==> i <= (r->0).1 <= v@.len(),
{
    if v[i] == '\'' || v[i] == '"' {
        match find_closing_quote(v, i + 1, v[i]) {
            Some(j) => Some((Token::Quoted(text::slice_of(v, i, j + 1)), j + 1)),
            None => None,
        }
    } else if '0' <= v[i] && v[i] <= '9' {
        let j: usize = fields::skip_digits(v, i);
        let digits = text::slice_of(v, i, j);
        match number::parse_usize(digits.as_str()) {
            Ok(n) => Some((Token::Uint(n), j)),
            Err(_) => None,
        }
    } else {
        match longest_word(v, i) {
            Some(w) => {
                proof {
                    lemma_longest(v@, i as int, words().len() as int);
                }
                let len: usize = text::chars_of(w.text()).len();
                Some((Token::Word(w), i + len))
            },
            None => None,
        }
    }
}

/// The longest word at an index is there, and no longer one is.
pub proof fn lemma_longest(s: Seq<char>, i: int, n: int)
    requires
        n <= words().len(),
    ensures
        match longest(s, i, n) {
            Some(w) => {
                &&& matches_at(w, s, i)
                &&& forall|k: int|
                    0 <= k < n && #[trigger] matches_at(words()[k], s, i) ==> word_text(
                        words()[k],
                    ).len() <= word_text(w).len()
            },
            None => forall|k: int| 0 <= k < n ==> !#[trigger] matches_at(words()[k], s, i),
        },
    decreases n,
{
    if n > 0 {
        lemma_longest(s, i, n - 1);
    }
}

/// Tokens, as mathematical values.
pub open spec fn toks(v: Seq<Token>) -> Seq<Tok> {
    v.map_values(|t: Token| t.deep_view())
}

/// What a text is made of
struct Scanned {
    /// The tokens
    tokens: Vec<Token>,
    /// The index of the first character of each token, & the index after its last one
    spans: Vec<(usize, usize)>,
    /// The index at which there is no token
    stop: Option<usize>,
}

impl Scanned {
    /// Whether this is what a scan gives.
    spec fn is(&self, scan: Scan) -> bool {
        &&& self.holds(scan.lexemes)
        &&& scan.stop == (match self.stop {
            Some(at) => Some(at as int),
            None => None,
        })
    }

    /// Whether these are the tokens.
    spec fn holds(&self, lexemes: Seq<Lexeme>) -> bool {
        &&& self.tokens@.len() == self.spans@.len() == lexemes.len()
        &&& toks(self.tokens@) == tokens_in(lexemes)
        &&& forall|i: int|
            #![trigger self.spans@[i]]
            #![trigger lexemes[i]]
            0 <= i < lexemes.len() ==> self.spans@[i].0 == lexemes[i].start && self.spans@[i].1
                == lexemes[i].end
    }
}

/// The tokens of a text are within it.
proof fn lemma_spans(s: Seq<char>, i: int)
    requires
        0 <= i <= s.len(),
    ensures
        ({
            let scan = scan_from(s, i);
            &&& forall|k: int|
                0 <= k < scan.lexemes.len() ==> 0 <= (#[trigger] scan.lexemes[k]).start
                    < scan.lexemes[k].end <= s.len()
            &&& scan.stop matches Some(at) ==> 0 <= at < s.len()
        }),
    decreases s.len() - i,
{
    let j = text::word_from(s, i);
    if !(j < i || j >= s.len()) {
        if let Some((_, k)) = token_at(s, j) {
            if j < k <= s.len() {
                lemma_spans(s, k);
            }
        }
    }
}

/// What the characters are made of.
fn scan(v: &[char]) -> (r: Scanned)
    ensures
        r.is(scan_from(v@, 0)),
{
    let mut r = Scanned { tokens: Vec::new(), spans: Vec::new(), stop: None };
    let mut i: usize = 0;
    let ghost whole = scan_from(v@, 0);
    let ghost mut done: Seq<Lexeme> = Seq::empty();
    assert(toks(r.tokens@) =~= tokens_in(done));
    assert(done + whole.lexemes =~= whole.lexemes);
    loop
        invariant
            i <= v@.len(),
            whole == scan_from(v@, 0),
            whole == (Scan {
                lexemes: done + scan_from(v@, i as int).lexemes,
                stop: scan_from(v@, i as int).stop,
            }),
            r.holds(done),
            r.stop is None,
        decreases v@.len() - i,
    {
        let j: usize = text::skip_whitespace(v, i);
        if j >= v.len() {
            assert(done + Seq::empty() =~= done);
            return r;
        }
        match next_token(v, j) {
            Some((t, k)) => {
                if k <= j {
                    assert(done + Seq::empty() =~= done);
                    r.stop = Some(j);
                    return r;
                }
                let ghost l = Lexeme { tok: t.deep_view(), start: j as int, end: k as int };
                let ghost before = r;
                let ghost before_done = done;
                r.tokens.push(t);
                r.spans.push((j, k));
                proof {
                    assert(done + (seq![l] + scan_from(v@, k as int).lexemes) =~= done.push(l)
                        + scan_from(v@, k as int).lexemes);
                    done = done.push(l);
                    assert(toks(r.tokens@) =~= toks(before.tokens@).push(l.tok));
                    assert(tokens_in(done) =~= tokens_in(done.drop_last()).push(l.tok));
                    assert(done.drop_last() =~= before_done);
                }
                i = k;
            },
            None => {
                assert(done + Seq::empty() =~= done);
                r.stop = Some(j);
                return r;
            },
        }
    }
}

/// The number of bytes before index `i`.
fn count_bytes_before(v: &[char], i: usize) -> (r: usize)
    requires
        i <= v@.len(),
    ensures
        r == bytes_before(v@, i as int),
{
    assert(v@.subrange(0, i as int) =~= v@.take(i as int));
    text::byte_len(text::slice_of(v, 0, i).as_str())
}

/// Why the characters cannot be parsed, the first `n` tokens being all that can be taken.
fn fault_at(
    v: &[char],
    scanned: &Scanned,
    n: usize,
    Ghost(starts): Ghost<spec_fn(Seq<Tok>) -> bool>,
) -> (r: ParseError)
    requires
        scanned.is(scan_from(v@, 0)),
        n == reach(tokens_in(scan_from(v@, 0).lexemes), starts, 0),
    ensures
        r.deep_view() == fault(v@, starts),
{
    let ghost whole = scan_from(v@, 0);
    proof {
        lemma_spans(v@, 0);
    }
    if n < scanned.spans.len() {
        assert(whole.lexemes[n as int].start >= 0);
        let (start, end) = scanned.spans[n];
        return ParseError::UnrecognizedToken {
            token: text::slice_of(v, start, end),
            start: count_bytes_before(v, start),
            end: count_bytes_before(v, end),
        };
    }
    match scanned.stop {
        Some(at) => ParseError::InvalidToken { location: count_bytes_before(v, at) },
        None => {
            let location: usize = if scanned.spans.len() == 0 {
                0
            } else {
                let last: usize = scanned.spans.len() - 1;
                assert(whole.lexemes[last as int].start >= 0);
                count_bytes_before(v, scanned.spans[last].1)
            };
            ParseError::UnrecognizedEof { location }
        },
    }
}

// ---------------------------------------------------------------------------------------------
// Grammar
// ---------------------------------------------------------------------------------------------

/// Whether there is a word at index `i`.
pub open spec fn word_is(t: Seq<Tok>, i: int, w: Word) -> bool {
    0 <= i < t.len() && t[i] == Tok::Word(w)
}

/// Whether a token writes a value.
pub open spec fn is_value(tok: Tok) -> bool {
    match tok {
        Tok::Uint(_) => true,
        Tok::Quoted(raw) => filters_ast::unquoted(raw) is Ok,
        Tok::Word(_) => false,
    }
}

/// The value that a text stands for, if it has the timestamp `t` in ISO 8601 format.
pub open spec fn text_value(
    s: Seq<char>,
    fields: Result<(crate::calendar::Moment, filters_ast::Zone, Seq<u8>), Seq<u8>>,
    t: Option<i64>,
) -> ValueView {
    match filters_ast::iso_outcome(fields, t) {
        Ok(t) => ValueView::UnixEpoch(t),
        Err(_) => ValueView::Text(s),
    }
}

/// Whether a token writes a value that is `v`: the number, or what the text in quotes stands for.
pub open spec fn value_is(tok: Tok, v: ValueView) -> bool {
    match tok {
        Tok::Uint(n) => v == ValueView::Uint(n),
        Tok::Quoted(raw) => match filters_ast::unquoted(raw) {
            Ok(s) => {
                let fields = filters_ast::iso_fields(vstd::utf8::encode_utf8(s));
                exists|t: Option<i64>| #[trigger]
                    filters_ast::iso_timestamp(fields, t) && v == text_value(s, fields, t)
            },
            Err(_) => false,
        },
        Tok::Word(_) => false,
    }
}

/// The number of tokens that a term is written with.
pub open spec fn term_width(t: Term) -> int {
    match t {
        Term::UnaryCondition(_, _) => 2,
        Term::BinaryCondition(_, _, _) => 3,
    }
}

/// Whether the tokens from index `i` on write a term.
pub open spec fn writes_term(t: Seq<Tok>, i: int, term: Term) -> bool {
    match term {
        Term::UnaryCondition(attr, val) => {
            &&& word_is(t, i, Word::Sel(attr))
            &&& i + 1 < t.len()
            &&& value_is(t[i + 1], val.deep_view())
        },
        Term::BinaryCondition(attr, op, val) => {
            &&& word_is(t, i, Word::Sel(attr))
            &&& word_is(t, i + 1, Word::Op(op))
            &&& i + 2 < t.len()
            &&& value_is(t[i + 2], val.deep_view())
        },
    }
}

/// The number of tokens that an expression is written with.
pub open spec fn width(e: Expression) -> int
    decreases e,
{
    match e {
        Expression::Simple(t) => 2 + term_width(*t),
        Expression::Negation(e) => 3 + width(*e),
        Expression::Conjunction(c) => 2 + conj_width(*c),
        Expression::Disjunction(d) => 2 + disj_width(*d),
    }
}

/// The number of tokens that a conjunction is written with, without its parentheses.
pub open spec fn conj_width(c: Conjunction) -> int
    decreases c,
{
    match c {
        Conjunction::Simple(l, r) => width(*l) + 1 + width(*r),
        Conjunction::Compound(c, e) => conj_width(*c) + 1 + width(*e),
    }
}

/// The number of tokens that a disjunction is written with, without its parentheses.
pub open spec fn disj_width(d: Disjunction) -> int
    decreases d,
{
    match d {
        Disjunction::Simple(l, r) => width(*l) + 1 + width(*r),
        Disjunction::Compound(d, e) => disj_width(*d) + 1 + width(*e),
    }
}

/// Whether the tokens from index `i` on write an expression.
pub open spec fn writes(t: Seq<Tok>, i: int, e: Expression) -> bool
    decreases e,
{
    &&& word_is(t, i, Word::Open)
    &&& word_is(t, i + width(e) - 1, Word::Close)
    &&& match e {
        Expression::Simple(term) => writes_term(t, i + 1, *term),
        Expression::Negation(e) => word_is(t, i + 1, Word::Not) && writes(t, i + 2, *e),
        Expression::Conjunction(c) => writes_conj(t, i + 1, *c),
        Expression::Disjunction(d) => writes_disj(t, i + 1, *d),
    }
}

/// Whether the tokens from index `i` on write a conjunction, without its parentheses.
pub open spec fn writes_conj(t: Seq<Tok>, i: int, c: Conjunction) -> bool
    decreases c,
{
    match c {
        Conjunction::Simple(l, r) => {
            &&& writes(t, i, *l)
            &&& word_is(t, i + width(*l), Word::And)
            &&& writes(t, i + width(*l) + 1, *r)
        },
        Conjunction::Compound(c, e) => {
            &&& writes_conj(t, i, *c)
            &&& word_is(t, i + conj_width(*c), Word::And)
            &&& writes(t, i + conj_width(*c) + 1, *e)
        },
    }
}

/// Whether the tokens from index `i` on write a disjunction, without its parentheses.
pub open spec fn writes_disj(t: Seq<Tok>, i: int, d: Disjunction) -> bool
    decreases d,
{
    match d {
        Disjunction::Simple(l, r) => {
            &&& writes(t, i, *l)
            &&& word_is(t, i + width(*l), Word::Or)
            &&& writes(t, i + width(*l) + 1, *r)
        },
        Disjunction::Compound(d, e) => {
            &&& writes_disj(t, i, *d)
            &&& word_is(t, i + disj_width(*d), Word::Or)
            &&& writes(t, i + disj_width(*d) + 1, *e)
        },
    }
}

/// Whether the tokens, all of them, write an expression.
pub open spec fn is_writing(t: Seq<Tok>, e: Expression) -> bool {
    writes(t, 0, e) && width(e) == t.len()
}

/// Whether the tokens, all of them, write a term.
pub open spec fn is_term_writing(t: Seq<Tok>, term: Term) -> bool {
    writes_term(t, 0, term) && term_width(term) == t.len()
}

/// Whether a text is made of tokens that write an expression.
pub open spec fn is_filter(s: Seq<char>, e: Expression) -> bool {
    match tokens_of(s) {
        Some(t) => is_writing(t, e),
        None => false,
    }
}

/// Whether a text is made of tokens that write a term.
pub open spec fn is_term(s: Seq<char>, term: Term) -> bool {
    match tokens_of(s) {
        Some(t) => is_term_writing(t, term),
        None => false,
    }
}

/// Whether a text is made of the one token that writes an operation.
pub open spec fn is_op(s: Seq<char>, op: OpCode) -> bool {
    tokens_of(s) == Some(op_tokens(op))
}

/// The tokens that write an operation.
pub open spec fn op_tokens(op: OpCode) -> Seq<Tok> {
    seq![Tok::Word(Word::Op(op))]
}

/// Whether tokens are the start of an expression, or all of it.
pub open spec fn starts_filter(p: Seq<Tok>) -> bool {
    exists|t: Seq<Tok>, e: Expression| #[trigger] is_writing(t, e) && p.is_prefix_of(t)
}

/// Whether tokens are the start of a term, or all of it.
pub open spec fn starts_term(p: Seq<Tok>) -> bool {
    exists|t: Seq<Tok>, term: Term| #[trigger] is_term_writing(t, term) && p.is_prefix_of(t)
}

/// Whether tokens are the start of an operation, or all of it.
pub open spec fn starts_op(p: Seq<Tok>) -> bool {
    exists|op: OpCode| p.is_prefix_of(#[trigger] op_tokens(op))
}

/// Why a text is not a filter.
pub open spec fn filter_fault(s: Seq<char>) -> FaultView {
    fault(s, |p: Seq<Tok>| starts_filter(p))
}

/// Why a text is not a term.
pub open spec fn term_fault(s: Seq<char>) -> FaultView {
    fault(s, |p: Seq<Tok>| starts_term(p))
}

/// Why a text is not an operation.
pub open spec fn op_fault(s: Seq<char>) -> FaultView {
    fault(s, |p: Seq<Tok>| starts_op(p))
}

/// The index after the term at index `i`; or else the first index at which there is nothing that a term goes
/// on with.
spec fn term_end(t: Seq<Tok>, i: int) -> Result<int, int> {
    if !(0 <= i < t.len() && t[i] is Word && t[i]->Word_0 is Sel) {
        Err(i)
    } else if i + 1 >= t.len() {
        Err(i + 1)
    } else if is_value(t[i + 1]) {
        Ok(i + 2)
    } else if !(t[i + 1] is Word && t[i + 1]->Word_0 is Op) {
        Err(i + 1)
    } else if i + 2 < t.len() && is_value(t[i + 2]) {
        Ok(i + 3)
    } else {
        Err(i + 2)
    }
}

/// The index after the closing parenthesis at index `j`.
spec fn closed_at(t: Seq<Tok>, j: int) -> Result<int, int> {
    if word_is(t, j, Word::Close) {
        Ok(j + 1)
    } else {
        Err(j)
    }
}

/// The index after the expression at index `i`; or else the first index at which there is nothing that an
/// expression goes on with.
spec fn expr_end(t: Seq<Tok>, i: int) -> Result<int, int>
    decreases t.len() - i,
{
    if !word_is(t, i, Word::Open) {
        Err(i)
    } else if word_is(t, i + 1, Word::Not) {
        match expr_end(t, i + 2) {
            Ok(j) => closed_at(t, j),
            Err(k) => Err(k),
        }
    } else if word_is(t, i + 1, Word::Open) {
        match expr_end(t, i + 1) {
            Ok(j) => if i + 1 < j && word_is(t, j, Word::And) {
                list_end(t, j, Word::And)
            } else if i + 1 < j && word_is(t, j, Word::Or) {
                list_end(t, j, Word::Or)
            } else {
                Err(j)
            },
            Err(k) => Err(k),
        }
    } else {
        match term_end(t, i + 1) {
            Ok(j) => closed_at(t, j),
            Err(k) => Err(k),
        }
    }
}

/// The index after the list of expressions, each with the operator before it, at index `j`, & the closing
/// parenthesis; or else the first index at which there is nothing that the list goes on with.
spec fn list_end(t: Seq<Tok>, j: int, op: Word) -> Result<int, int>
    decreases t.len() - j,
{
    if !word_is(t, j, op) {
        Err(j)
    } else {
        match expr_end(t, j + 1) {
            Ok(k) => if !(j < k <= t.len()) {
                Err(k)
            } else if word_is(t, k, Word::Close) {
                Ok(k + 1)
            } else {
                list_end(t, k, op)
            },
            Err(k) => Err(k),
        }
    }
}

/// An expression takes at least four tokens.
pub(crate) proof fn lemma_width(e: Expression)
    ensures
        width(e) >= 4,
    decreases e,
{
    match e {
        Expression::Simple(_) => {},
        Expression::Negation(e) => lemma_width(*e),
        Expression::Conjunction(c) => lemma_conj_width(*c),
        Expression::Disjunction(d) => lemma_disj_width(*d),
    }
}

pub(crate) proof fn lemma_conj_width(c: Conjunction)
    ensures
        conj_width(c) >= 9,
    decreases c,
{
    match c {
        Conjunction::Simple(l, r) => {
            lemma_width(*l);
            lemma_width(*r);
        },
        Conjunction::Compound(c, e) => {
            lemma_conj_width(*c);
            lemma_width(*e);
        },
    }
}

pub(crate) proof fn lemma_disj_width(d: Disjunction)
    ensures
        disj_width(d) >= 9,
    decreases d,
{
    match d {
        Disjunction::Simple(l, r) => {
            lemma_width(*l);
            lemma_width(*r);
        },
        Disjunction::Compound(d, e) => {
            lemma_disj_width(*d);
            lemma_width(*e);
        },
    }
}

/// An expression that is written somewhere is found there.
proof fn lemma_expr_end(t: Seq<Tok>, i: int, e: Expression)
    requires
        writes(t, i, e),
    ensures
        expr_end(t, i) == Ok::<int, int>(i + width(e)),
    decreases e,
{
    lemma_width(e);
    match e {
        Expression::Simple(term) => {},
        Expression::Negation(e) => {
            lemma_expr_end(t, i + 2, *e);
        },
        Expression::Conjunction(c) => {
            lemma_conj_end(t, i + 1, *c);
        },
        Expression::Disjunction(d) => {
            lemma_disj_end(t, i + 1, *d);
        },
    }
}

/// A conjunction or a disjunction that is written somewhere starts with a parenthesis.
pub(crate) proof fn lemma_conj_opens(t: Seq<Tok>, i: int, c: Conjunction)
    requires
        writes_conj(t, i, c),
    ensures
        word_is(t, i, Word::Open),
    decreases c,
{
    match c {
        Conjunction::Simple(l, _) => {
            assert(writes(t, i, *l));
        },
        Conjunction::Compound(c, _) => lemma_conj_opens(t, i, *c),
    }
}

pub(crate) proof fn lemma_disj_opens(t: Seq<Tok>, i: int, d: Disjunction)
    requires
        writes_disj(t, i, d),
    ensures
        word_is(t, i, Word::Open),
    decreases d,
{
    match d {
        Disjunction::Simple(l, _) => {
            assert(writes(t, i, *l));
        },
        Disjunction::Compound(d, _) => lemma_disj_opens(t, i, *d),
    }
}

/// A conjunction that is written somewhere starts with an expression, which is followed by the list of
/// the others; whatever the list goes on to end in, it ends there.
proof fn lemma_conj_end(t: Seq<Tok>, i: int, c: Conjunction)
    requires
        writes_conj(t, i, c),
    ensures
        word_is(t, i, Word::Open),
        ({
            let j = i + conj_width(c);
            match expr_end(t, i) {
                Ok(k) => {
                    &&& i < k < j
                    &&& word_is(t, k, Word::And)
                    &&& word_is(t, j, Word::Close) ==> list_end(t, k, Word::And) == Ok::<int, int>(j + 1)
                    &&& word_is(t, j, Word::And) ==> list_end(t, k, Word::And) == list_end(
                        t,
                        j,
                        Word::And,
                    )
                },
                Err(_) => false,
            }
        }),
    decreases c,
{
    match c {
        Conjunction::Simple(l, r) => {
            lemma_width(*l);
            lemma_width(*r);
            lemma_expr_end(t, i, *l);
            lemma_expr_end(t, i + width(*l) + 1, *r);
        },
        Conjunction::Compound(c, e) => {
            lemma_conj_width(*c);
            lemma_width(*e);
            lemma_conj_end(t, i, *c);
            lemma_expr_end(t, i + conj_width(*c) + 1, *e);
        },
    }
}

proof fn lemma_disj_end(t: Seq<Tok>, i: int, d: Disjunction)
    requires
        writes_disj(t, i, d),
    ensures
        word_is(t, i, Word::Open),
        ({
            let j = i + disj_width(d);
            match expr_end(t, i) {
                Ok(k) => {
                    &&& i < k < j
                    &&& word_is(t, k, Word::Or)
                    &&& word_is(t, j, Word::Close) ==> list_end(t, k, Word::Or) == Ok::<int, int>(j + 1)
                    &&& word_is(t, j, Word::Or) ==> list_end(t, k, Word::Or) == list_end(
                        t,
                        j,
                        Word::Or,
                    )
                },
                Err(_) => false,
            }
        }),
    decreases d,
{
    match d {
        Disjunction::Simple(l, r) => {
            lemma_width(*l);
            lemma_width(*r);
            lemma_expr_end(t, i, *l);
            lemma_expr_end(t, i + width(*l) + 1, *r);
        },
        Disjunction::Compound(d, e) => {
            lemma_disj_width(*d);
            lemma_width(*e);
            lemma_disj_end(t, i, *d);
            lemma_expr_end(t, i + disj_width(*d) + 1, *e);
        },
    }
}

// ---------------------------------------------------------------------------------------------
// Starts of expressions
// ---------------------------------------------------------------------------------------------

/// Whether the first `n` tokens are the same.
spec fn agree(t: Seq<Tok>, u: Seq<Tok>, n: int) -> bool {
    &&& n <= t.len()
    &&& n <= u.len()
    &&& forall|k: int| 0 <= k < n ==> #[trigger] t[k] == u[k]
}

/// What is found at an index depends on the tokens up to where it ends, or goes wrong.
proof fn lemma_term_local(t: Seq<Tok>, u: Seq<Tok>, i: int, n: int)
    requires
        0 <= i,
        agree(t, u, n),
    ensures
        match term_end(t, i) {
            Ok(j) => j <= n ==> term_end(u, i) == Ok::<int, int>(j),
            Err(k) => k < n ==> term_end(u, i) == Err::<int, int>(k),
        },
{
}

proof fn lemma_local(t: Seq<Tok>, u: Seq<Tok>, i: int, n: int)
    requires
        0 <= i,
        agree(t, u, n),
    ensures
        match expr_end(t, i) {
            Ok(j) => i < j <= t.len() && (j <= n ==> expr_end(u, i) == Ok::<int, int>(j)),
            Err(k) => i <= k && (i <= t.len() ==> k <= t.len()) && (k < n ==> expr_end(u, i) == Err::<
                int,
                int,
            >(k)),
        },
    decreases t.len() - i,
{
    if word_is(t, i, Word::Open) {
        if word_is(t, i + 1, Word::Not) {
            lemma_local(t, u, i + 2, n);
        } else if word_is(t, i + 1, Word::Open) {
            lemma_local(t, u, i + 1, n);
            if let Ok(j) = expr_end(t, i + 1) {
                if word_is(t, j, Word::And) {
                    lemma_list_local(t, u, j, Word::And, n);
                } else if word_is(t, j, Word::Or) {
                    lemma_list_local(t, u, j, Word::Or, n);
                }
            }
        } else {
            lemma_term_local(t, u, i + 1, n);
        }
    }
}

proof fn lemma_list_local(t: Seq<Tok>, u: Seq<Tok>, j: int, op: Word, n: int)
    requires
        0 <= j,
        agree(t, u, n),
    ensures
        match list_end(t, j, op) {
            Ok(k) => j < k <= t.len() && (k <= n ==> list_end(u, j, op) == Ok::<int, int>(k)),
            Err(k) => j <= k && (j <= t.len() ==> k <= t.len()) && (k < n ==> list_end(u, j, op)
                == Err::<int, int>(k)),
        },
    decreases t.len() - j,
{
    if word_is(t, j, op) {
        lemma_local(t, u, j + 1, n);
        if let Ok(k) = expr_end(t, j + 1) {
            if !word_is(t, k, Word::Close) {
                lemma_list_local(t, u, k, op, n);
            }
        }
    }
}

/// An expression is written by the tokens that it takes.
proof fn lemma_writes_local(t: Seq<Tok>, u: Seq<Tok>, i: int, e: Expression)
    requires
        0 <= i,
        writes(t, i, e),
        agree(t, u, i + width(e)),
    ensures
        writes(u, i, e),
    decreases e,
{
    lemma_width(e);
    match e {
        Expression::Simple(_) => {},
        Expression::Negation(e) => {
            lemma_width(*e);
            lemma_writes_local(t, u, i + 2, *e);
        },
        Expression::Conjunction(c) => {
            lemma_conj_width(*c);
            lemma_conj_local(t, u, i + 1, *c);
        },
        Expression::Disjunction(d) => {
            lemma_disj_width(*d);
            lemma_disj_local(t, u, i + 1, *d);
        },
    }
}

proof fn lemma_conj_local(t: Seq<Tok>, u: Seq<Tok>, i: int, c: Conjunction)
    requires
        0 <= i,
        writes_conj(t, i, c),
        agree(t, u, i + conj_width(c)),
    ensures
        writes_conj(u, i, c),
    decreases c,
{
    match c {
        Conjunction::Simple(l, r) => {
            lemma_width(*l);
            lemma_width(*r);
            lemma_writes_local(t, u, i, *l);
            lemma_writes_local(t, u, i + width(*l) + 1, *r);
        },
        Conjunction::Compound(c, e) => {
            lemma_conj_width(*c);
            lemma_width(*e);
            lemma_conj_local(t, u, i, *c);
            lemma_writes_local(t, u, i + conj_width(*c) + 1, *e);
        },
    }
}

proof fn lemma_disj_local(t: Seq<Tok>, u: Seq<Tok>, i: int, d: Disjunction)
    requires
        0 <= i,
        writes_disj(t, i, d),
        agree(t, u, i + disj_width(d)),
    ensures
        writes_disj(u, i, d),
    decreases d,
{
    match d {
        Disjunction::Simple(l, r) => {
            lemma_width(*l);
            lemma_width(*r);
            lemma_writes_local(t, u, i, *l);
            lemma_writes_local(t, u, i + width(*l) + 1, *r);
        },
        Disjunction::Compound(d, e) => {
            lemma_disj_width(*d);
            lemma_width(*e);
            lemma_disj_local(t, u, i, *d);
            lemma_writes_local(t, u, i + disj_width(*d) + 1, *e);
        },
    }
}

/// Whether tokens that agree with `t` up to index `k` write, from index `i` on, an expression.
spec fn goes_on(t: Seq<Tok>, i: int, k: int) -> bool {
    exists|u: Seq<Tok>, e: Expression| #[trigger] ends_in(t, u, i, k, e)
}

/// Whether the tokens `u` agree with `t` up to index `k`, & write an expression from index `i` on.
spec fn ends_in(t: Seq<Tok>, u: Seq<Tok>, i: int, k: int, e: Expression) -> bool {
    &&& agree(t, u, k)
    &&& writes(u, i, e)
    &&& u.len() == i + width(e)
}

/// The same of a term.
spec fn term_goes_on(t: Seq<Tok>, i: int, k: int) -> bool {
    exists|u: Seq<Tok>, term: Term| #[trigger] term_ends_in(t, u, i, k, term)
}

spec fn term_ends_in(t: Seq<Tok>, u: Seq<Tok>, i: int, k: int, term: Term) -> bool {
    &&& agree(t, u, k)
    &&& writes_term(u, i, term)
    &&& u.len() == i + term_width(term)
}

/// The same of a conjunction & its closing parenthesis.
spec fn conj_goes_on(t: Seq<Tok>, i: int, k: int) -> bool {
    exists|u: Seq<Tok>, c: Conjunction| #[trigger] conj_ends_in(t, u, i, k, c)
}

spec fn conj_ends_in(t: Seq<Tok>, u: Seq<Tok>, i: int, k: int, c: Conjunction) -> bool {
    &&& agree(t, u, k)
    &&& writes_conj(u, i, c)
    &&& u.len() == i + conj_width(c) + 1
    &&& word_is(u, u.len() - 1, Word::Close)
}

/// The same of a disjunction & its closing parenthesis.
spec fn disj_goes_on(t: Seq<Tok>, i: int, k: int) -> bool {
    exists|u: Seq<Tok>, d: Disjunction| #[trigger] disj_ends_in(t, u, i, k, d)
}

spec fn disj_ends_in(t: Seq<Tok>, u: Seq<Tok>, i: int, k: int, d: Disjunction) -> bool {
    &&& agree(t, u, k)
    &&& writes_disj(u, i, d)
    &&& u.len() == i + disj_width(d) + 1
    &&& word_is(u, u.len() - 1, Word::Close)
}

/// A term, for the want of a particular one: "artist 0".
spec fn some_term() -> Term {
    Term::UnaryCondition(Selector::Artist, Value::Uint(0))
}

spec fn some_term_tokens() -> Seq<Tok> {
    seq![Tok::Word(Word::Sel(Selector::Artist)), Tok::Uint(0)]
}

/// An expression, for the want of a particular one: "(artist 0)".
spec fn some_filter() -> Expression {
    Expression::Simple(Box::new(some_term()))
}

spec fn some_filter_tokens() -> Seq<Tok> {
    seq![Tok::Word(Word::Open)] + some_term_tokens() + seq![Tok::Word(Word::Close)]
}

/// There can be a term where none has been looked for.
proof fn lemma_term_can_start(t: Seq<Tok>, i: int)
    requires
        0 <= i <= t.len(),
    ensures
        term_goes_on(t, i, i),
{
    assert(term_ends_in(t, t.take(i) + some_term_tokens(), i, i, some_term()));
}

/// There can be a value after an attribute.
proof fn lemma_unary_goes_on(t: Seq<Tok>, i: int, attr: Selector)
    requires
        word_is(t, i, Word::Sel(attr)),
    ensures
        term_goes_on(t, i, i + 1),
{
    let term = Term::UnaryCondition(attr, Value::Uint(0));
    assert(term_ends_in(t, t.take(i + 1).push(Tok::Uint(0)), i, i + 1, term));
}

/// There can be a value after an operation.
proof fn lemma_binary_goes_on(t: Seq<Tok>, i: int, attr: Selector, op: OpCode)
    requires
        word_is(t, i, Word::Sel(attr)),
        word_is(t, i + 1, Word::Op(op)),
    ensures
        term_goes_on(t, i, i + 2),
{
    let term = Term::BinaryCondition(attr, op, Value::Uint(0));
    assert(term_ends_in(t, t.take(i + 2).push(Tok::Uint(0)), i, i + 2, term));
}

/// A term that goes on does so in parentheses.
proof fn lemma_simple_goes_on(t: Seq<Tok>, i: int, k: int)
    requires
        word_is(t, i, Word::Open),
        i < k,
        term_goes_on(t, i + 1, k),
    ensures
        goes_on(t, i, k),
{
    let (u, term) = choose|u: Seq<Tok>, term: Term| #[trigger] term_ends_in(t, u, i + 1, k, term);
    let e = Expression::Simple(Box::new(term));
    assert(t[i] == u[i]);
    assert(ends_in(t, u.push(Tok::Word(Word::Close)), i, k, e));
}

/// There can be a closing parenthesis after a term.
proof fn lemma_simple_closes(t: Seq<Tok>, i: int, term: Term)
    requires
        word_is(t, i, Word::Open),
        writes_term(t, i + 1, term),
    ensures
        goes_on(t, i, i + 1 + term_width(term)),
{
    let j = i + 1 + term_width(term);
    let e = Expression::Simple(Box::new(term));
    assert(ends_in(t, t.take(j).push(Tok::Word(Word::Close)), i, j, e));
}

/// There can be an expression where none has been looked for.
proof fn lemma_can_start(t: Seq<Tok>, i: int)
    requires
        0 <= i <= t.len(),
    ensures
        goes_on(t, i, i),
{
    assert(ends_in(t, t.take(i) + some_filter_tokens(), i, i, some_filter()));
}

/// An expression that goes on does so in a negation.
proof fn lemma_negation_goes_on(t: Seq<Tok>, i: int, k: int)
    requires
        word_is(t, i, Word::Open),
        word_is(t, i + 1, Word::Not),
        i + 2 <= k,
        goes_on(t, i + 2, k),
    ensures
        goes_on(t, i, k),
{
    let (u, e) = choose|u: Seq<Tok>, e: Expression| #[trigger] ends_in(t, u, i + 2, k, e);
    let v = u.push(Tok::Word(Word::Close));
    assert(t[i] == u[i] && t[i + 1] == u[i + 1]);
    lemma_writes_local(u, v, i + 2, e);
    assert(ends_in(t, v, i, k, Expression::Negation(Box::new(e))));
}

/// There can be a closing parenthesis after a negation.
proof fn lemma_negation_closes(t: Seq<Tok>, i: int, e: Expression)
    requires
        word_is(t, i, Word::Open),
        word_is(t, i + 1, Word::Not),
        writes(t, i + 2, e),
    ensures
        goes_on(t, i, i + 2 + width(e)),
{
    lemma_width(e);
    let j = i + 2 + width(e);
    lemma_expr_end(t, i + 2, e);
    lemma_local(t, t, i + 2, t.len() as int);
    let v = t.take(j).push(Tok::Word(Word::Close));
    lemma_writes_local(t, v, i + 2, e);
    assert(ends_in(t, v, i, j, Expression::Negation(Box::new(e))));
}

/// An expression that goes on can be followed by an operator & another one.
proof fn lemma_first_goes_on(t: Seq<Tok>, i: int, k: int)
    requires
        word_is(t, i, Word::Open),
        i < k,
        goes_on(t, i + 1, k),
    ensures
        goes_on(t, i, k),
{
    let (u, e) = choose|u: Seq<Tok>, e: Expression| #[trigger] ends_in(t, u, i + 1, k, e);
    assert(t[i] == u[i]);
    lemma_operator_can_follow(u, i, e);
    let j = i + 1 + width(e);
    let (v, f) = choose|v: Seq<Tok>, f: Expression| #[trigger] ends_in(u, v, i, j, f);
    lemma_width(e);
    assert(k <= j);
    assert forall|x: int| 0 <= x < k implies #[trigger] t[x] == v[x] by {
        assert(u[x] == v[x]);
    }
    assert(ends_in(t, v, i, k, f));
}

/// There can be an operator after an expression.
proof fn lemma_operator_can_follow(t: Seq<Tok>, i: int, e: Expression)
    requires
        word_is(t, i, Word::Open),
        writes(t, i + 1, e),
        i + 1 + width(e) <= t.len(),
    ensures
        goes_on(t, i, i + 1 + width(e)),
{
    lemma_width(e);
    let j = i + 1 + width(e);
    let v = t.take(j) + seq![Tok::Word(Word::And)] + some_filter_tokens() + seq![
        Tok::Word(Word::Close),
    ];
    lemma_writes_local(t, v, i + 1, e);
    assert(writes(v, j + 1, some_filter()));
    let c = Conjunction::Simple(Box::new(e), Box::new(some_filter()));
    assert(width(some_filter()) == 4);
    assert(writes_conj(v, i + 1, c));
    assert(conj_width(c) == width(e) + 5);
    assert(word_is(v, j + 5, Word::Close));
    assert(ends_in(t, v, i, j, Expression::Conjunction(Box::new(c))));
}

/// A conjunction that goes on does so in parentheses.
proof fn lemma_conj_goes_on(t: Seq<Tok>, i: int, k: int)
    requires
        word_is(t, i, Word::Open),
        i < k,
        conj_goes_on(t, i + 1, k),
    ensures
        goes_on(t, i, k),
{
    let (u, c) = choose|u: Seq<Tok>, c: Conjunction| #[trigger] conj_ends_in(t, u, i + 1, k, c);
    assert(t[i] == u[i]);
    assert(ends_in(t, u, i, k, Expression::Conjunction(Box::new(c))));
}

proof fn lemma_disj_goes_on(t: Seq<Tok>, i: int, k: int)
    requires
        word_is(t, i, Word::Open),
        i < k,
        disj_goes_on(t, i + 1, k),
    ensures
        goes_on(t, i, k),
{
    let (u, d) = choose|u: Seq<Tok>, d: Disjunction| #[trigger] disj_ends_in(t, u, i + 1, k, d);
    assert(t[i] == u[i]);
    assert(ends_in(t, u, i, k, Expression::Disjunction(Box::new(d))));
}

/// The first "AND" of a conjunction can be followed by whatever an expression can go on with.
proof fn lemma_second_conjunct(t: Seq<Tok>, i: int, first: Expression, k: int)
    requires
        0 <= i,
        writes(t, i, first),
        word_is(t, i + width(first), Word::And),
        i + width(first) < k,
        goes_on(t, i + width(first) + 1, k),
    ensures
        conj_goes_on(t, i, k),
{
    let j = i + width(first);
    lemma_width(first);
    let (u, e) = choose|u: Seq<Tok>, e: Expression| #[trigger] ends_in(t, u, j + 1, k, e);
    let v = u.push(Tok::Word(Word::Close));
    assert(t[j] == u[j]);
    lemma_writes_local(t, v, i, first);
    lemma_writes_local(u, v, j + 1, e);
    lemma_width(e);
    assert(conj_ends_in(t, v, i, k, Conjunction::Simple(Box::new(first), Box::new(e))));
}

/// Any other "AND", too.
proof fn lemma_next_conjunct(t: Seq<Tok>, i: int, c: Conjunction, k: int)
    requires
        0 <= i,
        writes_conj(t, i, c),
        word_is(t, i + conj_width(c), Word::And),
        i + conj_width(c) < k,
        goes_on(t, i + conj_width(c) + 1, k),
    ensures
        conj_goes_on(t, i, k),
{
    let j = i + conj_width(c);
    lemma_conj_width(c);
    let (u, e) = choose|u: Seq<Tok>, e: Expression| #[trigger] ends_in(t, u, j + 1, k, e);
    let v = u.push(Tok::Word(Word::Close));
    assert(t[j] == u[j]);
    lemma_conj_local(t, v, i, c);
    lemma_writes_local(u, v, j + 1, e);
    lemma_width(e);
    assert(conj_ends_in(t, v, i, k, Conjunction::Compound(Box::new(c), Box::new(e))));
}

/// There can be a closing parenthesis after a conjunction.
proof fn lemma_conj_closes(t: Seq<Tok>, i: int, c: Conjunction)
    requires
        0 <= i,
        writes_conj(t, i, c),
        i + conj_width(c) <= t.len(),
    ensures
        conj_goes_on(t, i, i + conj_width(c)),
{
    let j = i + conj_width(c);
    lemma_conj_width(c);
    let v = t.take(j).push(Tok::Word(Word::Close));
    lemma_conj_local(t, v, i, c);
    assert(conj_ends_in(t, v, i, j, c));
}

/// The first "OR" of a disjunction can be followed by whatever an expression can go on with.
proof fn lemma_second_disjunct(t: Seq<Tok>, i: int, first: Expression, k: int)
    requires
        0 <= i,
        writes(t, i, first),
        word_is(t, i + width(first), Word::Or),
        i + width(first) < k,
        goes_on(t, i + width(first) + 1, k),
    ensures
        disj_goes_on(t, i, k),
{
    let j = i + width(first);
    lemma_width(first);
    let (u, e) = choose|u: Seq<Tok>, e: Expression| #[trigger] ends_in(t, u, j + 1, k, e);
    let v = u.push(Tok::Word(Word::Close));
    assert(t[j] == u[j]);
    lemma_writes_local(t, v, i, first);
    lemma_writes_local(u, v, j + 1, e);
    lemma_width(e);
    assert(disj_ends_in(t, v, i, k, Disjunction::Simple(Box::new(first), Box::new(e))));
}

/// Any other "OR", too.
proof fn lemma_next_disjunct(t: Seq<Tok>, i: int, d: Disjunction, k: int)
    requires
        0 <= i,
        writes_disj(t, i, d),
        word_is(t, i + disj_width(d), Word::Or),
        i + disj_width(d) < k,
        goes_on(t, i + disj_width(d) + 1, k),
    ensures
        disj_goes_on(t, i, k),
{
    let j = i + disj_width(d);
    lemma_disj_width(d);
    let (u, e) = choose|u: Seq<Tok>, e: Expression| #[trigger] ends_in(t, u, j + 1, k, e);
    let v = u.push(Tok::Word(Word::Close));
    assert(t[j] == u[j]);
    lemma_disj_local(t, v, i, d);
    lemma_writes_local(u, v, j + 1, e);
    lemma_width(e);
    assert(disj_ends_in(t, v, i, k, Disjunction::Compound(Box::new(d), Box::new(e))));
}

/// There can be a closing parenthesis after a disjunction.
proof fn lemma_disj_closes(t: Seq<Tok>, i: int, d: Disjunction)
    requires
        0 <= i,
        writes_disj(t, i, d),
        i + disj_width(d) <= t.len(),
    ensures
        disj_goes_on(t, i, i + disj_width(d)),
{
    let j = i + disj_width(d);
    lemma_disj_width(d);
    let v = t.take(j).push(Tok::Word(Word::Close));
    lemma_disj_local(t, v, i, d);
    assert(disj_ends_in(t, v, i, j, d));
}

/// How many tokens can be taken is settled by where they can be, & cannot be any more.
proof fn lemma_reach(t: Seq<Tok>, starts: spec_fn(Seq<Tok>) -> bool, n: int, k: int)
    requires
        0 <= n <= k <= t.len(),
        forall|m: int| n < m <= k ==> #[trigger] starts(t.take(m)),
        k < t.len() ==> !starts(t.take(k + 1)),
    ensures
        reach(t, starts, n) == k,
    decreases k - n,
{
    if n < k {
        assert(starts(t.take(n + 1)));
        lemma_reach(t, starts, n + 1, k);
    }
}

/// The tokens that can be taken when an expression goes wrong at index `k`, or ends there.
proof fn lemma_filter_reach(t: Seq<Tok>, k: int)
    requires
        0 <= k <= t.len(),
        goes_on(t, 0, k),
        expr_end(t, 0) == Err::<int, int>(k) || expr_end(t, 0) == Ok::<int, int>(k),
    ensures
        reach(t, |p: Seq<Tok>| starts_filter(p), 0) == k,
{
    let starts = |p: Seq<Tok>| starts_filter(p);
    let (u, e) = choose|u: Seq<Tok>, e: Expression| #[trigger] ends_in(t, u, 0, k, e);
    assert(is_writing(u, e));
    assert forall|m: int| 0 < m <= k implies #[trigger] starts(t.take(m)) by {
        assert(t.take(m).is_prefix_of(u));
    }
    if k < t.len() && starts(t.take(k + 1)) {
        let p = t.take(k + 1);
        let (v, f) = choose|v: Seq<Tok>, f: Expression| #[trigger] is_writing(v, f) && p.is_prefix_of(v);
        assert forall|x: int| 0 <= x < k + 1 implies #[trigger] t[x] == v[x] by {
            assert(p[x] == v[x]);
        }
        lemma_local(t, v, 0, k + 1);
        lemma_expr_end(v, 0, f);
    }
    lemma_reach(t, starts, 0, k);
}

/// The tokens that can be taken when a term goes wrong at index `k`, or ends there.
proof fn lemma_term_reach(t: Seq<Tok>, k: int)
    requires
        0 <= k <= t.len(),
        term_goes_on(t, 0, k),
        term_end(t, 0) == Err::<int, int>(k) || term_end(t, 0) == Ok::<int, int>(k),
    ensures
        reach(t, |p: Seq<Tok>| starts_term(p), 0) == k,
{
    let starts = |p: Seq<Tok>| starts_term(p);
    let (u, term) = choose|u: Seq<Tok>, term: Term| #[trigger] term_ends_in(t, u, 0, k, term);
    assert(is_term_writing(u, term));
    assert forall|m: int| 0 < m <= k implies #[trigger] starts(t.take(m)) by {
        assert(t.take(m).is_prefix_of(u));
    }
    if k < t.len() && starts(t.take(k + 1)) {
        let p = t.take(k + 1);
        let (v, f) = choose|v: Seq<Tok>, f: Term| #[trigger]
            is_term_writing(v, f) && p.is_prefix_of(v);
        assert forall|x: int| 0 <= x < k + 1 implies #[trigger] t[x] == v[x] by {
            assert(p[x] == v[x]);
        }
        lemma_term_local(t, v, 0, k + 1);
    }
    lemma_reach(t, starts, 0, k);
}

// ---------------------------------------------------------------------------------------------
// Parsing
// ---------------------------------------------------------------------------------------------

/// Whether the token at index `i` is a word.
fn at_word(t: &Vec<Token>, i: usize, w: Word) -> (r: bool)
    ensures
        r == word_is(toks(t@), i as int, w),
{
    if i < t.len() {
        assert(toks(t@)[i as int] == t@[i as int].deep_view());
        match &t[i] {
            Token::Word(x) => *x == w,
            _ => false,
        }
    } else {
        false
    }
}

/// The value that a token writes, if it writes one.
fn value_of(tok: &Token) -> (r: Option<Value>)
    ensures
        r is Some == is_value(tok.deep_view()),
        r is Some ==> value_is(tok.deep_view(), r->0.deep_view()),
{
    match tok {
        Token::Uint(n) => Some(Value::Uint(*n)),
        Token::Quoted(raw) => match filters_ast::expect_quoted(raw.as_str()) {
            Ok(s) => {
                let ghost fields = filters_ast::iso_fields(vstd::utf8::encode_utf8(s@));
                let mut bytes: &[u8] = s.as_str().as_bytes();
                let parsed = filters_ast::parse_iso_8601(&mut bytes);
                let ghost t = choose|t: Option<i64>| #[trigger]
                    filters_ast::iso_timestamp(fields, t) && text::outcome(parsed)
                        == filters_ast::iso_outcome(fields, t);
                assert(filters_ast::iso_timestamp(fields, t));
                match parsed {
                    Ok(t) => Some(Value::UnixEpoch(t)),
                    Err(_) => Some(Value::Text(s)),
                }
            },
            Err(_) => None,
        },
        Token::Word(_) => None,
    }
}

/// The term at index `i`, & the index after it; or else the first index at which there is nothing that a term
/// goes on with.
fn term_at(t: &Vec<Token>, i: usize) -> (r: Result<(Term, usize), usize>)
    requires
        i <= t@.len(),
    ensures
        match term_end(toks(t@), i as int) {
            Ok(j) => {
                &&& r is Ok
                &&& (r->Ok_0).1 == j
                &&& writes_term(toks(t@), i as int, (r->Ok_0).0)
                &&& term_width((r->Ok_0).0) == j - i
                &&& j <= t@.len()
            },
            Err(k) => {
                &&& r is Err
                &&& r->Err_0 == k
                &&& i <= k <= t@.len()
                &&& term_goes_on(toks(t@), i as int, k)
            },
        },
{
    let ghost all = toks(t@);
    proof {
        lemma_term_can_start(all, i as int);
    }
    if i >= t.len() {
        return Err(i);
    }
    assert(all[i as int] == t@[i as int].deep_view());
    let attr: Selector = match &t[i] {
        Token::Word(Word::Sel(attr)) => *attr,
        _ => {
            return Err(i);
        },
    };
    proof {
        lemma_unary_goes_on(all, i as int, attr);
    }
    if t.len() - i < 2 {
        return Err(i + 1);
    }
    assert(all[i + 1] == t@[i + 1].deep_view());
    match value_of(&t[i + 1]) {
        Some(val) => Ok((Term::UnaryCondition(attr, val), i + 2)),
        None => {
            let op: OpCode = match &t[i + 1] {
                Token::Word(Word::Op(op)) => *op,
                _ => {
                    return Err(i + 1);
                },
            };
            proof {
                lemma_binary_goes_on(all, i as int, attr, op);
            }
            if t.len() - i < 3 {
                return Err(i + 2);
            }
            assert(all[i + 2] == t@[i + 2].deep_view());
            match value_of(&t[i + 2]) {
                Some(val) => Ok((Term::BinaryCondition(attr, op, val), i + 3)),
                None => Err(i + 2),
            }
        },
    }
}

/// The expression at index `i`, & the index after it; or else the first index at which there is nothing that
/// an expression goes on with.
fn expr_at(t: &Vec<Token>, i: usize) -> (r: Result<(Expression, usize), usize>)
    requires
        i <= t@.len(),
    ensures
        match expr_end(toks(t@), i as int) {
            Ok(j) => {
                &&& r is Ok
                &&& (r->Ok_0).1 == j
                &&& writes(toks(t@), i as int, (r->Ok_0).0)
                &&& width((r->Ok_0).0) == j - i
                &&& j <= t@.len()
            },
            Err(k) => {
                &&& r is Err
                &&& r->Err_0 == k
                &&& i <= k <= t@.len()
                &&& goes_on(toks(t@), i as int, k)
            },
        },
    decreases t@.len() - i,
{
    let ghost all = toks(t@);
    let n: usize = t.len();
    assert(n == all.len());
    if !at_word(t, i, Word::Open) {
        proof {
            lemma_can_start(all, i as int);
        }
        return Err(i);
    }
    if at_word(t, i + 1, Word::Not) {
        let (e, j) = match expr_at(t, i + 2) {
            Ok(r) => r,
            Err(k) => {
                proof {
                    lemma_negation_goes_on(all, i as int, k as int);
                }
                return Err(k);
            },
        };
        if !at_word(t, j, Word::Close) {
            proof {
                lemma_width(e);
                lemma_negation_closes(all, i as int, e);
            }
            return Err(j);
        }
        return Ok((Expression::Negation(Box::new(e)), j + 1));
    }
    if at_word(t, i + 1, Word::Open) {
        let (first, j) = match expr_at(t, i + 1) {
            Ok(r) => r,
            Err(k) => {
                proof {
                    lemma_first_goes_on(all, i as int, k as int);
                }
                return Err(k);
            },
        };
        proof {
            lemma_width(first);
        }
        if at_word(t, j, Word::And) {
            return match conj_at(t, i + 1, first, j) {
                Ok((c, k)) => Ok((Expression::Conjunction(Box::new(c)), k)),
                Err(k) => {
                    proof {
                        lemma_conj_goes_on(all, i as int, k as int);
                    }
                    Err(k)
                },
            };
        }
        if at_word(t, j, Word::Or) {
            return match disj_at(t, i + 1, first, j) {
                Ok((d, k)) => Ok((Expression::Disjunction(Box::new(d)), k)),
                Err(k) => {
                    proof {
                        lemma_disj_goes_on(all, i as int, k as int);
                    }
                    Err(k)
                },
            };
        }
        proof {
            lemma_operator_can_follow(all, i as int, first);
        }
        return Err(j);
    }
    let (term, j) = match term_at(t, i + 1) {
        Ok(r) => r,
        Err(k) => {
            proof {
                lemma_simple_goes_on(all, i as int, k as int);
            }
            return Err(k);
        },
    };
    if !at_word(t, j, Word::Close) {
        proof {
            lemma_simple_closes(all, i as int, term);
        }
        return Err(j);
    }
    Ok((Expression::Simple(Box::new(term)), j + 1))
}

/// The conjunction that starts at index `i` with `first`, after which there is an "AND" at index `j`, &
/// the index after its closing parenthesis.
fn conj_at(t: &Vec<Token>, i: usize, first: Expression, j: usize) -> (r: Result<
    (Conjunction, usize),
    usize,
>)
    requires
        i < j < t@.len(),
        writes(toks(t@), i as int, first),
        width(first) == j - i,
        word_is(toks(t@), j as int, Word::And),
    ensures
        match list_end(toks(t@), j as int, Word::And) {
            Ok(k) => {
                &&& r is Ok
                &&& (r->Ok_0).1 == k
                &&& writes_conj(toks(t@), i as int, (r->Ok_0).0)
                &&& conj_width((r->Ok_0).0) == k - 1 - i
                &&& word_is(toks(t@), k - 1, Word::Close)
                &&& k <= t@.len()
            },
            Err(k) => {
                &&& r is Err
                &&& r->Err_0 == k
                &&& j < k <= t@.len()
                &&& conj_goes_on(toks(t@), i as int, k)
            },
        },
    decreases t@.len() - j,
{
    let ghost all = toks(t@);
    let n: usize = t.len();
    let (second, k) = match expr_at(t, j + 1) {
        Ok(r) => r,
        Err(k) => {
            proof {
                lemma_second_conjunct(all, i as int, first, k as int);
            }
            return Err(k);
        },
    };
    proof {
        lemma_width(second);
    }
    let mut c = Conjunction::Simple(Box::new(first), Box::new(second));
    let mut k: usize = k;
    while !at_word(t, k, Word::Close)
        invariant
            all == toks(t@),
            n == t@.len(),
            i < j < k <= n,
            writes_conj(all, i as int, c),
            conj_width(c) == k - i,
            list_end(all, j as int, Word::And) == (if word_is(all, k as int, Word::Close) {
                Ok(k + 1)
            } else {
                list_end(all, k as int, Word::And)
            }),
        decreases t@.len() - k,
    {
        if !at_word(t, k, Word::And) {
            proof {
                lemma_conj_closes(all, i as int, c);
            }
            return Err(k);
        }
        let (next, l) = match expr_at(t, k + 1) {
            Ok(r) => r,
            Err(l) => {
                proof {
                    lemma_next_conjunct(all, i as int, c, l as int);
                }
                return Err(l);
            },
        };
        proof {
            lemma_width(next);
        }
        c = Conjunction::Compound(Box::new(c), Box::new(next));
        k = l;
    }
    Ok((c, k + 1))
}

/// The disjunction that starts at index `i` with `first`, after which there is an "OR" at index `j`, &
/// the index after its closing parenthesis.
fn disj_at(t: &Vec<Token>, i: usize, first: Expression, j: usize) -> (r: Result<
    (Disjunction, usize),
    usize,
>)
    requires
        i < j < t@.len(),
        writes(toks(t@), i as int, first),
        width(first) == j - i,
        word_is(toks(t@), j as int, Word::Or),
    ensures
        match list_end(toks(t@), j as int, Word::Or) {
            Ok(k) => {
                &&& r is Ok
                &&& (r->Ok_0).1 == k
                &&& writes_disj(toks(t@), i as int, (r->Ok_0).0)
                &&& disj_width((r->Ok_0).0) == k - 1 - i
                &&& word_is(toks(t@), k - 1, Word::Close)
                &&& k <= t@.len()
            },
            Err(k) => {
                &&& r is Err
                &&& r->Err_0 == k
                &&& j < k <= t@.len()
                &&& disj_goes_on(toks(t@), i as int, k)
            },
        },
    decreases t@.len() - j,
{
    let ghost all = toks(t@);
    let n: usize = t.len();
    let (second, k) = match expr_at(t, j + 1) {
        Ok(r) => r,
        Err(k) => {
            proof {
                lemma_second_disjunct(all, i as int, first, k as int);
            }
            return Err(k);
        },
    };
    proof {
        lemma_width(second);
    }
    let mut d = Disjunction::Simple(Box::new(first), Box::new(second));
    let mut k: usize = k;
    while !at_word(t, k, Word::Close)
        invariant
            all == toks(t@),
            n == t@.len(),
            i < j < k <= n,
            writes_disj(all, i as int, d),
            disj_width(d) == k - i,
            list_end(all, j as int, Word::Or) == (if word_is(all, k as int, Word::Close) {
                Ok(k + 1)
            } else {
                list_end(all, k as int, Word::Or)
            }),
        decreases t@.len() - k,
    {
        if !at_word(t, k, Word::Or) {
            proof {
                lemma_disj_closes(all, i as int, d);
            }
            return Err(k);
        }
        let (next, l) = match expr_at(t, k + 1) {
            Ok(r) => r,
            Err(l) => {
                proof {
                    lemma_next_disjunct(all, i as int, d, l as int);
                }
                return Err(l);
            },
        };
        proof {
            lemma_width(next);
        }
        d = Disjunction::Compound(Box::new(d), Box::new(next));
        k = l;
    }
    Ok((d, k + 1))
}

/// Parses an operation
pub struct ExprOpParser {}

impl ExprOpParser {
    /// A parser for operations.
    pub fn new() -> (r: ExprOpParser)
        ensures
            r == (ExprOpParser {  }),
    {
        ExprOpParser {  }
    }

    /// The operation that a text writes.
    pub fn parse(&self, s: &str) -> (r: Result<OpCode, ParseError>)
        ensures
            match r {
                Ok(op) => is_op(s@, op),
                Err(e) => {
                    &&& forall|op: OpCode| !#[trigger] is_op(s@, op)
                    &&& e.deep_view() == op_fault(s@)
                },
            },
    {
        let v = text::chars_of(s);
        let scanned = scan(&v);
        let ghost all = toks(scanned.tokens@);
        let ghost starts = |p: Seq<Tok>| starts_op(p);
        assert forall|op: OpCode| (#[trigger] op_tokens(op)).len() == 1 && op_tokens(op)[0]
            == Tok::Word(Word::Op(op)) by {}
        let mut n: usize = 0;
        if scanned.tokens.len() > 0 {
            assert(all[0] == scanned.tokens@[0].deep_view());
            assert(all.take(1)[0] == all[0]);
            if let Token::Word(Word::Op(op)) = &scanned.tokens[0] {
                if scanned.tokens.len() == 1 && scanned.stop.is_none() {
                    assert(all =~= op_tokens(*op));
                    return Ok(*op);
                }
                assert(all.take(1) =~= op_tokens(*op));
                assert(starts(all.take(1)));
                n = 1;
            } else {
                assert(!starts(all.take(1)));
            }
        }
        proof {
            if n == 1 && n < all.len() {
                assert(all.take(2).len() == 2);
                assert(!starts(all.take(2)));
            }
            lemma_reach(all, starts, 0, n as int);
        }
        Err(fault_at(&v, &scanned, n, Ghost(starts)))
    }
}

/// Parses a term
pub struct TermParser {}

impl TermParser {
    /// A parser for terms.
    pub fn new() -> (r: TermParser)
        ensures
            r == (TermParser {  }),
    {
        TermParser {  }
    }

    /// The term that a text writes.
    pub fn parse(&self, s: &str) -> (r: Result<Box<Term>, ParseError>)
        ensures
            match r {
                Ok(term) => is_term(s@, *term),
                Err(e) => {
                    &&& forall|term: Term| !#[trigger] is_term(s@, term)
                    &&& e.deep_view() == term_fault(s@)
                },
            },
    {
        let v = text::chars_of(s);
        let scanned = scan(&v);
        let ghost all = toks(scanned.tokens@);
        let n: usize = match term_at(&scanned.tokens, 0) {
            Ok((term, end)) => {
                if end == scanned.tokens.len() && scanned.stop.is_none() {
                    assert(is_term_writing(all, term));
                    return Ok(Box::new(term));
                }
                assert(term_ends_in(all, all.take(end as int), 0, end as int, term));
                end
            },
            Err(n) => n,
        };
        proof {
            lemma_term_reach(all, n as int);
        }
        Err(fault_at(&v, &scanned, n, Ghost(|p: Seq<Tok>| starts_term(p))))
    }
}

/// Parses a filter
pub struct ExpressionParser {}

impl ExpressionParser {
    /// A parser for filters.
    pub fn new() -> (r: ExpressionParser)
        ensures
            r == (ExpressionParser {  }),
    {
        ExpressionParser {  }
    }

    /// The filter that a text writes.
    pub fn parse(&self, s: &str) -> (r: Result<Box<Expression>, ParseError>)
        ensures
            match r {
                Ok(e) => is_filter(s@, *e),
                Err(err) => {
                    &&& forall|e: Expression| !#[trigger] is_filter(s@, e)
                    &&& err.deep_view() == filter_fault(s@)
                },
            },
    {
        let v = text::chars_of(s);
        let scanned = scan(&v);
        let ghost all = toks(scanned.tokens@);
        let n: usize = match expr_at(&scanned.tokens, 0) {
            Ok((e, end)) => {
                if end == scanned.tokens.len() && scanned.stop.is_none() {
                    assert(is_writing(all, e));
                    return Ok(Box::new(e));
                }
                proof {
                    lemma_width(e);
                    lemma_writes_local(all, all.take(end as int), 0, e);
                    assert(ends_in(all, all.take(end as int), 0, end as int, e));
                }
                end
            },
            Err(n) => n,
        };
        proof {
            lemma_filter_reach(all, n as int);
            assert forall|e: Expression| !#[trigger] is_filter(s@, e) by {
                if is_filter(s@, e) {
                    lemma_expr_end(all, 0, e);
                }
            }
        }
        Err(fault_at(&v, &scanned, n, Ghost(|p: Seq<Tok>| starts_filter(p))))
    }
}

// ---------------------------------------------------------------------------------------------
// Laws
// ---------------------------------------------------------------------------------------------

/// Whether two expressions are the same.
pub open spec fn same(a: Expression, b: Expression) -> bool
    decreases a,
{
    match (a, b) {
        (Expression::Simple(s), Expression::Simple(t)) => s.deep_view() == t.deep_view(),
        (Expression::Negation(e), Expression::Negation(f)) => same(*e, *f),
        (Expression::Conjunction(c), Expression::Conjunction(d)) => same_conj(*c, *d),
        (Expression::Disjunction(c), Expression::Disjunction(d)) => same_disj(*c, *d),
        _ => false,
    }
}

/// Whether two conjunctions are the same.
pub open spec fn same_conj(a: Conjunction, b: Conjunction) -> bool
    decreases a,
{
    match (a, b) {
        (Conjunction::Simple(l, r), Conjunction::Simple(m, s)) => same(*l, *m) && same(*r, *s),
        (Conjunction::Compound(c, e), Conjunction::Compound(d, f)) => same_conj(*c, *d) && same(*e, *f),
        _ => false,
    }
}

/// Whether two disjunctions are the same.
pub open spec fn same_disj(a: Disjunction, b: Disjunction) -> bool
    decreases a,
{
    match (a, b) {
        (Disjunction::Simple(l, r), Disjunction::Simple(m, s)) => same(*l, *m) && same(*r, *s),
        (Disjunction::Compound(c, e), Disjunction::Compound(d, f)) => same_disj(*c, *d) && same(*e, *f),
        _ => false,
    }
}

/// Whether what the tokens write does not depend on the machine's time zone: there is no timestamp in them
/// without a time zone.
pub open spec fn settled(t: Seq<Tok>) -> bool {
    forall|i: int| 0 <= i < t.len() ==> is_settled(#[trigger] t[i])
}

/// Whether what a token writes does not depend on the machine's time zone.
pub open spec fn is_settled(tok: Tok) -> bool {
    match tok {
        Tok::Quoted(raw) => match filters_ast::unquoted(raw) {
            Ok(s) => !(filters_ast::iso_fields(vstd::utf8::encode_utf8(s)) matches Ok((
                _,
                filters_ast::Zone::Local,
                _,
            ))),
            Err(_) => true,
        },
        _ => true,
    }
}

/// Whether going from one operator to the next, from index `k` on, leads to index `j`.
spec fn leads(t: Seq<Tok>, k: int, j: int) -> bool
    decreases j - k,
{
    k == j || k < j && (match expr_end(t, k + 1) {
        Ok(next) => k < next <= j && leads(t, next, j),
        Err(_) => false,
    })
}

/// The last operator before index `j`, on the way from the one at index `k`.
spec fn last_operator(t: Seq<Tok>, k: int, j: int) -> int
    decreases j - k,
{
    match expr_end(t, k + 1) {
        Ok(next) => if k < next < j {
            last_operator(t, next, j)
        } else {
            k
        },
        Err(_) => k,
    }
}

proof fn lemma_last_operator(t: Seq<Tok>, k: int, q: int, j: int)
    requires
        leads(t, k, q),
        q < j,
        expr_end(t, q + 1) == Ok::<int, int>(j),
    ensures
        leads(t, k, j),
        last_operator(t, k, j) == q,
    decreases q - k,
{
    if k < q {
        let next = expr_end(t, k + 1)->Ok_0;
        lemma_last_operator(t, next, q, j);
    } else {
        assert(leads(t, j, j));
    }
}

/// A token writes one value.
proof fn lemma_same_value(tok: Tok, v: ValueView, w: ValueView)
    requires
        is_settled(tok),
        value_is(tok, v),
        value_is(tok, w),
    ensures
        v == w,
{
}

/// The tokens from an index on write one expression.
proof fn lemma_same(t: Seq<Tok>, i: int, a: Expression, b: Expression)
    requires
        settled(t),
        writes(t, i, a),
        writes(t, i, b),
    ensures
        same(a, b),
        width(a) == width(b),
    decreases a,
{
    lemma_expr_end(t, i, a);
    lemma_expr_end(t, i, b);
    if let Expression::Conjunction(c) = a {
        lemma_conj_end(t, i + 1, *c);
    }
    if let Expression::Conjunction(c) = b {
        lemma_conj_end(t, i + 1, *c);
    }
    if let Expression::Disjunction(d) = a {
        lemma_disj_end(t, i + 1, *d);
    }
    if let Expression::Disjunction(d) = b {
        lemma_disj_end(t, i + 1, *d);
    }
    match (a, b) {
        (Expression::Simple(s), Expression::Simple(r)) => match (*s, *r) {
            (Term::UnaryCondition(_, v), Term::UnaryCondition(_, w)) => {
                lemma_same_value(t[i + 2], v.deep_view(), w.deep_view());
            },
            (Term::BinaryCondition(_, _, v), Term::BinaryCondition(_, _, w)) => {
                lemma_same_value(t[i + 3], v.deep_view(), w.deep_view());
            },
            _ => {},
        },
        (Expression::Negation(e), Expression::Negation(f)) => {
            lemma_same(t, i + 2, *e, *f);
        },
        (Expression::Conjunction(c), Expression::Conjunction(d)) => {
            lemma_same_conj(t, i + 1, *c, *d);
        },
        (Expression::Disjunction(c), Expression::Disjunction(d)) => {
            lemma_same_disj(t, i + 1, *c, *d);
        },
        _ => {},
    }
}

/// What holds of a conjunction that is written somewhere: going from operator to operator leads to its end,
/// by way of its last one.
proof fn lemma_conj_last(t: Seq<Tok>, i: int, c: Conjunction)
    requires
        writes_conj(t, i, c),
    ensures
        expr_end(t, i) is Ok,
        leads(t, expr_end(t, i)->Ok_0, i + conj_width(c)),
        last_operator(t, expr_end(t, i)->Ok_0, i + conj_width(c)) == (match c {
            Conjunction::Simple(l, _) => i + width(*l),
            Conjunction::Compound(c, _) => i + conj_width(*c),
        }),
    decreases c,
{
    lemma_conj_end(t, i, c);
    let k = expr_end(t, i)->Ok_0;
    let j = i + conj_width(c);
    match c {
        Conjunction::Simple(l, r) => {
            lemma_width(*l);
            lemma_width(*r);
            lemma_expr_end(t, i, *l);
            lemma_expr_end(t, i + width(*l) + 1, *r);
            lemma_last_operator(t, k, k, j);
        },
        Conjunction::Compound(start, e) => {
            lemma_conj_last(t, i, *start);
            lemma_width(*e);
            let q = i + conj_width(*start);
            lemma_expr_end(t, q + 1, *e);
            lemma_last_operator(t, k, q, j);
        },
    }
}

proof fn lemma_same_conj(t: Seq<Tok>, i: int, a: Conjunction, b: Conjunction)
    requires
        settled(t),
        writes_conj(t, i, a),
        writes_conj(t, i, b),
        conj_width(a) == conj_width(b),
    ensures
        same_conj(a, b),
    decreases a,
{
    lemma_conj_last(t, i, a);
    lemma_conj_last(t, i, b);
    match (a, b) {
        (Conjunction::Simple(l, r), Conjunction::Simple(m, s)) => {
            lemma_same(t, i, *l, *m);
            lemma_same(t, i + width(*l) + 1, *r, *s);
        },
        (Conjunction::Compound(c, e), Conjunction::Compound(d, f)) => {
            lemma_same_conj(t, i, *c, *d);
            lemma_same(t, i + conj_width(*c) + 1, *e, *f);
        },
        (Conjunction::Simple(l, _), Conjunction::Compound(d, _)) => {
            lemma_expr_end(t, i, *l);
            lemma_conj_end(t, i, *d);
        },
        (Conjunction::Compound(c, _), Conjunction::Simple(m, _)) => {
            lemma_expr_end(t, i, *m);
            lemma_conj_end(t, i, *c);
        },
    }
}

/// What holds of a disjunction that is written somewhere: going from operator to operator leads to its end,
/// by way of its last one.
proof fn lemma_disj_last(t: Seq<Tok>, i: int, d: Disjunction)
    requires
        writes_disj(t, i, d),
    ensures
        expr_end(t, i) is Ok,
        leads(t, expr_end(t, i)->Ok_0, i + disj_width(d)),
        last_operator(t, expr_end(t, i)->Ok_0, i + disj_width(d)) == (match d {
            Disjunction::Simple(l, _) => i + width(*l),
            Disjunction::Compound(d, _) => i + disj_width(*d),
        }),
    decreases d,
{
    lemma_disj_end(t, i, d);
    let k = expr_end(t, i)->Ok_0;
    let j = i + disj_width(d);
    match d {
        Disjunction::Simple(l, r) => {
            lemma_width(*l);
            lemma_width(*r);
            lemma_expr_end(t, i, *l);
            lemma_expr_end(t, i + width(*l) + 1, *r);
            lemma_last_operator(t, k, k, j);
        },
        Disjunction::Compound(start, e) => {
            lemma_disj_last(t, i, *start);
            lemma_width(*e);
            let q = i + disj_width(*start);
            lemma_expr_end(t, q + 1, *e);
            lemma_last_operator(t, k, q, j);
        },
    }
}

proof fn lemma_same_disj(t: Seq<Tok>, i: int, a: Disjunction, b: Disjunction)
    requires
        settled(t),
        writes_disj(t, i, a),
        writes_disj(t, i, b),
        disj_width(a) == disj_width(b),
    ensures
        same_disj(a, b),
    decreases a,
{
    lemma_disj_last(t, i, a);
    lemma_disj_last(t, i, b);
    match (a, b) {
        (Disjunction::Simple(l, r), Disjunction::Simple(m, s)) => {
            lemma_same(t, i, *l, *m);
            lemma_same(t, i + width(*l) + 1, *r, *s);
        },
        (Disjunction::Compound(c, e), Disjunction::Compound(d, f)) => {
            lemma_same_disj(t, i, *c, *d);
            lemma_same(t, i + disj_width(*c) + 1, *e, *f);
        },
        (Disjunction::Simple(l, _), Disjunction::Compound(d, _)) => {
            lemma_expr_end(t, i, *l);
            lemma_disj_end(t, i, *d);
        },
        (Disjunction::Compound(c, _), Disjunction::Simple(m, _)) => {
            lemma_expr_end(t, i, *m);
            lemma_disj_end(t, i, *c);
        },
    }
}

/// The grammar is unambiguous: unless it depends on the machine's time zone, tokens write one expression at
/// most.
pub proof fn law_unambiguous(t: Seq<Tok>, a: Expression, b: Expression)
    requires
        settled(t),
        is_writing(t, a),
        is_writing(t, b),
    ensures
        same(a, b),
{
    lemma_same(t, 0, a, b);
}

} // verus!
