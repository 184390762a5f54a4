//! Process incoming messages to the daemon.
//!
//! # Introduction
//!
//! The daemon accepts commands over a dedicated
//! [channel](https://www.musicpd.org/doc/html/protocol.html#client-to-client). It also provides for
//! a generalized framework in which the administrator can define new commands backed by arbitrary
//! command execution server-side.
//!
//! # Commands
//!
//! The following commands are built-in:
//!
//!    - set rating: `rate RATING( TRACK)?`
//!    - set playcount: `setpc PC( TRACK)?`
//!    - set lastplayed: `setlp TIMESTAMP( TRACK)?`
//!
//! There is no need to provide corresponding accessors since this functionality is already provided
//! via "sticker get".
//!
//! The MPD filter functionality is expanded to cover attributes tracked by this crate:
//!
//!    - findadd replacement: `findadd FILTER`
//!      (cf. [here](https://www.musicpd.org/doc/html/protocol.html#the-music-database))
//!
//!    - searchadd replacement: `searchadd FILTER`
//!      (cf. [here](https://www.musicpd.org/doc/html/protocol.html#the-music-database))
//!
//! Additional commands may be added through the
//! [generalized commands](crate::commands#the-generalized-command-framework) feature.

use vstd::prelude::*;

use crate::clients;
use crate::clients::{Client, IdleClient, PlayerStatus, RequestResponse, Session, StatusView};
use crate::collections;
use crate::collections::{StringMap, StringSet};
use crate::commands;
use crate::commands::{GeneralizedCommand, TaggedCommand, TaggedView};
use crate::filters;
use crate::filters::ExpressionParser;
use crate::filters_ast;
use crate::filters_ast::{Expression, FilterStickerNames};
use crate::number;
use crate::number::ParseError;
use crate::playcounts;
use crate::ratings;
use crate::ratings::{RatedTrack, RatingRequest};
use crate::text;

verus! {

// ---------------------------------------------------------------------------------------------
// Errors
// ---------------------------------------------------------------------------------------------

/// What can go wrong with a message
#[derive(Debug)]
#[allow(inconsistent_fields)]
pub enum Error {
    /// A filter could not be parsed
    FilterParseError { msg: String },
    /// A quote stands in a token that is not in quotes
    InvalidChar { c: u8 },
    /// A token in quotes does not end
    NoClosingQuotes,
    /// There is no command in a message
    NoCommand,
    /// A message asks for something that there is not
    NotImplemented { feature: String },
    /// A message asks for the current track, and there is none
    PlayerStopped,
    /// A token ends in a backslash
    TrailingBackslash,
    /// A message arrived on a channel that is not ours
    UnknownChannel { chan: String },
    /// A message names a command that there is not
    UnknownCommand { name: String },
    /// The server could not be asked or told
    Client { source: clients::Error },
    /// A track could not be rated
    Ratings { source: ratings::Error },
    /// A play count could not be set
    Playcount { source: playcounts::Error },
    /// A filter could not be evaluated
    Filter { source: filters_ast::Error },
    /// A command could not be put together
    Command { source: commands::Error },
    /// A token is not valid UTF-8
    Utf8 { source: String, buf: Vec<u8> },
    /// A number was to be given
    ExpectedInt { source: ParseError, text: String },
}

/// An [`Error`], as a mathematical value.
#[allow(inconsistent_fields)]
pub enum ErrorView {
    FilterParseError { msg: Seq<char> },
    InvalidChar { c: u8 },
    NoClosingQuotes,
    NoCommand,
    NotImplemented { feature: Seq<char> },
    PlayerStopped,
    TrailingBackslash,
    UnknownChannel { chan: Seq<char> },
    UnknownCommand { name: Seq<char> },
    Client { source: clients::ErrorView },
    Ratings { source: ratings::ErrorView },
    Playcount { source: playcounts::ErrorView },
    Filter { source: filters_ast::ErrorView },
    Command { source: commands::ErrorView },
    Utf8 { source: Seq<char>, buf: Seq<u8> },
    ExpectedInt { source: ParseError, text: Seq<char> },
}

impl DeepView for Error {
    type V = ErrorView;

    open spec fn deep_view(&self) -> ErrorView {
        match self {
            Error::FilterParseError { msg } => ErrorView::FilterParseError { msg: msg@ },
            Error::InvalidChar { c } => ErrorView::InvalidChar { c: *c },
            Error::NoClosingQuotes => ErrorView::NoClosingQuotes,
            Error::NoCommand => ErrorView::NoCommand,
            Error::NotImplemented { feature } => ErrorView::NotImplemented { feature: feature@ },
            Error::PlayerStopped => ErrorView::PlayerStopped,
            Error::TrailingBackslash => ErrorView::TrailingBackslash,
            Error::UnknownChannel { chan } => ErrorView::UnknownChannel { chan: chan@ },
            Error::UnknownCommand { name } => ErrorView::UnknownCommand { name: name@ },
            Error::Client { source } => ErrorView::Client { source: source.deep_view() },
            Error::Ratings { source } => ErrorView::Ratings { source: source.deep_view() },
            Error::Playcount { source } => ErrorView::Playcount { source: source.deep_view() },
            Error::Filter { source } => ErrorView::Filter { source: source.deep_view() },
            Error::Command { source } => ErrorView::Command { source: source.deep_view() },
            Error::Utf8 { source, buf } => ErrorView::Utf8 { source: source@, buf: buf@ },
            Error::ExpectedInt { source, text } => ErrorView::ExpectedInt {
                source: *source,
                text: text@,
            },
        }
    }
}

/// The words in which an error is reported.
pub open spec fn error_message(e: ErrorView) -> Seq<char> {
    match e {
        ErrorView::FilterParseError { msg } => "Parse error: ``"@ + msg + "''"@,
        ErrorView::InvalidChar { c } => "Invalid unquoted character "@ + number::decimal(c as nat),
        ErrorView::NoClosingQuotes => "Missing closing quotes"@,
        ErrorView::NoCommand => "No command specified"@,
        ErrorView::NotImplemented { feature } => "`"@ + feature + "' not implemented, yet"@,
        ErrorView::PlayerStopped =>
            "Can't operate on the current track when the player is stopped"@,
        ErrorView::TrailingBackslash => "Trailing backslash"@,
        ErrorView::UnknownChannel { chan } => "We received messages for an unknown channel `"@ + chan
            + "`; this is likely a bug; please consider filing a report to sp1ff@pobox.com"@,
        ErrorView::UnknownCommand { name } => "We received an unknown message ``"@ + name + "''"@,
        ErrorView::Client { source } => "Client error: "@ + clients::error_message(source),
        ErrorView::Ratings { source } => "Ratings eror: "@ + ratings::error_message(source),
        ErrorView::Playcount { source } => "Playcount error: "@ + playcounts::error_message(source),
        ErrorView::Filter { source } => "Filter error: "@ + filters_ast::error_message(source),
        ErrorView::Command { source } => "Command error: "@ + commands::error_message(source),
        ErrorView::Utf8 { source, buf } => "UTF8 error "@ + source + " ("@ + number::byte_lines(buf)
            + ")"@,
        ErrorView::ExpectedInt { source, text } => "``"@ + number::message_of(source) + "''L "@
            + text,
    }
}

impl Error {
    /// The words in which the error is reported.
    pub fn message(&self) -> (r: String)
        ensures
            r@ == error_message(self.deep_view()),
    {
        match self {
            Error::FilterParseError { msg } => text::join3("Parse error: ``", msg.as_str(), "''"),
            Error::InvalidChar { c } => text::join2(
                "Invalid unquoted character ",
                number::write_u64(*c as u64).as_str(),
            ),
            Error::NoClosingQuotes => text::owned("Missing closing quotes"),
            Error::NoCommand => text::owned("No command specified"),
            Error::NotImplemented { feature } => text::join3(
                "`",
                feature.as_str(),
                "' not implemented, yet",
            ),
            Error::PlayerStopped => text::owned(
                "Can't operate on the current track when the player is stopped",
            ),
            Error::TrailingBackslash => text::owned("Trailing backslash"),
            Error::UnknownChannel { chan } => text::join3(
                "We received messages for an unknown channel `",
                chan.as_str(),
                "`; this is likely a bug; please consider filing a report to sp1ff@pobox.com",
            ),
            Error::UnknownCommand { name } => text::join3(
                "We received an unknown message ``",
                name.as_str(),
                "''",
            ),
            Error::Client { source } => text::join2("Client error: ", source.message().as_str()),
            Error::Ratings { source } => text::join2("Ratings eror: ", source.message().as_str()),
            Error::Playcount { source } => text::join2(
                "Playcount error: ",
                source.message().as_str(),
            ),
            Error::Filter { source } => text::join2("Filter error: ", source.message().as_str()),
            Error::Command { source } => text::join2("Command error: ", source.message().as_str()),
            Error::Utf8 { source, buf } => {
                let mut r = text::join3("UTF8 error ", source.as_str(), " (");
                r.append(number::write_byte_lines(buf.as_slice()).as_str());
                r.append(")");
                r
            },
            Error::ExpectedInt { source, text } => {
                let mut r = text::join3("``", source.message().as_str(), "''L ");
                r.append(text.as_str());
                r
            },
        }
    }
}

// ---------------------------------------------------------------------------------------------
// Tokens
// ---------------------------------------------------------------------------------------------

/// Bytes before the rest of a token.
pub open spec fn byte_then(b: u8, rest: Result<(Seq<u8>, int), ErrorView>) -> Result<
    (Seq<u8>, int),
    ErrorView,
> {
    match rest {
        Ok((token, end)) => Ok((seq![b] + token, end)),
        Err(e) => Err(e),
    }
}

/// The token in quotes whose rest starts at index `i`, & the index after its closing quote. A backslash
/// stands for the byte after it.
pub open spec fn quoted_from(s: Seq<u8>, i: int) -> Result<(Seq<u8>, int), ErrorView>
    decreases s.len() - i,
{
    if i < 0 || i >= s.len() {
        Err(ErrorView::NoClosingQuotes)
    } else if s[i] == 0x22 {
        Ok((Seq::empty(), i + 1))
    } else if s[i] == 0x5c {
        if i + 1 >= s.len() {
            Err(ErrorView::TrailingBackslash)
        } else {
            byte_then(s[i + 1], quoted_from(s, i + 2))
        }
    } else {
        byte_then(s[i], quoted_from(s, i + 1))
    }
}

/// The index after the token without quotes whose rest starts at index `i`: it goes up to the next blank,
/// and there can be no quotes in it.
pub open spec fn bare_end(s: Seq<u8>, i: int) -> Result<int, ErrorView>
    decreases s.len() - i,
{
    if i < 0 || i >= s.len() || s[i] <= 0x20 {
        Ok(i)
    } else if s[i] == 0x22 || s[i] == 0x27 {
        Err(ErrorView::InvalidChar { c: s[i] })
    } else {
        bare_end(s, i + 1)
    }
}

/// The first index from `i` on at which there is no blank: nothing from the control characters or the
/// space.
pub open spec fn blanks_end(s: Seq<u8>, i: int) -> int
    decreases s.len() - i,
{
    if 0 <= i < s.len() && s[i] <= 0x20 {
        blanks_end(s, i + 1)
    } else {
        i
    }
}

/// A token before the rest of the tokens.
pub open spec fn token_then(t: Seq<u8>, rest: Result<Seq<Seq<u8>>, ErrorView>) -> Result<
    Seq<Seq<u8>>,
    ErrorView,
> {
    match rest {
        Ok(rest) => Ok(seq![t] + rest),
        Err(e) => Err(e),
    }
}

/// The tokens of `s` from index `i` on. Blanks are passed over after each.
pub open spec fn tokens_from(s: Seq<u8>, i: int) -> Result<Seq<Seq<u8>>, ErrorView>
    decreases s.len() - i,
{
    if i < 0 || i >= s.len() {
        Ok(Seq::empty())
    } else if s[i] == 0x22 {
        match quoted_from(s, i + 1) {
            Err(e) => Err(e),
            Ok((token, j)) => {
                let k = blanks_end(s, j);
                if i < k <= s.len() {
                    token_then(token, tokens_from(s, k))
                } else {
                    Ok(seq![token])
                }
            },
        }
    } else {
        match bare_end(s, i) {
            Err(e) => Err(e),
            Ok(j) => {
                let k = blanks_end(s, j);
                if i < k <= s.len() {
                    token_then(s.subrange(i, j), tokens_from(s, k))
                } else {
                    Ok(seq![s.subrange(i, j)])
                }
            },
        }
    }
}

/// The tokens of a message.
pub open spec fn tokens_of(s: Seq<u8>) -> Result<Seq<Seq<u8>>, ErrorView> {
    tokens_from(s, blanks_end(s, 0))
}

/// The first index from `from` on at which there is no blank.
fn skip_blanks(s: &[u8], from: usize) -> (r: usize)
    requires
        from <= s@.len(),
    ensures
        r == blanks_end(s@, from as int),
        from <= r <= s@.len(),
        from < s@.len() && s@[from as int] <= 0x20 ==> r > from,
{
    let mut i: usize = from;
    while i < s.len() && s[i] <= 0x20
        invariant
            from <= i <= s@.len(),
            blanks_end(s@, from as int) == blanks_end(s@, i as int),
        decreases s@.len() - i,
    {
        i = i + 1;
    }
    i
}

/// The token in quotes whose rest starts at index `from`, & the index after its closing quote.
fn next_quoted(s: &[u8], from: usize) -> (r: Result<(Vec<u8>, usize), Error>)
    requires
        from <= s@.len(),
    ensures
        (match r {
            Ok((token, j)) => Ok((token@, j as int)),
            Err(e) => Err(e.deep_view()),
        }) == quoted_from(s@, from as int),
        r is Ok ==> from < r->Ok_0.1 <= s@.len(),
{
    let n: usize = s.len();
    let mut token: Vec<u8> = Vec::new();
    let mut i: usize = from;
    let ghost whole = quoted_from(s@, from as int);
    assert(token@ + whole->Ok_0.0 =~= whole->Ok_0.0);
    while i < n
        invariant
            n == s@.len(),
            from <= i <= n,
            whole == quoted_from(s@, from as int),
            whole == (match quoted_from(s@, i as int) {
                Ok((rest, end)) => Ok((token@ + rest, end)),
                Err(e) => Err(e),
            }),
        decreases n - i,
    {
        let ghost done = token@;
        if s[i] == 0x22 {
            assert(token@ + Seq::empty() =~= token@);
            return Ok((token, i + 1));
        }
        if s[i] == 0x5c {
            if i + 1 >= n {
                return Err(Error::TrailingBackslash);
            }
            i = i + 1;
        }
        let b: u8 = s[i];
        token.push(b);
        i = i + 1;
        proof {
            if let Ok((rest, end)) = quoted_from(s@, i as int) {
                assert(done + (seq![b] + rest) =~= token@ + rest);
            }
        }
    }
    Err(Error::NoClosingQuotes)
}

/// The index after the token without quotes that starts at index `from`.
fn next_bare(s: &[u8], from: usize) -> (r: Result<usize, Error>)
    requires
        from <= s@.len(),
    ensures
        (match r {
            Ok(j) => Ok(j as int),
            Err(e) => Err(e.deep_view()),
        }) == bare_end(s@, from as int),
        r is Ok ==> from <= r->Ok_0 <= s@.len(),
        r is Ok && r->Ok_0 < s@.len() ==> s@[r->Ok_0 as int] <= 0x20,
{
    let mut i: usize = from;
    while i < s.len() && s[i] > 0x20
        invariant
            from <= i <= s@.len(),
            bare_end(s@, from as int) == bare_end(s@, i as int),
        decreases s@.len() - i,
    {
        if s[i] == 0x22 || s[i] == 0x27 {
            return Err(Error::InvalidChar { c: s[i] });
        }
        i = i + 1;
    }
    Ok(i)
}

/// Tokens, as mathematical values.
pub open spec fn byte_seqs(v: Seq<Vec<u8>>) -> Seq<Seq<u8>> {
    v.map_values(|t: Vec<u8>| t@)
}

/// Break `buf` up into individual tokens while removing MPD-style quoting.
///
/// When a client sends a command, it will look like this on the wire:
///
/// ```text
/// sendmessage ${CHANNEL} "some-command \"with space\" simple \"'with single' and \\\\\""
/// ```
///
/// In other words, the MPD "sendmessage" command takes two parameters: the channel and the
/// message. The recipient (i.e. us) is responsible for breaking up the message into its constituent
/// parts (a command name & its arguments in our case).
///
/// The message will perforce be quoted according ot the MPD rules:
///
/// 1. an un-quoted token may contain any printable ASCII character except space, tab, ' & "
///
/// 2. to include spaces, tabs, '-s or "-s, the token must be enclosed in "-s, and any "-s or \\-s
///    therein must be backslash escaped
///
/// When the messages is delivered to us, it has already been un-escaped; i.e. we will see the
/// string:
///
/// ```text
/// some-command "with space" simple "'with single' and \\"
/// ```
///
/// This function will break that string up into individual tokens with one more level
/// of escaping removed; i.e. it will yield the four tokens:
///
/// 1. some-command
/// 2. with space
/// 3. simple
/// 4. 'with single' and \\
///
/// NB. This method works in terms of a slice of [`u8`] because we can't index into Strings in
/// Rust, and MPD deals only in terms of ASCII at any rate.
pub fn tokenize(buf: &[u8]) -> (r: Result<Vec<Vec<u8>>, Error>)
    ensures
        match tokens_of(buf@) {
            Ok(t) => r is Ok && byte_seqs(r->Ok_0@) == t,
            Err(e) => text::outcome_err(r, e),
        },
{
    let mut r: Vec<Vec<u8>> = Vec::new();
    let mut i: usize = skip_blanks(buf, 0);
    assert(byte_seqs(r@) =~= Seq::<Seq<u8>>::empty());
    assert(byte_seqs(r@) + tokens_of(buf@)->Ok_0 =~= tokens_of(buf@)->Ok_0);
    while i < buf.len()
        invariant
            i <= buf@.len(),
            tokens_of(buf@) == (match tokens_from(buf@, i as int) {
                Ok(rest) => Ok(byte_seqs(r@) + rest),
                Err(e) => Err(e),
            }),
        decreases buf@.len() - i,
    {
        let ghost before = byte_seqs(r@);
        if buf[i] == 0x22 {
            let (token, j) = next_quoted(buf, i + 1)?;
            let ghost t = token@;
            r.push(token);
            assert(byte_seqs(r@) =~= before.push(t));
            i = skip_blanks(buf, j);
            proof {
                if let Ok(rest) = tokens_from(buf@, i as int) {
                    assert(before + (seq![t] + rest) =~= byte_seqs(r@) + rest);
                }
            }
        } else {
            let j: usize = next_bare(buf, i)?;
            let token = vstd::slice::slice_to_vec(vstd::slice::slice_subrange(buf, i, j));
            let ghost t = token@;
            r.push(token);
            assert(byte_seqs(r@) =~= before.push(t));
            i = skip_blanks(buf, j);
            proof {
                if let Ok(rest) = tokens_from(buf@, i as int) {
                    assert(before + (seq![t] + rest) =~= byte_seqs(r@) + rest);
                }
            }
        }
    }
    assert(byte_seqs(r@) + Seq::empty() =~= byte_seqs(r@));
    Ok(r)
}

/// The first `n` tokens, as texts; the first that is none is the one that is reported.
pub open spec fn token_texts(t: Seq<Seq<u8>>, n: int) -> Result<Seq<Seq<char>>, ErrorView>
    decreases n,
{
    if n <= 0 {
        Ok(Seq::empty())
    } else {
        match token_texts(t, n - 1) {
            Err(e) => Err(e),
            Ok(done) => match text::decoded(t[n - 1]) {
                Ok(s) => Ok(done.push(s)),
                Err(fault) => Err(ErrorView::Utf8 { source: fault, buf: t[n - 1] }),
            },
        }
    }
}

/// The tokens of a message, as texts.
pub open spec fn arguments_of(msg: Seq<char>) -> Result<Seq<Seq<char>>, ErrorView> {
    match tokens_of(vstd::utf8::encode_utf8(msg)) {
        Err(e) => Err(e),
        Ok(t) => token_texts(t, t.len() as int),
    }
}

proof fn lemma_token_texts_err(t: Seq<Seq<u8>>, n: int, m: int)
    requires
        n <= m,
        token_texts(t, n) is Err,
    ensures
        token_texts(t, m) == token_texts(t, n),
    decreases m - n,
{
    if n < m {
        lemma_token_texts_err(t, n, m - 1);
    }
}

/// The tokens of a message, as texts.
fn arguments(msg: &str) -> (r: Result<Vec<String>, Error>)
    ensures
        match arguments_of(msg@) {
            Ok(t) => r is Ok && text::texts(r->Ok_0@) == t,
            Err(e) => text::outcome_err(r, e),
        },
{
    let tokens = tokenize(msg.as_bytes())?;
    let ghost all = byte_seqs(tokens@);
    let mut r: Vec<String> = Vec::new();
    assert(text::texts(r@) =~= Seq::<Seq<char>>::empty());
    let mut i: usize = 0;
    while i < tokens.len()
        invariant
            all == byte_seqs(tokens@),
            i <= tokens@.len(),
            token_texts(all, i as int) == Ok::<Seq<Seq<char>>, ErrorView>(text::texts(r@)),
            arguments_of(msg@) == token_texts(all, all.len() as int),
        decreases tokens@.len() - i,
    {
        let ghost before = text::texts(r@);
        assert(all[i as int] == tokens@[i as int]@);
        let copy = vstd::slice::slice_to_vec(tokens[i].as_slice());
        match text::decode(copy) {
            Ok(s) => {
                r.push(s);
                assert(text::texts(r@) =~= before.push(s@));
            },
            Err(source) => {
                let buf = vstd::slice::slice_to_vec(tokens[i].as_slice());
                proof {
                    lemma_token_texts_err(all, i + 1, all.len() as int);
                }
                return Err(Error::Utf8 { source, buf });
            },
        }
        i = i + 1;
    }
    Ok(r)
}

// ---------------------------------------------------------------------------------------------
// Processing
// ---------------------------------------------------------------------------------------------

/// Collective state needed for processing messages, both built-in & generalized
pub struct MessageProcessor<'a> {
    music_dir: &'a str,
    rating_sticker: &'a str,
    ratings_cmd: &'a str,
    ratings_cmd_args: Vec<String>,
    playcount_sticker: &'a str,
    playcount_cmd: &'a str,
    playcount_cmd_args: Vec<String>,
    lastplayed_sticker: &'a str,
    gen_cmds: StringMap<GeneralizedCommand>,
}

/// A [`MessageProcessor`], as a mathematical value.
pub struct ProcessorView {
    pub music_dir: Seq<char>,
    pub rating_sticker: Seq<char>,
    pub ratings_cmd: Seq<char>,
    pub ratings_cmd_args: Seq<Seq<char>>,
    pub playcount_sticker: Seq<char>,
    pub playcount_cmd: Seq<char>,
    pub playcount_cmd_args: Seq<Seq<char>>,
    pub lastplayed_sticker: Seq<char>,
    pub gen_cmds: Seq<(Seq<char>, commands::CommandView)>,
}

impl<'a> DeepView for MessageProcessor<'a> {
    type V = ProcessorView;

    closed spec fn deep_view(&self) -> ProcessorView {
        ProcessorView {
            music_dir: self.music_dir@,
            rating_sticker: self.rating_sticker@,
            ratings_cmd: self.ratings_cmd@,
            ratings_cmd_args: text::texts(self.ratings_cmd_args@),
            playcount_sticker: self.playcount_sticker@,
            playcount_cmd: self.playcount_cmd@,
            playcount_cmd_args: text::texts(self.playcount_cmd_args@),
            lastplayed_sticker: self.lastplayed_sticker@,
            gen_cmds: self.gen_cmds.deep_view(),
        }
    }
}

/// What comes of a message: perhaps a command to be run.
pub type Response = Result<Option<TaggedView>, ErrorView>;

/// The track that a message is about: the one it names, or else the current one.
pub open spec fn track_of(track: Seq<char>, state: StatusView) -> Result<Seq<char>, ErrorView> {
    if track.len() > 0 {
        Ok(track)
    } else {
        match clients::song_of(state) {
            Some(curr) => Ok(curr.file),
            None => Err(ErrorView::PlayerStopped),
        }
    }
}

/// Rating a track.
pub open spec fn rated_spec(p: ProcessorView, file: Seq<char>, rating: u8, s: Session) -> (
    Response,
    Session,
) {
    let (r, s1) = ratings::set_rating_spec(
        s,
        p.rating_sticker,
        file,
        rating,
        p.ratings_cmd,
        p.ratings_cmd_args,
        p.music_dir,
    );
    match r {
        Ok(command) => (Ok(command), s1),
        Err(source) => (Err(ErrorView::Ratings { source }), s1),
    }
}

/// What comes of "rate".
pub open spec fn rate_spec(p: ProcessorView, msg: Seq<char>, state: StatusView, s: Session) -> (
    Response,
    Session,
) {
    match ratings::request_spec(msg) {
        Err(source) => (Err(ErrorView::Ratings { source }), s),
        Ok(req) => {
            let file = match req.track {
                ratings::TrackView::Current => track_of(Seq::empty(), state),
                ratings::TrackView::File(file) => Ok(file),
                ratings::TrackView::Relative(_) => Err(
                    ErrorView::NotImplemented { feature: "Relative track position"@ },
                ),
            };
            match file {
                Err(e) => (Err(e), s),
                Ok(file) => rated_spec(p, file, req.rating, s),
            }
        },
    }
}

/// The number & the track in a message, the number being no more than `hi`.
pub open spec fn counted_track(msg: Seq<char>, hi: int, state: StatusView) -> Result<
    (int, Seq<char>),
    ErrorView,
> {
    let message = text::trimmed(msg);
    let (word, track) = text::split_word(message);
    match number::parsed(word, 0, hi) {
        Err(source) => Err(ErrorView::ExpectedInt { source, text: message }),
        Ok(n) => match track_of(track, state) {
            Err(e) => Err(e),
            Ok(file) => Ok((n, file)),
        },
    }
}

/// Setting the play count of a track.
pub open spec fn counted_spec(p: ProcessorView, file: Seq<char>, pc: usize, s: Session) -> (
    Response,
    Session,
) {
    let (r, s1) = playcounts::set_play_count_spec(
        s,
        p.playcount_sticker,
        file,
        pc,
        p.playcount_cmd,
        p.playcount_cmd_args,
        p.music_dir,
    );
    match r {
        Ok(command) => (Ok(command), s1),
        Err(source) => (Err(ErrorView::Playcount { source }), s1),
    }
}

/// What comes of "setpc".
pub open spec fn setpc_spec(p: ProcessorView, msg: Seq<char>, state: StatusView, s: Session) -> (
    Response,
    Session,
) {
    match counted_track(msg, usize::MAX as int, state) {
        Err(e) => (Err(e), s),
        Ok((pc, file)) => counted_spec(p, file, pc as usize, s),
    }
}

/// Setting the last played time of a track.
pub open spec fn played_spec(p: ProcessorView, file: Seq<char>, lp: u64, s: Session) -> (
    Response,
    Session,
) {
    let (r, s1) = playcounts::set_last_played_spec(s, p.lastplayed_sticker, file, lp);
    match r {
        Ok(_) => (Ok(None), s1),
        Err(source) => (Err(ErrorView::Playcount { source }), s1),
    }
}

/// What comes of "setlp".
pub open spec fn setlp_spec(p: ProcessorView, msg: Seq<char>, state: StatusView, s: Session) -> (
    Response,
    Session,
) {
    match counted_track(msg, u64::MAX as int, state) {
        Err(e) => (Err(e), s),
        Ok((lp, file)) => played_spec(p, file, lp as u64, s),
    }
}

/// Adding the first `n` songs to the play queue. All are added, whether or not one could not be; the
/// first that could not be is the one that is reported.
pub open spec fn add_songs_spec(songs: Seq<Seq<char>>, n: int, s: Session) -> (
    Result<(), clients::ErrorView>,
    Session,
)
    decreases n,
{
    if n <= 0 {
        (Ok(()), s)
    } else {
        let (before, s1) = add_songs_spec(songs, n - 1, s);
        let (r, s2) = clients::add_spec(s1, songs[n - 1]);
        match before {
            Err(e) => (Err(e), s2),
            Ok(_) => (r, s2),
        }
    }
}

/// Adding the songs that a filter selects to the play queue.
pub open spec fn add_found_spec(
    e: Expression,
    case: bool,
    names: filters_ast::NamesView,
    s: Session,
) -> (Response, Session) {
    let (songs, s1) = filters_ast::eval_spec(e, case, names, s);
    match songs {
        Err(source) => (Err(ErrorView::Filter { source }), s1),
        Ok(songs) => {
            let (r, s2) = add_songs_spec(songs, songs.len() as int, s1);
            match r {
                Ok(_) => (Ok(None), s2),
                Err(source) => (Err(ErrorView::Client { source }), s2),
            }
        },
    }
}

/// The filter in the arguments of a message: the first of them. Without any, the filter is empty.
pub open spec fn filter_in(args: Seq<Seq<char>>) -> Seq<char> {
    if args.len() > 0 {
        args[0]
    } else {
        Seq::empty()
    }
}

/// The error for a filter that cannot be parsed.
pub open spec fn parse_failure(e: filters::FaultView) -> ErrorView {
    ErrorView::FilterParseError { msg: filters::error_message(e) }
}

/// What may come of a filter. It is read in one way, but for timestamps in it that are in the machine's time
/// zone.
pub open spec fn is_filtering(
    filter: Seq<char>,
    case: bool,
    names: filters_ast::NamesView,
    s: Session,
    r: (Response, Session),
) -> bool {
    if exists|e: Expression| filters::is_filter(filter, e) {
        exists|e: Expression| #[trigger]
            filters::is_filter(filter, e) && r == add_found_spec(e, case, names, s)
    } else {
        r == (
            Err::<Option<TaggedView>, ErrorView>(parse_failure(filters::filter_fault(filter))),
            s,
        )
    }
}

/// What may come of "findadd" & "searchadd".
pub open spec fn is_findadd(
    msg: Seq<char>,
    case: bool,
    names: filters_ast::NamesView,
    s: Session,
    r: (Response, Session),
) -> bool {
    match arguments_of(msg) {
        Err(e) => r == (Err::<Option<TaggedView>, ErrorView>(e), s),
        Ok(args) => is_filtering(filter_in(args), case, names, s, r),
    }
}

/// What comes of a message that is none of the built-in commands.
pub open spec fn generalized_spec(
    p: ProcessorView,
    msg: Seq<char>,
    state: StatusView,
    s: Session,
) -> (Response, Session) {
    match arguments_of(msg) {
        Err(e) => (Err(e), s),
        Ok(args) => invoked_spec(p, args, state, s),
    }
}

/// Invoking the general command that the first of some arguments names with the others.
pub open spec fn invoked_spec(
    p: ProcessorView,
    args: Seq<Seq<char>>,
    state: StatusView,
    s: Session,
) -> (Response, Session) {
    if args.len() == 0 {
        (Err(ErrorView::NoCommand), s)
    } else {
        match collections::lookup(p.gen_cmds, args[0]) {
            None => (Err(ErrorView::UnknownCommand { name: args[0] }), s),
            Some(command) => {
                let (r, s1) = commands::execute_spec(
                    command,
                    args.skip(1),
                    state,
                    (p.rating_sticker, p.playcount_sticker, p.lastplayed_sticker),
                    s,
                );
                match r {
                    Err(source) => (Err(ErrorView::Command { source }), s1),
                    Ok(command) => (Ok(Some(command)), s1),
                }
            },
        }
    }
}

/// What may come of a message.
pub open spec fn is_response(
    p: ProcessorView,
    msg: Seq<char>,
    state: StatusView,
    names: filters_ast::NamesView,
    s: Session,
    r: (Response, Session),
) -> bool {
    match text::after(msg, "rate "@) {
        Some(rest) => r == rate_spec(p, rest, state, s),
        None => match text::after(msg, "setpc "@) {
            Some(rest) => r == setpc_spec(p, rest, state, s),
            None => match text::after(msg, "setlp "@) {
                Some(rest) => r == setlp_spec(p, rest, state, s),
                None => match text::after(msg, "findadd "@) {
                    Some(rest) => is_findadd(rest, true, names, s, r),
                    None => match text::after(msg, "searchadd "@) {
                        Some(rest) => is_findadd(rest, false, names, s, r),
                        None => r == generalized_spec(p, msg, state, s),
                    },
                },
            },
        },
    }
}

/// The messages that are for us, in order, up to the first channel that is not ours; and that channel.
pub open spec fn our_messages(m: clients::Inbox, chan: Seq<char>, i: int) -> (
    Seq<Seq<char>>,
    Option<Seq<char>>,
)
    decreases m.len() - i,
{
    if i < 0 || i >= m.len() {
        (Seq::empty(), None)
    } else if m[i].0 != chan {
        (Seq::empty(), Some(m[i].0))
    } else {
        let (rest, unknown) = our_messages(m, chan, i + 1);
        (m[i].1 + rest, unknown)
    }
}

/// What came of a message that was processed, & the session after it.
pub struct Step {
    pub command: Option<TaggedView>,
    pub after: Session,
}

/// The session after the first `n` steps.
pub open spec fn session_after(steps: Seq<Step>, n: int, s: Session) -> Session {
    if 0 < n <= steps.len() {
        steps[n - 1].after
    } else {
        s
    }
}

/// Whether the steps may be what comes of the first messages, one by one.
pub open spec fn are_steps(
    p: ProcessorView,
    msgs: Seq<Seq<char>>,
    state: StatusView,
    names: filters_ast::NamesView,
    s: Session,
    steps: Seq<Step>,
) -> bool {
    &&& steps.len() <= msgs.len()
    &&& forall|k: int|
        0 <= k < steps.len() ==> is_response(
            p,
            msgs[k],
            state,
            names,
            session_after(steps, k, s),
            (Ok(#[trigger] steps[k].command), steps[k].after),
        )
}

/// The commands to be run of the first `n` steps.
pub open spec fn commands_of(steps: Seq<Step>, n: int) -> Seq<TaggedView>
    decreases n,
{
    if n <= 0 {
        Seq::empty()
    } else {
        match steps[n - 1].command {
            Some(command) => commands_of(steps, n - 1).push(command),
            None => commands_of(steps, n - 1),
        }
    }
}

/// What may come of processing messages, if the steps are those that succeeded: the first message to fail
/// ends the matter, and a channel that is not ours does when its turn comes.
pub open spec fn is_outcome(
    p: ProcessorView,
    msgs: Seq<Seq<char>>,
    unknown: Option<Seq<char>>,
    state: StatusView,
    names: filters_ast::NamesView,
    s: Session,
    steps: Seq<Step>,
    r: Result<(), ErrorView>,
    after: Session,
) -> bool {
    let n = steps.len() as int;
    &&& are_steps(p, msgs, state, names, s, steps)
    &&& if n < msgs.len() {
        &&& r is Err
        &&& is_response(
            p,
            msgs[n],
            state,
            names,
            session_after(steps, n, s),
            (Err(r->Err_0), after),
        )
    } else {
        &&& after == session_after(steps, n, s)
        &&& r == (match unknown {
            Some(chan) => Err(ErrorView::UnknownChannel { chan }),
            None => Ok(()),
        })
    }
}

/// What may come of processing messages: the outcome, the session after it, & the commands to be run,
/// after those that there were to be run before.
pub open spec fn is_handling(
    p: ProcessorView,
    ours: (Seq<Seq<char>>, Option<Seq<char>>),
    state: StatusView,
    names: filters_ast::NamesView,
    s: Session,
    cmds: Seq<TaggedView>,
    r: (Result<(), ErrorView>, Session, Seq<TaggedView>),
) -> bool {
    exists|steps: Seq<Step>|
        #[trigger] is_outcome(p, ours.0, ours.1, state, names, s, steps, r.0, r.1) && r.2 == cmds
            + commands_of(steps, steps.len() as int)
}

/// Commands, as mathematical values.
pub open spec fn command_views(v: Seq<TaggedCommand>) -> Seq<TaggedView> {
    v.map_values(|c: TaggedCommand| c.deep_view())
}

/// The table of general commands that the first `n` definitions come to; a later one takes the place of an
/// earlier one of the same name.
pub open spec fn command_table(defns: Seq<(String, GeneralizedCommand)>, n: int) -> Seq<
    (Seq<char>, commands::CommandView),
>
    decreases n,
{
    if n <= 0 {
        Seq::empty()
    } else {
        collections::put(
            command_table(defns, n - 1),
            defns[n - 1].0@,
            defns[n - 1].1.deep_view(),
        )
    }
}

/// Add songs to the play queue.
fn add_songs<S: RequestResponse>(songs: &StringSet, client: &mut Client<S>) -> (r: Result<
    (),
    clients::Error,
>)
    ensures
        (text::outcome(r), final(client).session()) == add_songs_spec(
            songs@,
            songs@.len() as int,
            old(client).session(),
        ),
{
    let mut r: Result<(), clients::Error> = Ok(());
    let mut i: usize = 0;
    while i < songs.len()
        invariant
            i <= songs@.len(),
            (text::outcome(r), client.session()) == add_songs_spec(
                songs@,
                i as int,
                old(client).session(),
            ),
        decreases songs@.len() - i,
    {
        let added = client.add(songs.item(i).as_str());
        if r.is_ok() {
            r = added;
        }
        i = i + 1;
    }
    r
}

impl<'a> MessageProcessor<'a> {
    /// Whip up a new instance; should just hold references in the enclosing scope
    pub fn new(
        music_dir: &'a str,
        rating_sticker: &'a str,
        ratings_cmd: &'a str,
        ratings_cmd_args: Vec<String>,
        playcount_sticker: &'a str,
        playcount_cmd: &'a str,
        playcount_cmd_args: Vec<String>,
        lastplayed_sticker: &'a str,
        gen_cmds: Vec<(String, GeneralizedCommand)>,
    ) -> (r: MessageProcessor<'a>)
        ensures
            r.deep_view() == (ProcessorView {
                music_dir: music_dir@,
                rating_sticker: rating_sticker@,
                ratings_cmd: ratings_cmd@,
                ratings_cmd_args: text::texts(ratings_cmd_args@),
                playcount_sticker: playcount_sticker@,
                playcount_cmd: playcount_cmd@,
                playcount_cmd_args: text::texts(playcount_cmd_args@),
                lastplayed_sticker: lastplayed_sticker@,
                gen_cmds: command_table(gen_cmds@, gen_cmds@.len() as int),
            }),
    {
        let ghost defns = gen_cmds@;
        let mut rest = gen_cmds;
        let mut reversed: Vec<(String, GeneralizedCommand)> = Vec::new();
        // Take the definitions off of the end, and then again to have them in order
        while rest.len() > 0
            invariant
                rest@.len() + reversed@.len() == defns.len(),
                rest@ == defns.take(rest@.len() as int),
                forall|k: int|
                    0 <= k < reversed@.len() ==> reversed@[k] == defns[defns.len() - 1 - k],
            decreases rest@.len(),
        {
            let defn = rest.pop().unwrap();
            reversed.push(defn);
            assert(rest@ =~= defns.take(rest@.len() as int));
        }
        let mut table: StringMap<GeneralizedCommand> = StringMap::new();
        assert(table.deep_view() =~= Seq::empty());
        while reversed.len() > 0
            invariant
                reversed@.len() <= defns.len(),
                forall|k: int|
                    0 <= k < reversed@.len() ==> reversed@[k] == defns[defns.len() - 1 - k],
                table.deep_view() == command_table(defns, defns.len() - reversed@.len()),
            decreases reversed@.len(),
        {
            let ghost before = table@;
            let (name, command) = reversed.pop().unwrap();
            proof {
                collections::lemma_deep_entries(before, name@, command);
            }
            table.insert(name, command);
        }
        MessageProcessor {
            music_dir,
            rating_sticker,
            ratings_cmd,
            ratings_cmd_args,
            playcount_sticker,
            playcount_cmd,
            playcount_cmd_args,
            lastplayed_sticker,
            gen_cmds: table,
        }
    }

    /// The track that a message is about.
    fn track(track: &str, state: &PlayerStatus) -> (r: Result<String, Error>)
        ensures
            text::outcome(r) == track_of(track@, state.deep_view()),
    {
        if track.is_empty() {
            match state.current_song() {
                Some(curr) => Ok(curr.file.clone()),
                None => Err(Error::PlayerStopped),
            }
        } else {
            Ok(text::owned(track))
        }
    }

    /// Handle rating message: "RATING( TRACK)?"
    pub fn rate<S: RequestResponse>(
        &self,
        msg: &str,
        client: &mut Client<S>,
        state: &PlayerStatus,
    ) -> (r: Result<Option<TaggedCommand>, Error>)
        ensures
            (text::outcome(r), final(client).session()) == rate_spec(
                self.deep_view(),
                msg@,
                state.deep_view(),
                old(client).session(),
            ),
    {
        let req = match RatingRequest::try_from(msg) {
            Ok(req) => req,
            Err(source) => {
                return Err(Error::Ratings { source });
            },
        };
        let file = match req.track {
            RatedTrack::Current => {
                proof {
                    reveal_strlit("");
                    assert(""@ =~= Seq::empty());
                }
                Self::track("", state)?
            },
            RatedTrack::File(p) => p,
            RatedTrack::Relative(_) => {
                return Err(
                    Error::NotImplemented { feature: text::owned("Relative track position") },
                );
            },
        };
        match ratings::set_rating(
            client,
            self.rating_sticker,
            file.as_str(),
            req.rating,
            self.ratings_cmd,
            &self.ratings_cmd_args,
            self.music_dir,
        ) {
            Ok(command) => Ok(command),
            Err(source) => Err(Error::Ratings { source }),
        }
    }

    /// Handle `setpc': "PC( TRACK)?"
    pub fn setpc<S: RequestResponse>(
        &self,
        msg: &str,
        client: &mut Client<S>,
        state: &PlayerStatus,
    ) -> (r: Result<Option<TaggedCommand>, Error>)
        ensures
            (text::outcome(r), final(client).session()) == setpc_spec(
                self.deep_view(),
                msg@,
                state.deep_view(),
                old(client).session(),
            ),
    {
        let text = text::trim(msg);
        let (word, track) = text::split_at_whitespace(text.as_str());
        let pc: usize = match number::parse_usize(word.as_str()) {
            Ok(pc) => pc,
            Err(source) => {
                return Err(Error::ExpectedInt { source, text });
            },
        };
        let file = Self::track(track.as_str(), state)?;
        match playcounts::set_play_count(
            client,
            self.playcount_sticker,
            file.as_str(),
            pc,
            self.playcount_cmd,
            &self.playcount_cmd_args,
            self.music_dir,
        ) {
            Ok(command) => Ok(command),
            Err(source) => Err(Error::Playcount { source }),
        }
    }

    /// Handle `setlp': "LASTPLAYED( TRACK)?"
    pub fn setlp<S: RequestResponse>(
        &self,
        msg: &str,
        client: &mut Client<S>,
        state: &PlayerStatus,
    ) -> (r: Result<Option<TaggedCommand>, Error>)
        ensures
            (text::outcome(r), final(client).session()) == setlp_spec(
                self.deep_view(),
                msg@,
                state.deep_view(),
                old(client).session(),
            ),
    {
        let text = text::trim(msg);
        let (word, track) = text::split_at_whitespace(text.as_str());
        let lp: u64 = match number::parse_u64(word.as_str()) {
            Ok(lp) => lp,
            Err(source) => {
                return Err(Error::ExpectedInt { source, text });
            },
        };
        let file = Self::track(track.as_str(), state)?;
        match playcounts::set_last_played(client, self.lastplayed_sticker, file.as_str(), lp) {
            Ok(_) => Ok(None),
            Err(source) => Err(Error::Playcount { source }),
        }
    }

    /// Add the songs that a filter selects to the play queue: case-sensitively for `findadd', & not for
    /// `searchadd'
    fn add_matching<S: RequestResponse>(
        msg: &str,
        case: bool,
        client: &mut Client<S>,
        stickers: &FilterStickerNames<'_>,
    ) -> (r: Result<Option<TaggedCommand>, Error>)
        ensures
            is_findadd(
                msg@,
                case,
                stickers.deep_view(),
                old(client).session(),
                (text::outcome(r), final(client).session()),
            ),
    {
        // Tokenize the message
        let args = arguments(msg)?;
        // there should be 1, 3 or 5 arguments. `sort' & `window' are not supported, yet.
        let filter = if args.len() > 0 {
            assert(text::texts(args@)[0] == args@[0]@);
            args[0].clone()
        } else {
            String::new()
        };
        let ast = match ExpressionParser::new().parse(filter.as_str()) {
            Ok(ast) => ast,
            Err(err) => {
                return Err(Error::FilterParseError { msg: err.message() });
            },
        };
        let songs = match filters_ast::evaluate(&*ast, case, client, stickers) {
            Ok(songs) => songs,
            Err(source) => {
                return Err(Error::Filter { source });
            },
        };
        match add_songs(&songs, client) {
            Ok(_) => Ok(None),
            Err(source) => Err(Error::Client { source }),
        }
    }

    /// Handle `findadd': "FILTER"; the search is case-sensitive
    pub fn findadd<S: RequestResponse>(
        &self,
        msg: &str,
        client: &mut Client<S>,
        stickers: &FilterStickerNames<'_>,
    ) -> (r: Result<Option<TaggedCommand>, Error>)
        ensures
            is_findadd(
                msg@,
                true,
                stickers.deep_view(),
                old(client).session(),
                (text::outcome(r), final(client).session()),
            ),
    {
        Self::add_matching(msg, true, client, stickers)
    }

    /// Handle `searchadd': "FILTER"; the search is not case-sensitive
    pub fn searchadd<S: RequestResponse>(
        &self,
        msg: &str,
        client: &mut Client<S>,
        stickers: &FilterStickerNames<'_>,
    ) -> (r: Result<Option<TaggedCommand>, Error>)
        ensures
            is_findadd(
                msg@,
                false,
                stickers.deep_view(),
                old(client).session(),
                (text::outcome(r), final(client).session()),
            ),
    {
        Self::add_matching(msg, false, client, stickers)
    }

    /// Handle a message that is none of the built-in commands
    pub fn maybe_handle_generalized_command<S: RequestResponse>(
        &self,
        msg: &str,
        client: &mut Client<S>,
        state: &PlayerStatus,
    ) -> (r: Result<Option<TaggedCommand>, Error>)
        ensures
            (text::outcome(r), final(client).session()) == generalized_spec(
                self.deep_view(),
                msg@,
                state.deep_view(),
                old(client).session(),
            ),
    {
        let args = arguments(msg)?;
        let ghost all = text::texts(args@);
        if args.len() == 0 {
            return Err(Error::NoCommand);
        }
        let name = &args[0];
        assert(all[0] == name@);
        match self.gen_cmds.get(name.as_str()) {
            None => {
                proof {
                    collections::lemma_deep_missing(self.gen_cmds@, name@);
                }
                Err(Error::UnknownCommand { name: name.clone() })
            },
            Some(command) => {
                proof {
                    collections::lemma_deep_entries(self.gen_cmds@, name@, *command);
                }
                let rest = vstd::slice::slice_subrange(args.as_slice(), 1, args.len());
                assert(text::texts(rest@) =~= all.skip(1));
                match command.execute(
                    rest,
                    state,
                    self.rating_sticker,
                    self.playcount_sticker,
                    self.lastplayed_sticker,
                    client,
                ) {
                    Ok(command) => Ok(Some(command)),
                    Err(source) => Err(Error::Command { source }),
                }
            },
        }
    }

    /// Process a single command
    pub fn process<S: RequestResponse>(
        &self,
        msg: &str,
        client: &mut Client<S>,
        state: &PlayerStatus,
        stickers: &FilterStickerNames<'_>,
    ) -> (r: Result<Option<TaggedCommand>, Error>)
        ensures
            is_response(
                self.deep_view(),
                msg@,
                state.deep_view(),
                stickers.deep_view(),
                old(client).session(),
                (text::outcome(r), final(client).session()),
            ),
    {
        if let Some(rest) = text::strip_prefix(msg, "rate ") {
            return self.rate(rest.as_str(), client, state);
        }
        if let Some(rest) = text::strip_prefix(msg, "setpc ") {
            return self.setpc(rest.as_str(), client, state);
        }
        if let Some(rest) = text::strip_prefix(msg, "setlp ") {
            return self.setlp(rest.as_str(), client, state);
        }
        if let Some(rest) = text::strip_prefix(msg, "findadd ") {
            return self.findadd(rest.as_str(), client, stickers);
        }
        if let Some(rest) = text::strip_prefix(msg, "searchadd ") {
            return self.searchadd(rest.as_str(), client, stickers);
        }
        self.maybe_handle_generalized_command(msg, client, state)
    }

    /// Read messages off the commands channel & dispatch 'em
    pub fn check_messages<S: RequestResponse, T: RequestResponse>(
        &self,
        client: &mut Client<S>,
        idle_client: &mut IdleClient<T>,
        state: &PlayerStatus,
        command_chan: &str,
        cmds: &mut Vec<TaggedCommand>,
        stickers: &FilterStickerNames<'_>,
    ) -> (r: Result<(), Error>)
        ensures
            ({
                let (inbox, t) = clients::get_messages_spec(old(idle_client).session());
                &&& final(idle_client).session() == t
                &&& match inbox {
                    Err(source) => {
                        &&& text::outcome_err(r, ErrorView::Client { source })
                        &&& final(client).session() == old(client).session()
                        &&& final(cmds)@ == old(cmds)@
                    },
                    Ok(inbox) => is_handling(
                        self.deep_view(),
                        our_messages(inbox, command_chan@, 0),
                        state.deep_view(),
                        stickers.deep_view(),
                        old(client).session(),
                        command_views(old(cmds)@),
                        (text::outcome(r), final(client).session(), command_views(final(cmds)@)),
                    ),
                }
            }),
    {
        let m = match idle_client.get_messages() {
            Ok(m) => m,
            Err(source) => {
                return Err(Error::Client { source });
            },
        };
        let ghost inbox = m.deep_view();
        let (group, unknown) = for_channel(&m, command_chan);
        let ghost msgs = text::texts(group@);
        let ghost p = self.deep_view();
        let ghost status = state.deep_view();
        let ghost names = stickers.deep_view();
        let ghost start = client.session();
        let ghost had = command_views(cmds@);
        let ghost mut steps: Seq<Step> = Seq::empty();
        assert(had + commands_of(steps, 0) =~= had);
        let mut i: usize = 0;
        while i < group.len()
            invariant
                start == old(client).session(),
                had == command_views(old(cmds)@),
                p == self.deep_view(),
                status == state.deep_view(),
                names == stickers.deep_view(),
                msgs == text::texts(group@),
                (msgs, unknown.deep_view()) == our_messages(inbox, command_chan@, 0),
                i <= group@.len(),
                steps.len() == i,
                are_steps(p, msgs, status, names, start, steps),
                client.session() == session_after(steps, i as int, start),
                command_views(cmds@) == had + commands_of(steps, i as int),
                clients::get_messages_spec(old(idle_client).session()) == (
                    Ok::<clients::Inbox, clients::ErrorView>(inbox),
                    idle_client.session(),
                ),
            decreases group@.len() - i,
        {
            let ghost so_far = command_views(cmds@);
            assert(msgs[i as int] == group@[i as int]@);
            match self.process(group[i].as_str(), client, state, stickers) {
                Err(e) => {
                    let r: Result<(), Error> = Err(e);
                    proof {
                        lemma_handling(
                            p,
                            our_messages(inbox, command_chan@, 0),
                            status,
                            names,
                            start,
                            had,
                            steps,
                            (text::outcome(r), client.session(), command_views(cmds@)),
                        );
                    }
                    return r;
                },
                Ok(command) => {
                    let ghost step = Step { command: command.deep_view(), after: client.session() };
                    proof {
                        lemma_commands_push(steps, step);
                        lemma_steps_push(p, msgs, status, names, start, steps, step);
                        steps = steps.push(step);
                    }
                    if let Some(command) = command {
                        let ghost view = command.deep_view();
                        cmds.push(command);
                        assert(command_views(cmds@) =~= so_far.push(view));
                        assert(command_views(cmds@) =~= had + commands_of(steps, i + 1));
                    }
                },
            }
            i = i + 1;
        }
        // Only supporting a single channel, ATM
        let r: Result<(), Error> = match unknown {
            Some(chan) => Err(Error::UnknownChannel { chan }),
            None => Ok(()),
        };
        proof {
            lemma_handling(
                p,
                our_messages(inbox, command_chan@, 0),
                status,
                names,
                start,
                had,
                steps,
                (text::outcome(r), client.session(), command_views(cmds@)),
            );
        }
        r
    }
}

/// The messages that are for us, in order, up to the first channel that is not ours; and that channel.
fn for_channel(m: &StringMap<Vec<String>>, chan: &str) -> (r: (Vec<String>, Option<String>))
    ensures
        (text::texts(r.0@), r.1.deep_view()) == our_messages(m.deep_view(), chan@, 0),
{
    let ghost inbox = m.deep_view();
    let mut msgs: Vec<String> = Vec::new();
    assert(text::texts(msgs@) =~= Seq::<Seq<char>>::empty());
    assert(text::texts(msgs@) + our_messages(inbox, chan@, 0).0 =~= our_messages(
        inbox,
        chan@,
        0,
    ).0);
    let mut i: usize = 0;
    while i < m.len()
        invariant
            inbox == m.deep_view(),
            i <= m@.len(),
            our_messages(inbox, chan@, 0) == ({
                let (rest, unknown) = our_messages(inbox, chan@, i as int);
                (text::texts(msgs@) + rest, unknown)
            }),
        decreases m@.len() - i,
    {
        let ghost before = text::texts(msgs@);
        proof {
            clients::lemma_texts(m@[i as int].1);
            assert(inbox[i as int] == (m@[i as int].0, text::texts(m@[i as int].1@)));
        }
        if !text::same(m.key(i).as_str(), chan) {
            assert(text::texts(msgs@) + Seq::empty() =~= text::texts(msgs@));
            return (msgs, Some(m.key(i).clone()));
        }
        let mut group = text::copies(m.value(i));
        let ghost more = text::texts(group@);
        msgs.append(&mut group);
        proof {
            assert(text::texts(msgs@) =~= before + more);
            let rest = our_messages(inbox, chan@, i + 1).0;
            assert(before + (more + rest) =~= text::texts(msgs@) + rest);
        }
        i = i + 1;
    }
    assert(text::texts(msgs@) + Seq::empty() =~= text::texts(msgs@));
    (msgs, None)
}

proof fn lemma_handling(
    p: ProcessorView,
    ours: (Seq<Seq<char>>, Option<Seq<char>>),
    state: StatusView,
    names: filters_ast::NamesView,
    s: Session,
    cmds: Seq<TaggedView>,
    steps: Seq<Step>,
    r: (Result<(), ErrorView>, Session, Seq<TaggedView>),
)
    requires
        is_outcome(p, ours.0, ours.1, state, names, s, steps, r.0, r.1),
        r.2 == cmds + commands_of(steps, steps.len() as int),
    ensures
        is_handling(p, ours, state, names, s, cmds, r),
{
}

proof fn lemma_steps_push(
    p: ProcessorView,
    msgs: Seq<Seq<char>>,
    state: StatusView,
    names: filters_ast::NamesView,
    s: Session,
    steps: Seq<Step>,
    step: Step,
)
    requires
        are_steps(p, msgs, state, names, s, steps),
        steps.len() < msgs.len(),
        is_response(
            p,
            msgs[steps.len() as int],
            state,
            names,
            session_after(steps, steps.len() as int, s),
            (Ok(step.command), step.after),
        ),
    ensures
        are_steps(p, msgs, state, names, s, steps.push(step)),
{
    let more = steps.push(step);
    assert forall|k: int| 0 <= k < more.len() implies is_response(
        p,
        msgs[k],
        state,
        names,
        session_after(more, k, s),
        (Ok(#[trigger] more[k].command), more[k].after),
    ) by {
        assert(session_after(more, k, s) == session_after(steps, k, s));
        if k < steps.len() {
            assert(more[k] == steps[k]);
            assert(steps[k].command == more[k].command);
        }
    }
}

proof fn lemma_commands_push(steps: Seq<Step>, step: Step)
    ensures
        commands_of(steps.push(step), steps.len() as int + 1) == (match step.command {
            Some(command) => commands_of(steps, steps.len() as int).push(command),
            None => commands_of(steps, steps.len() as int),
        }),
{
    lemma_commands_prefix(steps, step, steps.len() as int);
}

proof fn lemma_commands_prefix(steps: Seq<Step>, step: Step, n: int)
    requires
        0 <= n <= steps.len(),
    ensures
        commands_of(steps.push(step), n) == commands_of(steps, n),
    decreases n,
{
    if n > 0 {
        lemma_commands_prefix(steps, step, n - 1);
        assert(steps.push(step)[n - 1] == steps[n - 1]);
    }
}

// ---------------------------------------------------------------------------------------------
// Laws
// ---------------------------------------------------------------------------------------------

/// Every general command that is configured can be invoked: its name finds the last definition that has it, & a
/// name that no definition has finds nothing.
pub proof fn law_commands_found(defns: Seq<(String, GeneralizedCommand)>, name: Seq<char>)
    ensures
        forall|i: int|
            0 <= i < defns.len() && (#[trigger] defns[i]).0@ == name && (forall|j: int|
                i < j < defns.len() ==> (#[trigger] defns[j]).0@ != name) ==> collections::lookup(
                command_table(defns, defns.len() as int),
                name,
            ) == Some(defns[i].1.deep_view()),
        (forall|i: int| 0 <= i < defns.len() ==> (#[trigger] defns[i]).0@ != name)
            ==> collections::lookup(command_table(defns, defns.len() as int), name) is None,
{
    lemma_found(defns, name, defns.len() as int);
}

proof fn lemma_found(defns: Seq<(String, GeneralizedCommand)>, name: Seq<char>, n: int)
    requires
        0 <= n <= defns.len(),
    ensures
        forall|i: int|
            0 <= i < n && (#[trigger] defns[i]).0@ == name && (forall|j: int|
                i < j < n ==> (#[trigger] defns[j]).0@ != name) ==> collections::lookup(
                command_table(defns, n),
                name,
            ) == Some(defns[i].1.deep_view()),
        (forall|i: int| 0 <= i < n ==> (#[trigger] defns[i]).0@ != name) ==> collections::lookup(
            command_table(defns, n),
            name,
        ) is None,
    decreases n,
{
    if n > 0 {
        lemma_found(defns, name, n - 1);
        let last = defns[n - 1];
        let earlier = command_table(defns, n - 1);
        collections::law_put_lookup(earlier, last.0@, last.1.deep_view(), name);
    }
}

/// Adding songs adds each of them, in order, whatever comes of the others.
pub proof fn law_all_added(songs: Seq<Seq<char>>, s: Session)
    ensures
        ({
            let (r, after) = add_songs_spec(songs, songs.len() as int, s);
            &&& after.server == s.server
            &&& after.sent == s.sent + Seq::new(songs.len(), |i: int| clients::add_request(songs[i]))
            &&& r is Ok <==> forall|i: int|
                #![trigger songs[i]]
                0 <= i < songs.len() ==> clients::add_spec(
                    Session {
                        server: s.server,
                        sent: s.sent + Seq::new(i as nat, |j: int| clients::add_request(songs[j])),
                    },
                    songs[i],
                ).0 is Ok
        }),
{
    lemma_added(songs, songs.len() as int, s);
}

proof fn lemma_added(songs: Seq<Seq<char>>, n: int, s: Session)
    requires
        0 <= n <= songs.len(),
    ensures
        ({
            let (r, after) = add_songs_spec(songs, n, s);
            &&& after.server == s.server
            &&& after.sent == s.sent + Seq::new(n as nat, |i: int| clients::add_request(songs[i]))
            &&& r is Ok <==> forall|i: int|
                #![trigger songs[i]]
                0 <= i < n ==> clients::add_spec(
                    Session {
                        server: s.server,
                        sent: s.sent + Seq::new(i as nat, |j: int| clients::add_request(songs[j])),
                    },
                    songs[i],
                ).0 is Ok
        }),
    decreases n,
{
    if n > 0 {
        lemma_added(songs, n - 1, s);
        let (r, before) = add_songs_spec(songs, n - 1, s);
        let all = Seq::new(n as nat, |i: int| clients::add_request(songs[i]));
        let most = Seq::new((n - 1) as nat, |i: int| clients::add_request(songs[i]));
        assert(all =~= most.push(clients::add_request(songs[n - 1])));
        assert(s.sent + all =~= (s.sent + most).push(clients::add_request(songs[n - 1])));
        assert(before == (Session { server: s.server, sent: s.sent + most }));
        let last = songs[n - 1];
    } else {
        assert(s.sent + Seq::new(0, |i: int| clients::add_request(songs[i])) =~= s.sent);
    }
}

/// The messages that are for us are those of our channel, one after the other; the first channel that is
/// not ours ends them.
pub proof fn law_our_messages(
    chan: Seq<char>,
    first: Seq<char>,
    msgs: Seq<Seq<char>>,
    rest: clients::Inbox,
)
    ensures
        our_messages(Seq::empty(), chan, 0) == (Seq::<Seq<char>>::empty(), None::<Seq<char>>),
        our_messages(seq![(first, msgs)] + rest, chan, 0) == (if first == chan {
            (msgs + our_messages(rest, chan, 0).0, our_messages(rest, chan, 0).1)
        } else {
            (Seq::empty(), Some(first))
        }),
{
    lemma_ours_shifted((first, msgs), rest, chan, 0);
    assert((seq![(first, msgs)] + rest)[0] == (first, msgs));
}

proof fn lemma_ours_shifted(
    first: (Seq<char>, Seq<Seq<char>>),
    rest: clients::Inbox,
    chan: Seq<char>,
    i: int,
)
    requires
        0 <= i,
    ensures
        our_messages(seq![first] + rest, chan, i + 1) == our_messages(rest, chan, i),
    decreases rest.len() - i,
{
    if i < rest.len() {
        assert((seq![first] + rest)[i + 1] == rest[i]);
        lemma_ours_shifted(first, rest, chan, i + 1);
    }
}

/// The songs that a filter selects are added to the play queue, each of them & nothing else; if the filter
/// cannot be evaluated, none is added.
pub proof fn law_found_added(
    e: Expression,
    case: bool,
    names: filters_ast::NamesView,
    s: Session,
)
    ensures
        ({
            let (songs, found) = filters_ast::eval_spec(e, case, names, s);
            let (r, after) = add_found_spec(e, case, names, s);
            match songs {
                Ok(songs) => {
                    &&& after.server == found.server
                    &&& after.sent == found.sent + Seq::new(
                        songs.len(),
                        |i: int| clients::add_request(songs[i]),
                    )
                    &&& r matches Ok(command) ==> command is None
                    &&& r is Ok <==> forall|i: int|
                        #![trigger songs[i]]
                        0 <= i < songs.len() ==> ratings::granted(
                            Session {
                                server: found.server,
                                sent: found.sent + Seq::new(
                                    i as nat,
                                    |j: int| clients::add_request(songs[j]),
                                ),
                            },
                            clients::add_request(songs[i]),
                        )
                },
                Err(_) => r is Err && after == found,
            }
        }),
{
    let (songs, found) = filters_ast::eval_spec(e, case, names, s);
    if let Ok(songs) = songs {
        law_all_added(songs, found);
    }
}

/// A message that invokes a general command runs the command of the name that comes first, with the
/// arguments after that, in order; a name that is not known, & no name at all, is refused, with nothing
/// asked of the server.
pub proof fn law_invoked(
    p: ProcessorView,
    name: Seq<char>,
    args: Seq<Seq<char>>,
    state: StatusView,
    s: Session,
)
    ensures
        invoked_spec(p, Seq::empty(), state, s).0 is Err,
        invoked_spec(p, Seq::empty(), state, s).1 == s,
        ({
            let (r, after) = invoked_spec(p, seq![name] + args, state, s);
            match collections::lookup(p.gen_cmds, name) {
                None => r == Err::<Option<TaggedView>, ErrorView>(
                    ErrorView::UnknownCommand { name },
                ) && after == s,
                Some(command) => {
                    let (done, asked) = commands::execute_spec(
                        command,
                        args,
                        state,
                        (p.rating_sticker, p.playcount_sticker, p.lastplayed_sticker),
                        s,
                    );
                    &&& after == asked
                    &&& r is Ok <==> done is Ok
                    &&& done matches Ok(run) ==> r->Ok_0 == Some(run)
                },
            }
        }),
{
    assert((seq![name] + args).skip(1) =~= args);
}

/// Messages are processed one by one. Without any, nothing is done; & what comes of some messages & one
/// more is what comes of the others, &, if they succeed, of that one then. The commands that are to be run
/// are added to those before.
pub proof fn law_one_by_one(
    p: ProcessorView,
    msgs: Seq<Seq<char>>,
    msg: Seq<char>,
    state: StatusView,
    names: filters_ast::NamesView,
    s: Session,
    cmds: Seq<TaggedView>,
    r: (Result<(), ErrorView>, Session, Seq<TaggedView>),
)
    ensures
        is_handling(p, (Seq::empty(), None), state, names, s, cmds, r) ==> r == (
            Ok::<(), ErrorView>(()),
            s,
            cmds,
        ),
        is_handling(p, (msgs.push(msg), None), state, names, s, cmds, r) ==> {
            ||| r.0 is Err && is_handling(p, (msgs, None), state, names, s, cmds, r)
            ||| exists|between: Session, started: Seq<TaggedView>, response: Response|
                {
                    &&& #[trigger] is_handling(
                        p,
                        (msgs, None),
                        state,
                        names,
                        s,
                        cmds,
                        (Ok(()), between, started),
                    )
                    &&& #[trigger] is_response(p, msg, state, names, between, (response, r.1))
                    &&& match response {
                        Ok(command) => r.0 is Ok && r.2 == (match command {
                            Some(command) => started.push(command),
                            None => started,
                        }),
                        Err(e) => r.0 == Err::<(), ErrorView>(e) && r.2 == started,
                    }
                }
        },
{
    if is_handling(p, (Seq::empty(), None), state, names, s, cmds, r) {
        let steps = choose|steps: Seq<Step>|
            #[trigger] is_outcome(p, Seq::empty(), None, state, names, s, steps, r.0, r.1) && r.2
                == cmds + commands_of(steps, steps.len() as int);
        assert(cmds + Seq::<TaggedView>::empty() =~= cmds);
    }
    if is_handling(p, (msgs.push(msg), None), state, names, s, cmds, r) {
        let steps = choose|steps: Seq<Step>|
            #[trigger] is_outcome(p, msgs.push(msg), None, state, names, s, steps, r.0, r.1) && r.2
                == cmds + commands_of(steps, steps.len() as int);
        lemma_one_by_one(p, msgs, msg, state, names, s, cmds, steps, r);
    }
}

/// Whether the others of some messages succeed, & one more is processed then.
spec fn goes_on(
    p: ProcessorView,
    msgs: Seq<Seq<char>>,
    msg: Seq<char>,
    state: StatusView,
    names: filters_ast::NamesView,
    s: Session,
    cmds: Seq<TaggedView>,
    r: (Result<(), ErrorView>, Session, Seq<TaggedView>),
    between: Session,
    started: Seq<TaggedView>,
    response: Response,
) -> bool {
    &&& is_handling(p, (msgs, None), state, names, s, cmds, (Ok(()), between, started))
    &&& is_response(p, msg, state, names, between, (response, r.1))
    &&& match response {
        Ok(command) => r.0 is Ok && r.2 == (match command {
            Some(command) => started.push(command),
            None => started,
        }),
        Err(e) => r.0 == Err::<(), ErrorView>(e) && r.2 == started,
    }
}

proof fn lemma_one_by_one(
    p: ProcessorView,
    msgs: Seq<Seq<char>>,
    msg: Seq<char>,
    state: StatusView,
    names: filters_ast::NamesView,
    s: Session,
    cmds: Seq<TaggedView>,
    steps: Seq<Step>,
    r: (Result<(), ErrorView>, Session, Seq<TaggedView>),
)
    requires
        is_outcome(p, msgs.push(msg), None, state, names, s, steps, r.0, r.1),
        r.2 == cmds + commands_of(steps, steps.len() as int),
    ensures
        r.0 is Err && is_handling(p, (msgs, None), state, names, s, cmds, r) || exists|
            between: Session,
            started: Seq<TaggedView>,
            response: Response,
        | #[trigger]
            goes_on(p, msgs, msg, state, names, s, cmds, r, between, started, response),
{
    if steps.len() < msgs.len() {
        lemma_stops(p, msgs, msg, state, names, s, steps, r);
        lemma_handling(p, (msgs, None), state, names, s, cmds, steps, r);
    } else {
        let n = msgs.len() as int;
        let first = steps.take(n);
        let between = session_after(first, n, s);
        let started = cmds + commands_of(first, n);
        let done = Ok::<(), ErrorView>(());
        lemma_first_steps(p, msgs, msg, state, names, s, steps);
        lemma_handling(p, (msgs, None), state, names, s, cmds, first, (done, between, started));
        lemma_commands_of(steps, first, n);
        let response = lemma_last(p, msgs, msg, state, names, s, steps, r);
        if let Ok(Some(command)) = response {
            assert(r.2 =~= started.push(command));
        }
        assert(goes_on(p, msgs, msg, state, names, s, cmds, r, between, started, response));
    }
}

proof fn lemma_stops(
    p: ProcessorView,
    msgs: Seq<Seq<char>>,
    msg: Seq<char>,
    state: StatusView,
    names: filters_ast::NamesView,
    s: Session,
    steps: Seq<Step>,
    r: (Result<(), ErrorView>, Session, Seq<TaggedView>),
)
    requires
        is_outcome(p, msgs.push(msg), None, state, names, s, steps, r.0, r.1),
        steps.len() < msgs.len(),
    ensures
        r.0 is Err,
        is_outcome(p, msgs, None, state, names, s, steps, r.0, r.1),
{
    let all = msgs.push(msg);
    assert forall|k: int| 0 <= k < steps.len() implies is_response(
        p,
        msgs[k],
        state,
        names,
        session_after(steps, k, s),
        (Ok(#[trigger] steps[k].command), steps[k].after),
    ) by {
        assert(all[k] == msgs[k]);
    }
    assert(all[steps.len() as int] == msgs[steps.len() as int]);
}

proof fn lemma_last(
    p: ProcessorView,
    msgs: Seq<Seq<char>>,
    msg: Seq<char>,
    state: StatusView,
    names: filters_ast::NamesView,
    s: Session,
    steps: Seq<Step>,
    r: (Result<(), ErrorView>, Session, Seq<TaggedView>),
) -> (response: Response)
    requires
        is_outcome(p, msgs.push(msg), None, state, names, s, steps, r.0, r.1),
        steps.len() >= msgs.len(),
    ensures
        ({
            let n = msgs.len() as int;
            let between = session_after(steps.take(n), n, s);
            &&& is_response(p, msg, state, names, between, (response, r.1))
            &&& steps.len() == n ==> r.0 is Err && response == Err::<Option<TaggedView>, ErrorView>(
                r.0->Err_0,
            )
            &&& steps.len() != n ==> steps.len() == n + 1 && r.0 is Ok && response == Ok::<
                Option<TaggedView>,
                ErrorView,
            >(steps[n].command)
        }),
{
    let n = msgs.len() as int;
    assert(msgs.push(msg)[n] == msg);
    assert(session_after(steps.take(n), n, s) == session_after(steps, n, s));
    if steps.len() == n {
        Err(r.0->Err_0)
    } else {
        Ok(steps[n].command)
    }
}

proof fn lemma_first_steps(
    p: ProcessorView,
    msgs: Seq<Seq<char>>,
    msg: Seq<char>,
    state: StatusView,
    names: filters_ast::NamesView,
    s: Session,
    steps: Seq<Step>,
)
    requires
        are_steps(p, msgs.push(msg), state, names, s, steps),
        steps.len() >= msgs.len(),
    ensures
        are_steps(p, msgs, state, names, s, steps.take(msgs.len() as int)),
        is_outcome(
            p,
            msgs,
            None,
            state,
            names,
            s,
            steps.take(msgs.len() as int),
            Ok(()),
            session_after(steps.take(msgs.len() as int), msgs.len() as int, s),
        ),
{
    let first = steps.take(msgs.len() as int);
    assert forall|k: int| 0 <= k < first.len() implies is_response(
        p,
        msgs[k],
        state,
        names,
        session_after(first, k, s),
        (Ok(#[trigger] first[k].command), first[k].after),
    ) by {
        assert(steps[k].command == first[k].command);
        assert(msgs.push(msg)[k] == msgs[k]);
        assert(session_after(first, k, s) == session_after(steps, k, s));
    }
}

proof fn lemma_commands_of(a: Seq<Step>, b: Seq<Step>, n: int)
    requires
        0 <= n <= a.len(),
        n <= b.len(),
        forall|k: int| 0 <= k < n ==> #[trigger] a[k] == b[k],
    ensures
        commands_of(a, n) == commands_of(b, n),
    decreases n,
{
    if n > 0 {
        lemma_commands_of(a, b, n - 1);
        assert(a[n - 1] == b[n - 1]);
    }
}

/// If all messages succeed, a channel that is not ours is still reported; if one fails, that is what is
/// reported.
pub proof fn law_other_channel(
    p: ProcessorView,
    msgs: Seq<Seq<char>>,
    chan: Seq<char>,
    state: StatusView,
    names: filters_ast::NamesView,
    s: Session,
    cmds: Seq<TaggedView>,
    r: (Result<(), ErrorView>, Session, Seq<TaggedView>),
)
    ensures
        is_handling(p, (msgs, Some(chan)), state, names, s, cmds, r) ==> r.0 is Err && (is_handling(
            p,
            (msgs, None),
            state,
            names,
            s,
            cmds,
            r,
        ) || r.0 == Err::<(), ErrorView>(ErrorView::UnknownChannel { chan }) && is_handling(
            p,
            (msgs, None),
            state,
            names,
            s,
            cmds,
            (Ok(()), r.1, r.2),
        )),
{
    if is_handling(p, (msgs, Some(chan)), state, names, s, cmds, r) {
        let steps = choose|steps: Seq<Step>|
            #[trigger] is_outcome(p, msgs, Some(chan), state, names, s, steps, r.0, r.1) && r.2
                == cmds + commands_of(steps, steps.len() as int);
        if steps.len() < msgs.len() {
            lemma_handling(p, (msgs, None), state, names, s, cmds, steps, r);
        } else {
            lemma_handling(p, (msgs, None), state, names, s, cmds, steps, (Ok(()), r.1, r.2));
        }
    }
}

} // verus!
