//! A minimal MPD client.
//!
//! The types here carry out the few operations needed to follow the player & keep stickers, without
//! quoting what they are given. Cf. the [MPD protocol](http://www.musicpd.org/doc/protocol/).

use vstd::prelude::*;

use crate::clients;
use crate::clients::{CurrentSong, IdleSubSystem, PlayerStatus, RequestResponse, Session};
use crate::collections::StringMap;
use crate::fields;
use crate::number;
use crate::text;

verus! {

// ---------------------------------------------------------------------------------------------
// Errors
// ---------------------------------------------------------------------------------------------

/// An enumeration of `mpd' client errors
#[derive(Debug)]
pub enum Cause {
    /// An error occurred in some sub-system (network I/O, or string formatting, e.g.)
    SubModule,
    /// Error upon connecting to the mpd server; comes with the text returned (if any)
    Connect(String),
    /// Error in regex matching on mpd output
    Regex(String),
    /// Error in respone to "readmessages"
    GetMessages(String),
    /// Error in respone to "sticker set"
    StickerSet(String),
    /// Error in respone to "subscribe"
    Subscribe(String),
    /// Erorr in respone to "idle"
    Idle(String),
    /// Unknown idle subsystem
    IdleSubsystem(String),
}

/// A [`Cause`], as a mathematical value.
pub enum CauseView {
    SubModule,
    Connect(Seq<char>),
    Regex(Seq<char>),
    GetMessages(Seq<char>),
    StickerSet(Seq<char>),
    Subscribe(Seq<char>),
    Idle(Seq<char>),
    IdleSubsystem(Seq<char>),
}

impl DeepView for Cause {
    type V = CauseView;

    open spec fn deep_view(&self) -> CauseView {
        match self {
            Cause::SubModule => CauseView::SubModule,
            Cause::Connect(x) => CauseView::Connect(x@),
            Cause::Regex(x) => CauseView::Regex(x@),
            Cause::GetMessages(x) => CauseView::GetMessages(x@),
            Cause::StickerSet(x) => CauseView::StickerSet(x@),
            Cause::Subscribe(x) => CauseView::Subscribe(x@),
            Cause::Idle(x) => CauseView::Idle(x@),
            Cause::IdleSubsystem(x) => CauseView::IdleSubsystem(x@),
        }
    }
}

/// An error with which a sub-system fails
#[derive(Debug)]
pub enum Source {
    /// The connection's
    Connection(clients::Error),
    /// That of a text that should have been an integer
    ParseInt(number::ParseError),
    /// That of a text that should have been a floating point number
    ParseFloat {
        /// Whether there is no text at all
        empty: bool,
    },
}

/// A [`Source`], as a mathematical value.
pub enum SourceView {
    Connection(clients::ErrorView),
    ParseInt(number::ParseError),
    ParseFloat { empty: bool },
}

impl DeepView for Source {
    type V = SourceView;

    open spec fn deep_view(&self) -> SourceView {
        match self {
            Source::Connection(e) => SourceView::Connection(e.deep_view()),
            Source::ParseInt(e) => SourceView::ParseInt(*e),
            Source::ParseFloat { empty } => SourceView::ParseFloat { empty: *empty },
        }
    }
}

/// How the error of a sub-system is written out in full, on one line.
pub open spec fn source_text(source: SourceView) -> Seq<char> {
    match source {
        SourceView::Connection(e) => clients::debug_message(e),
        SourceView::ParseInt(e) => "ParseIntError { kind: "@ + number::name_of(e) + " }"@,
        SourceView::ParseFloat { empty } => if empty {
            "ParseFloatError { kind: Empty }"@
        } else {
            "ParseFloatError { kind: Invalid }"@
        },
    }
}

impl Source {
    /// The error written out in full, on one line.
    fn text(&self) -> (r: String)
        ensures
            r@ == source_text(self.deep_view()),
    {
        match self {
            Source::Connection(e) => e.debug(),
            Source::ParseInt(e) => text::join3("ParseIntError { kind: ", e.name(), " }"),
            Source::ParseFloat { empty } => if *empty {
                text::owned("ParseFloatError { kind: Empty }")
            } else {
                text::owned("ParseFloatError { kind: Invalid }")
            },
        }
    }
}

/// An Error that occurred when dealing with the mpd server.
///
/// This could be a direct result of an "ACK" line, or when trying to interpret the mpd server's
/// output. In the former case, there is no source. In the latter, it is the error underneath.
#[derive(Debug)]
pub struct Error {
    /// Enumerated status code
    cause: Cause,
    /// The error underneath, if any
    source: Option<Source>,
}

/// An [`Error`], as a mathematical value.
pub struct ErrorView {
    pub cause: CauseView,
    pub source: Option<SourceView>,
}

impl DeepView for Error {
    type V = ErrorView;

    closed spec fn deep_view(&self) -> ErrorView {
        ErrorView { cause: self.cause.deep_view(), source: self.source.deep_view() }
    }
}

/// The error of a cause at the protocol level.
pub open spec fn error_of(cause: CauseView) -> ErrorView {
    ErrorView { cause, source: None }
}

/// The error that has another underneath.
pub open spec fn error_over(source: SourceView) -> ErrorView {
    ErrorView { cause: CauseView::SubModule, source: Some(source) }
}

/// The words in which an error is reported: a representation suitable for writing to a log file or stderr. An
/// error with another underneath gives that one, if any, in full, on one line.
pub open spec fn error_message(e: ErrorView) -> Seq<char> {
    match e.cause {
        CauseView::SubModule => match e.source {
            Some(source) => "Cause: Some("@ + source_text(source) + ")"@,
            None => "Cause: None"@,
        },
        CauseView::Connect(x) => "Connect error: "@ + x,
        CauseView::Regex(x) => "Error in regex matching on mpd output "@ + x,
        CauseView::GetMessages(x) => "Error in respone to readmessages: "@ + x,
        CauseView::StickerSet(x) => "While setting sticker: "@ + x,
        CauseView::Subscribe(x) => "While subscribing: "@ + x,
        CauseView::Idle(x) => "In response to idle: "@ + x,
        CauseView::IdleSubsystem(x) => "Unknown idle subsystem "@ + x,
    }
}

impl Error {
    /// Create a new Error instance at the "protocol level"; i.e. when something's gone wrong in our
    /// interpretation of the mpd protocol.
    pub fn new(cause: Cause) -> (r: Error)
        ensures
            r.deep_view() == error_of(cause.deep_view()),
    {
        Error { cause, source: None }
    }

    /// Create a new Error instance with another underneath.
    fn over(source: Source) -> (r: Error)
        ensures
            r.deep_view() == error_over(source.deep_view()),
    {
        Error { cause: Cause::SubModule, source: Some(source) }
    }

    /// The words in which the error is reported.
    pub fn message(&self) -> (r: String)
        ensures
            r@ == error_message(self.deep_view()),
    {
        match &self.cause {
            Cause::SubModule => match &self.source {
                Some(source) => text::join3("Cause: Some(", source.text().as_str(), ")"),
                None => text::owned("Cause: None"),
            },
            Cause::Connect(x) => text::join2("Connect error: ", x.as_str()),
            Cause::Regex(x) => text::join2("Error in regex matching on mpd output ", x.as_str()),
            Cause::GetMessages(x) => text::join2(
                "Error in respone to readmessages: ",
                x.as_str(),
            ),
            Cause::StickerSet(x) => text::join2("While setting sticker: ", x.as_str()),
            Cause::Subscribe(x) => text::join2("While subscribing: ", x.as_str()),
            Cause::Idle(x) => text::join2("In response to idle: ", x.as_str()),
            Cause::IdleSubsystem(x) => text::join2("Unknown idle subsystem ", x.as_str()),
        }
    }
}

// ---------------------------------------------------------------------------------------------
// Requests
// ---------------------------------------------------------------------------------------------

/// The outcome of an operation that makes one request: `read` of the reply, if there is one.
pub open spec fn asked<T>(
    s: Session,
    request: Seq<char>,
    read: spec_fn(Seq<char>) -> Result<T, ErrorView>,
) -> (Result<T, ErrorView>, Session) {
    let (reply, after) = s.ask(request);
    match reply {
        Ok(reply) => (read(reply), after),
        Err(e) => (Err(error_over(SourceView::Connection(e))), after),
    }
}

/// Send `msg` & wait for the reply.
fn ask<S: RequestResponse>(stream: &mut S, msg: &str) -> (r: Result<String, Error>)
    ensures
        (text::outcome(r), final(stream).session()) == asked(
            old(stream).session(),
            msg@,
            |reply: Seq<char>| Ok(reply),
        ),
{
    match stream.req(msg) {
        Ok(reply) => Ok(reply),
        Err(e) => Err(Error::over(Source::Connection(e))),
    }
}

/// What a server's greeting comes to: the protocol version.
pub open spec fn greeting_spec(bytes: Seq<u8>) -> Result<Seq<char>, ErrorView> {
    match clients::response_spec(bytes) {
        Err(e) => Err(error_over(SourceView::Connection(e))),
        Ok(s) => match text::after(s, "OK MPD "@) {
            Some(version) => Ok(text::trimmed(version)),
            None => Err(error_of(CauseView::Connect(text::trimmed(s)))),
        },
    }
}

/// Core logic for connecting to an mpd server: read its greeting.
pub fn parse_greeting(buf: Vec<u8>) -> (r: Result<String, Error>)
    ensures
        text::outcome(r) == greeting_spec(buf@),
{
    let s = match clients::response_text(buf) {
        Ok(s) => s,
        Err(e) => {
            return Err(Error::over(Source::Connection(e)));
        },
    };
    match text::strip_prefix(s.as_str(), "OK MPD ") {
        Some(version) => Ok(text::trim(version.as_str())),
        None => Err(Error::new(Cause::Connect(text::trim(s.as_str())))),
    }
}

/// The error for a text that should have been a floating point number.
pub open spec fn float_fault(s: Seq<char>) -> ErrorView {
    error_over(SourceView::ParseFloat { empty: s.len() == 0 })
}

/// The error for a text that should have been a floating point number.
fn float_error(s: &str) -> (r: Error)
    ensures
        r.deep_view() == float_fault(s@),
{
    Error::over(Source::ParseFloat { empty: s.is_empty() })
}

/// What a "status" reply says of the player.
pub open spec fn player_spec(reply: Seq<char>) -> Result<clients::PlayerView, ErrorView> {
    let bad = error_of(CauseView::Regex(reply));
    match fields::field(reply, "state"@, fields::Shape::State) {
        None => Err(bad),
        Some(state) => if state == "stop"@ {
            Ok(clients::PlayerView::Stopped)
        } else {
            match fields::field(reply, "songid"@, fields::Shape::Digits) {
                None => Err(bad),
                Some(songid) => match number::parsed(songid, 0, u64::MAX as int) {
                    Err(e) => Err(error_over(SourceView::ParseInt(e))),
                    Ok(songid) => match fields::field(reply, "elapsed"@, fields::Shape::Decimal) {
                        None => Err(bad),
                        Some(elapsed) => if fields::is_float(elapsed) {
                            Ok(
                                clients::PlayerView::Song {
                                    playing: state == "play"@,
                                    songid: songid as u64,
                                    elapsed,
                                },
                            )
                        } else {
                            Err(float_fault(elapsed))
                        },
                    },
                },
            }
        },
    }
}

/// Read a "status" reply.
fn parse_player(reply: &str) -> (r: Result<clients::Player, Error>)
    ensures
        text::outcome(r) == player_spec(reply@),
{
    let state = match fields::state(reply) {
        Some(state) => state,
        None => {
            return Err(Error::new(Cause::Regex(text::owned(reply))));
        },
    };
    if text::same(state.as_str(), "stop") {
        return Ok(clients::Player::Stopped);
    }
    let songid: u64 = match fields::songid(reply) {
        Some(digits) => match number::parse_u64(digits.as_str()) {
            Ok(songid) => songid,
            Err(e) => {
                return Err(Error::over(Source::ParseInt(e)));
            },
        },
        None => {
            return Err(Error::new(Cause::Regex(text::owned(reply))));
        },
    };
    let elapsed = match fields::elapsed(reply) {
        Some(elapsed) => elapsed,
        None => {
            return Err(Error::new(Cause::Regex(text::owned(reply))));
        },
    };
    if !fields::is_float_text(elapsed.as_str()) {
        return Err(float_error(elapsed.as_str()));
    }
    let playing: bool = text::same(state.as_str(), "play");
    Ok(clients::Player::Song { playing, songid, elapsed })
}

/// The path & duration in a "playlistid" reply.
pub open spec fn track_spec(reply: Seq<char>) -> Result<(Seq<char>, Seq<char>), ErrorView> {
    let bad = error_of(CauseView::Regex(reply));
    match fields::field(reply, "file"@, fields::Shape::Any) {
        None => Err(bad),
        Some(file) => match fields::field(reply, "duration"@, fields::Shape::Any) {
            None => Err(bad),
            Some(duration) => if fields::is_float(duration) {
                Ok((file, duration))
            } else {
                Err(float_fault(duration))
            },
        },
    }
}

/// Read a "playlistid" reply: the track's path & its duration.
fn parse_track(reply: &str) -> (r: Result<(String, String), Error>)
    ensures
        text::outcome(r) == track_spec(reply@),
{
    let file = match fields::file(reply) {
        Some(file) => file,
        None => {
            return Err(Error::new(Cause::Regex(text::owned(reply))));
        },
    };
    match fields::duration(reply) {
        Some(duration) => if fields::is_float_text(duration.as_str()) {
            Ok((file, duration))
        } else {
            Err(float_error(duration.as_str()))
        },
        None => Err(Error::new(Cause::Regex(text::owned(reply)))),
    }
}

/// The player's status: ask for it and, where there is a current song, for that song by its identifier.
pub open spec fn status_spec(s: Session) -> (Result<clients::StatusView, ErrorView>, Session) {
    let (player, s1) = asked(s, "status"@, |reply: Seq<char>| player_spec(reply));
    match player {
        Err(e) => (Err(e), s1),
        Ok(clients::PlayerView::Stopped) => (Ok(clients::StatusView::Stopped), s1),
        Ok(clients::PlayerView::Song { playing, songid, elapsed }) => {
            let (track, s2) = asked(
                s1,
                clients::playlistid_request(songid),
                |reply: Seq<char>| track_spec(reply),
            );
            match track {
                Err(e) => (Err(e), s2),
                Ok((file, duration)) => {
                    let song = clients::SongView { songid, file, elapsed, duration };
                    if playing {
                        (Ok(clients::StatusView::Play(song)), s2)
                    } else {
                        (Ok(clients::StatusView::Pause(song)), s2)
                    }
                },
            }
        },
    }
}

// ---------------------------------------------------------------------------------------------
// Client
// ---------------------------------------------------------------------------------------------

/// The request for a sticker.
pub open spec fn get_sticker_request(file: Seq<char>, sticker: Seq<char>) -> Seq<char> {
    "sticker get song \""@ + file + "\" \""@ + sticker + "\""@
}

/// The value of a sticker in the first `n` lines of a reply: that on the last line that has one.
pub open spec fn sticker_in(lines: Seq<Seq<char>>, sticker: Seq<char>, n: int) -> Option<Seq<char>>
    decreases n,
{
    if n <= 0 {
        None
    } else {
        match text::after(lines[n - 1], "sticker: "@ + sticker + "="@) {
            Some(value) => Some(value),
            None => sticker_in(lines, sticker, n - 1),
        }
    }
}

/// Find the value of a sticker in a reply.
fn find_sticker(reply: &str, sticker: &str) -> (r: Option<String>)
    ensures
        r.deep_view() == sticker_in(
            text::lines_of(reply@),
            sticker@,
            text::lines_of(reply@).len() as int,
        ),
{
    let prefix = text::join3("sticker: ", sticker, "=");
    let lines = text::lines(reply);
    let ghost all = text::lines_of(reply@);
    let mut n: usize = lines.len();
    while n > 0
        invariant
            all == text::lines_of(reply@),
            text::texts(lines@) == all,
            n <= lines@.len(),
            prefix@ == "sticker: "@ + sticker@ + "="@,
            sticker_in(all, sticker@, all.len() as int) == sticker_in(all, sticker@, n as int),
        decreases n,
    {
        assert(all[n - 1] == lines@[n - 1]@);
        match text::strip_prefix(lines[n - 1].as_str(), prefix.as_str()) {
            Some(value) => {
                return Some(value);
            },
            None => {},
        }
        n = n - 1;
    }
    None
}

/// The request to set a sticker.
pub open spec fn set_sticker_request(file: Seq<char>, sticker: Seq<char>, value: Seq<char>) -> Seq<
    char,
> {
    "sticker set song \""@ + file + "\" \""@ + sticker + "\" \""@ + value + "\""@
}

/// The first index from `i` on of a line that says that the server refused; the number of lines if there
/// is none.
pub open spec fn refusal_from(lines: Seq<Seq<char>>, i: int) -> int
    decreases lines.len() - i,
{
    if i < 0 || i >= lines.len() {
        lines.len() as int
    } else if "ACK"@.is_prefix_of(lines[i]) {
        i
    } else {
        refusal_from(lines, i + 1)
    }
}

/// What a reply to "sticker set" comes to.
pub open spec fn set_spec(reply: Seq<char>) -> Result<(), ErrorView> {
    let lines = text::lines_of(reply);
    let i = refusal_from(lines, 0);
    if i < lines.len() {
        Err(error_of(CauseView::StickerSet(lines[i])))
    } else {
        Ok(())
    }
}

/// Read a reply to "sticker set".
fn parse_set(reply: &str) -> (r: Result<(), Error>)
    ensures
        text::outcome(r) == set_spec(reply@),
{
    let lines = text::lines(reply);
    let ghost all = text::lines_of(reply@);
    let mut i: usize = 0;
    while i < lines.len()
        invariant
            all == text::lines_of(reply@),
            text::texts(lines@) == all,
            i <= lines@.len(),
            refusal_from(all, 0) == refusal_from(all, i as int),
        decreases lines@.len() - i,
    {
        assert(all[i as int] == lines@[i as int]@);
        if text::starts_with(lines[i].as_str(), "ACK") {
            return Err(Error::new(Cause::StickerSet(lines[i].clone())));
        }
        i = i + 1;
    }
    Ok(())
}

/// General-purpose mpdpopm client abstraction.
#[derive(Debug)]
pub struct Client<S: RequestResponse> {
    sock: S,
}

impl<S: RequestResponse> Client<S> {
    /// The conversation so far.
    pub closed spec fn session(&self) -> Session {
        self.sock.session()
    }

    /// A client for a connection that has been established.
    pub fn new(sock: S) -> (r: Client<S>)
        ensures
            r.session() == sock.session(),
    {
        Client { sock }
    }

    /// Retrieve the current server status.
    pub fn status(&mut self) -> (r: Result<PlayerStatus, Error>)
        ensures
            (text::outcome(r), final(self).session()) == status_spec(old(self).session()),
    {
        let reply = ask(&mut self.sock, "status")?;
        match parse_player(reply.as_str())? {
            clients::Player::Stopped => Ok(PlayerStatus::Stopped),
            clients::Player::Song { playing, songid, elapsed } => {
                // navigate from `songid'-- don't send a "currentsong" message-- the current song
                // could have changed
                let msg = text::join2("playlistid ", number::write_u64(songid).as_str());
                let reply = ask(&mut self.sock, msg.as_str())?;
                let (file, duration) = parse_track(reply.as_str())?;
                let curr = CurrentSong::new(songid, file, elapsed, duration);
                if playing {
                    Ok(PlayerStatus::Play(curr))
                } else {
                    Ok(PlayerStatus::Pause(curr))
                }
            },
        }
    }

    /// Retrieve a song sticker by name, as a string
    pub fn get_sticker(&mut self, file: &str, sticker_name: &str) -> (r: Result<Option<String>, Error>)
        ensures
            (text::outcome(r), final(self).session()) == asked(
                old(self).session(),
                get_sticker_request(file@, sticker_name@),
                |reply: Seq<char>|
                    {
                        let lines = text::lines_of(reply);
                        Ok(sticker_in(lines, sticker_name@, lines.len() as int))
                    },
            ),
    {
        let mut msg = text::join3("sticker get song \"", file, "\" \"");
        msg.append(sticker_name);
        msg.append("\"");
        let reply = ask(&mut self.sock, msg.as_str())?;
        Ok(find_sticker(reply.as_str(), sticker_name))
    }

    /// Set a song sticker by name, as text
    pub fn set_sticker(&mut self, file: &str, sticker_name: &str, sticker_value: &str) -> (r: Result<
        (),
        Error,
    >)
        ensures
            (text::outcome(r), final(self).session()) == asked(
                old(self).session(),
                set_sticker_request(file@, sticker_name@, sticker_value@),
                |reply: Seq<char>| set_spec(reply),
            ),
    {
        let mut msg = text::join3("sticker set song \"", file, "\" \"");
        msg.append(sticker_name);
        msg.append("\" \"");
        msg.append(sticker_value);
        msg.append("\"");
        let reply = ask(&mut self.sock, msg.as_str())?;
        parse_set(reply.as_str())
    }
}

// ---------------------------------------------------------------------------------------------
// IdleClient
// ---------------------------------------------------------------------------------------------

/// The subsystem of a name.
pub open spec fn subsystem_spec(s: Seq<char>) -> Result<IdleSubSystem, ErrorView> {
    match clients::subsystem_spec(s) {
        Ok(subsystem) => Ok(subsystem),
        Err(_) => Err(error_of(CauseView::IdleSubsystem(s))),
    }
}

impl IdleSubSystem {
    /// The subsystem of a name, in any case.
    pub fn from_string(text: &str) -> (r: Result<IdleSubSystem, Error>)
        ensures
            text::outcome(r) == subsystem_spec(text@),
    {
        match IdleSubSystem::try_from(text) {
            Ok(subsystem) => Ok(subsystem),
            Err(_) => Err(Error::new(Cause::IdleSubsystem(text::owned(text)))),
        }
    }
}

/// What an "idle" reply comes to: the subsystem that changed.
pub open spec fn change_spec(reply: Seq<char>) -> Result<IdleSubSystem, ErrorView> {
    match text::after(reply, "changed: "@) {
        None => Err(error_of(CauseView::Idle(reply))),
        Some(rest) => {
            let i = text::find_from(rest, '\n', 0);
            if i >= rest.len() {
                Err(error_of(CauseView::Idle(reply)))
            } else {
                match subsystem_spec(rest.take(i)) {
                    Err(e) => Err(e),
                    Ok(subsystem) => if "OK"@.is_prefix_of(rest.skip(i + 1)) {
                        Ok(subsystem)
                    } else {
                        Err(error_of(CauseView::Idle(rest.skip(i + 1))))
                    },
                }
            }
        },
    }
}

/// Read an "idle" reply. If the player state changes, it is "changed: player\nOK\n", and if a message
/// is sent, it is "changed: message\nOK\n".
fn parse_change(reply: &str) -> (r: Result<IdleSubSystem, Error>)
    ensures
        text::outcome(r) == change_spec(reply@),
{
    let rest = match text::strip_prefix(reply, "changed: ") {
        Some(rest) => rest,
        None => {
            return Err(Error::new(Cause::Idle(text::owned(reply))));
        },
    };
    let v = text::chars_of(rest.as_str());
    let i: usize = text::find_char(&v, '\n', 0);
    if i >= v.len() {
        return Err(Error::new(Cause::Idle(text::owned(reply))));
    }
    assert(v@.subrange(0, i as int) =~= v@.take(i as int));
    assert(v@.subrange(i + 1, v@.len() as int) =~= v@.skip(i + 1));
    let subsystem = IdleSubSystem::from_string(text::slice_of(&v, 0, i).as_str())?;
    let rest = text::slice_of(&v, i + 1, v.len());
    if text::starts_with(rest.as_str(), "OK") {
        Ok(subsystem)
    } else {
        Err(Error::new(Cause::Idle(rest)))
    }
}

/// What the lines of a "readmessages" reply from index `i` on come to, those before having led to `at`
/// & `m`: a line that names a channel, lines with messages for it, and so on, up to a line that is
/// "OK". Where a channel is named again, its later messages come after the ones before.
pub open spec fn messages_from(
    lines: Seq<Seq<char>>,
    i: int,
    at: clients::Reading,
    m: clients::Inbox,
) -> Result<clients::Inbox, ErrorView>
    decreases lines.len() - i,
{
    if i >= lines.len() {
        Ok(m)
    } else {
        let bad = error_of(CauseView::GetMessages(lines[i]));
        match at {
            clients::Reading::Init => match text::after(lines[i], "channel: "@) {
                Some(chan) => messages_from(
                    lines,
                    i + 1,
                    clients::Reading::Running { chan, msgs: Seq::empty() },
                    m,
                ),
                None => Err(bad),
            },
            clients::Reading::Running { chan, msgs } => match text::after(lines[i], "message: "@) {
                Some(msg) => messages_from(
                    lines,
                    i + 1,
                    clients::Reading::Running { chan, msgs: msgs.push(msg) },
                    m,
                ),
                None => match text::after(lines[i], "channel: "@) {
                    Some(next) => messages_from(
                        lines,
                        i + 1,
                        clients::Reading::Running { chan: next, msgs: Seq::empty() },
                        clients::delivered(m, chan, msgs),
                    ),
                    None => if lines[i] == "OK"@ {
                        messages_from(
                            lines,
                            i + 1,
                            clients::Reading::Finished,
                            clients::delivered(m, chan, msgs),
                        )
                    } else {
                        Err(bad)
                    },
                },
            },
            clients::Reading::Finished => Err(bad),
        }
    }
}

/// What a "readmessages" reply comes to: the messages for each channel.
pub open spec fn messages_spec(reply: Seq<char>) -> Result<clients::Inbox, ErrorView> {
    messages_from(text::lines_of(reply), 0, clients::Reading::Init, Seq::empty())
}

/// Read a "readmessages" reply.
fn parse_messages(reply: &str) -> (r: Result<StringMap<Vec<String>>, Error>)
    ensures
        text::outcome(r) == messages_spec(reply@),
{
    let lines = text::lines(reply);
    let mut m: StringMap<Vec<String>> = StringMap::new();
    assert(m.deep_view() =~= Seq::empty());
    let mut started = false;
    let mut finished = false;
    let mut chan = String::new();
    let mut msgs: Vec<String> = Vec::new();
    let mut i: usize = 0;
    let ghost all = text::lines_of(reply@);
    let ghost mut at = clients::Reading::Init;
    while i < lines.len()
        invariant
            text::texts(lines@) == all,
            i <= lines@.len(),
            at == (if finished {
                clients::Reading::Finished
            } else if started {
                clients::Reading::Running { chan: chan@, msgs: text::texts(msgs@) }
            } else {
                clients::Reading::Init
            }),
            messages_spec(reply@) == messages_from(all, i as int, at, m.deep_view()),
        decreases lines@.len() - i,
    {
        let line = &lines[i];
        assert(all[i as int] == line@);
        if finished {
            return Err(Error::new(Cause::GetMessages(line.clone())));
        } else if !started {
            match text::strip_prefix(line.as_str(), "channel: ") {
                Some(c) => {
                    chan = c;
                    msgs = Vec::new();
                    started = true;
                    assert(text::texts(msgs@) =~= Seq::<Seq<char>>::empty());
                },
                None => {
                    return Err(Error::new(Cause::GetMessages(line.clone())));
                },
            }
        } else {
            match text::strip_prefix(line.as_str(), "message: ") {
                Some(msg) => {
                    let ghost before = text::texts(msgs@);
                    msgs.push(msg);
                    assert(text::texts(msgs@) =~= before.push(msg@));
                },
                None => match text::strip_prefix(line.as_str(), "channel: ") {
                    Some(c) => {
                        clients::deliver(&mut m, &chan, msgs);
                        chan = c;
                        msgs = Vec::new();
                        assert(text::texts(msgs@) =~= Seq::<Seq<char>>::empty());
                    },
                    None => {
                        if text::same(line.as_str(), "OK") {
                            clients::deliver(&mut m, &chan, msgs);
                            msgs = Vec::new();
                            finished = true;
                        } else {
                            return Err(Error::new(Cause::GetMessages(line.clone())));
                        }
                    },
                },
            }
        }
        proof {
            at = if finished {
                clients::Reading::Finished
            } else {
                clients::Reading::Running { chan: chan@, msgs: text::texts(msgs@) }
            };
        }
        i = i + 1;
    }
    Ok(m)
}

/// What a reply to "subscribe" comes to.
pub open spec fn subscribed_spec(reply: Seq<char>) -> Result<(), ErrorView> {
    if "OK"@.is_prefix_of(reply) {
        Ok(())
    } else {
        Err(error_of(CauseView::Subscribe(reply)))
    }
}

/// mpdpopm client for "idle" connections.
#[derive(Debug)]
pub struct IdleClient<S: RequestResponse> {
    sock: S,
}

impl<S: RequestResponse> IdleClient<S> {
    /// The conversation so far.
    pub closed spec fn session(&self) -> Session {
        self.sock.session()
    }

    /// A client for a connection that has been established.
    pub fn new(sock: S) -> (r: IdleClient<S>)
        ensures
            r.session() == sock.session(),
    {
        IdleClient { sock }
    }

    /// Subscribe to an mpd channel
    pub fn subscribe(&mut self, chan: &str) -> (r: Result<(), Error>)
        ensures
            (text::outcome(r), final(self).session()) == asked(
                old(self).session(),
                "subscribe "@ + chan@,
                |reply: Seq<char>| subscribed_spec(reply),
            ),
    {
        let reply = ask(&mut self.sock, text::join2("subscribe ", chan).as_str())?;
        if text::starts_with(reply.as_str(), "OK") {
            Ok(())
        } else {
            Err(Error::new(Cause::Subscribe(reply)))
        }
    }

    /// Enter idle state-- return the subsystem that changed, causing the connection to return
    pub fn idle(&mut self) -> (r: Result<IdleSubSystem, Error>)
        ensures
            (text::outcome(r), final(self).session()) == asked(
                old(self).session(),
                "idle player message"@,
                |reply: Seq<char>| change_spec(reply),
            ),
    {
        let reply = ask(&mut self.sock, "idle player message")?;
        parse_change(reply.as_str())
    }

    /// This method simply returns the results of a "readmessages" as a map of channel name to
    /// Vec of (String) messages for that channel
    pub fn get_messages(&mut self) -> (r: Result<StringMap<Vec<String>>, Error>)
        ensures
            (text::outcome(r), final(self).session()) == asked(
                old(self).session(),
                "readmessages"@,
                |reply: Seq<char>| messages_spec(reply),
            ),
    {
        let reply = ask(&mut self.sock, "readmessages")?;
        parse_messages(reply.as_str())
    }
}

// ---------------------------------------------------------------------------------------------
// Laws
// ---------------------------------------------------------------------------------------------

/// Whether the outcomes of the same operation of the two clients are the same, or both errors.
pub open spec fn agree<T>(a: Result<T, ErrorView>, b: Result<T, clients::ErrorView>) -> bool {
    match (a, b) {
        (Ok(x), Ok(y)) => x == y,
        (Err(_), Err(_)) => true,
        _ => false,
    }
}

/// The two clients find the player in the same status, & ask the same for it.
pub proof fn law_same_status(s: Session)
    ensures
        agree(status_spec(s).0, clients::status_spec(s).0),
        status_spec(s).1 == clients::status_spec(s).1,
{
    let (reply, s1) = s.ask("status"@);
    if let Ok(reply) = reply {
        assert(agree(player_spec(reply), clients::player_spec(reply)));
        if let Ok(clients::PlayerView::Song { playing, songid, elapsed }) = player_spec(reply) {
            let (track, s2) = s1.ask(clients::playlistid_request(songid));
            if let Ok(track) = track {
                assert(agree(track_spec(track), clients::track_spec(track)));
            }
        }
    }
}

/// The two clients take the same greetings for a server's, the same replies for changes, & find the same
/// messages in replies.
pub proof fn law_same_replies(bytes: Seq<u8>, reply: Seq<char>)
    ensures
        agree(greeting_spec(bytes), clients::greeting_spec(bytes)),
        agree(change_spec(reply), clients::change_spec(reply)),
        agree(messages_spec(reply), clients::messages_spec(reply)),
        agree(
            subscribed_spec(reply),
            clients::ok_spec(reply, clients::Operation::Connect, reply),
        ),
{
    lemma_same_messages(text::lines_of(reply), 0, reply, clients::Reading::Init, Seq::empty());
}

proof fn lemma_same_messages(
    lines: Seq<Seq<char>>,
    i: int,
    reply: Seq<char>,
    at: clients::Reading,
    m: clients::Inbox,
)
    ensures
        agree(messages_from(lines, i, at, m), clients::messages_from(lines, i, reply, at, m)),
    decreases lines.len() - i,
{
    if i < lines.len() {
        match at {
            clients::Reading::Init => if let Some(chan) = text::after(lines[i], "channel: "@) {
                lemma_same_messages(
                    lines,
                    i + 1,
                    reply,
                    clients::Reading::Running { chan, msgs: Seq::empty() },
                    m,
                );
            },
            clients::Reading::Running { chan, msgs } => match text::after(lines[i], "message: "@) {
                Some(msg) => lemma_same_messages(
                    lines,
                    i + 1,
                    reply,
                    clients::Reading::Running { chan, msgs: msgs.push(msg) },
                    m,
                ),
                None => {
                    let more = clients::delivered(m, chan, msgs);
                    match text::after(lines[i], "channel: "@) {
                        Some(next) => lemma_same_messages(
                            lines,
                            i + 1,
                            reply,
                            clients::Reading::Running { chan: next, msgs: Seq::empty() },
                            more,
                        ),
                        None => lemma_same_messages(
                            lines,
                            i + 1,
                            reply,
                            clients::Reading::Finished,
                            more,
                        ),
                    }
                },
            },
            clients::Reading::Finished => {},
        }
    }
}

/// A sticker's value is what stands after its name & an equals sign, on the last line that has it; there is
/// none if no line has.
pub proof fn law_sticker_found(
    before: Seq<Seq<char>>,
    sticker: Seq<char>,
    value: Seq<char>,
    after: Seq<Seq<char>>,
)
    requires
        forall|i: int|
            0 <= i < after.len() ==> !("sticker: "@ + sticker + "="@).is_prefix_of(
                #[trigger] after[i],
            ),
    ensures
        ({
            let lines = before.push("sticker: "@ + sticker + "="@ + value) + after;
            sticker_in(lines, sticker, lines.len() as int) == Some(value)
        }),
        sticker_in(after, sticker, after.len() as int) is None,
{
    let prefix = "sticker: "@ + sticker + "="@;
    let lines = before.push(prefix + value) + after;
    let k = before.len() as int;
    assert(lines[k] == prefix + value);
    assert((prefix + value).subrange(0, prefix.len() as int) =~= prefix);
    assert((prefix + value).skip(prefix.len() as int) =~= value);
    assert forall|i: int| k + 1 <= i < lines.len() implies !prefix.is_prefix_of(#[trigger] lines[i]) by {
        assert(lines[i] == after[i - k - 1]);
    }
    lemma_no_sticker(lines, sticker, k + 1, lines.len() as int);
    lemma_no_sticker(after, sticker, 0, after.len() as int);
}

proof fn lemma_no_sticker(lines: Seq<Seq<char>>, sticker: Seq<char>, i: int, n: int)
    requires
        0 <= i <= n <= lines.len(),
        forall|k: int|
            i <= k < n ==> !("sticker: "@ + sticker + "="@).is_prefix_of(#[trigger] lines[k]),
    ensures
        sticker_in(lines, sticker, n) == sticker_in(lines, sticker, i),
    decreases n,
{
    if i < n {
        lemma_no_sticker(lines, sticker, i, n - 1);
    }
}

/// Setting a sticker fails just when a line of the reply says that the server refused, & the first such
/// line is what is reported.
pub proof fn law_sticker_set(reply: Seq<char>)
    ensures
        ({
            let lines = text::lines_of(reply);
            &&& set_spec(reply) is Ok <==> forall|i: int|
                0 <= i < lines.len() ==> !"ACK"@.is_prefix_of(#[trigger] lines[i])
            &&& forall|i: int|
                0 <= i < lines.len() && "ACK"@.is_prefix_of(#[trigger] lines[i]) && (forall|j: int|
                    0 <= j < i ==> !"ACK"@.is_prefix_of(#[trigger] lines[j])) ==> set_spec(reply)
                    == Err::<(), ErrorView>(error_of(CauseView::StickerSet(lines[i])))
        }),
{
    let lines = text::lines_of(reply);
    lemma_refusal(lines, 0);
}

proof fn lemma_refusal(lines: Seq<Seq<char>>, i: int)
    requires
        0 <= i <= lines.len(),
    ensures
        i <= refusal_from(lines, i) <= lines.len(),
        refusal_from(lines, i) < lines.len() ==> "ACK"@.is_prefix_of(lines[refusal_from(lines, i)]),
        forall|k: int|
            i <= k < refusal_from(lines, i) ==> !"ACK"@.is_prefix_of(#[trigger] lines[k]),
    decreases lines.len() - i,
{
    if i < lines.len() && !"ACK"@.is_prefix_of(lines[i]) {
        lemma_refusal(lines, i + 1);
    }
}

} // verus!
