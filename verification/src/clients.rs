//! MPD clients & associated utilities.
//!
//! This module contains basic types implementing various MPD client operations (cf. the [MPD
//! protocol](http://www.musicpd.org/doc/protocol/)). Since issuing the "idle" command will tie up
//! the connection, MPD clients often use multiple connections to the server (one to listen for
//! updates, one or more on which to issue commands). This module provides two different client
//! types: [`Client`] for general-purpose use and [`IdleClient`] for long-lived connections listening
//! for server notifications.
//!
//! What a client does is stated over a [`Session`]: the requests sent so far, and the server, as a
//! function from the requests that it has got to its reply to the last of them. An operation is then
//! a function from a session to its outcome & the session after it.

use vstd::prelude::*;

use crate::collections;
use crate::collections::StringMap;
use crate::fields;
use crate::fields::Shape;
use crate::number;
use crate::number::ParseError;
use crate::text;

verus! {

// ---------------------------------------------------------------------------------------------
// Errors
// ---------------------------------------------------------------------------------------------

/// Enumerated list of MPD operations; used in [`Error::Protocol`] to distinguish which operation it
/// was that elicited the protocol error.
#[derive(Clone, Copy, Debug, PartialEq, Eq, Structural)]
#[non_exhaustive]
pub enum Operation {
    Connect,
    Status,
    GetSticker,
    SetSticker,
    SendToPlaylist,
    SendMessage,
    Update,
    GetStoredPlaylists,
    RspToUris,
    GetStickers,
    GetAllSongs,
    Add,
    Idle,
    GetMessages,
}

/// The name of an operation.
pub open spec fn operation_name(op: Operation) -> Seq<char> {
    match op {
        Operation::Connect => "Connect"@,
        Operation::Status => "Status"@,
        Operation::GetSticker => "GetSticker"@,
        Operation::SetSticker => "SetSticker"@,
        Operation::SendToPlaylist => "SendToPlaylist"@,
        Operation::SendMessage => "SendMessage"@,
        Operation::Update => "Update"@,
        Operation::GetStoredPlaylists => "GetStoredPlaylists"@,
        Operation::RspToUris => "RspToUris"@,
        Operation::GetStickers => "GetStickers"@,
        Operation::GetAllSongs => "GetAllSongs"@,
        Operation::Add => "Add"@,
        Operation::Idle => "Idle"@,
        Operation::GetMessages => "GetMessages"@,
    }
}

impl Operation {
    /// The name of the operation.
    pub fn name(&self) -> (r: String)
        ensures
            r@ == operation_name(*self),
    {
        match self {
            Operation::Connect => text::owned("Connect"),
            Operation::Status => text::owned("Status"),
            Operation::GetSticker => text::owned("GetSticker"),
            Operation::SetSticker => text::owned("SetSticker"),
            Operation::SendToPlaylist => text::owned("SendToPlaylist"),
            Operation::SendMessage => text::owned("SendMessage"),
            Operation::Update => text::owned("Update"),
            Operation::GetStoredPlaylists => text::owned("GetStoredPlaylists"),
            Operation::RspToUris => text::owned("RspToUris"),
            Operation::GetStickers => text::owned("GetStickers"),
            Operation::GetAllSongs => text::owned("GetAllSongs"),
            Operation::Add => text::owned("Add"),
            Operation::Idle => text::owned("Idle"),
            Operation::GetMessages => text::owned("GetMessages"),
        }
    }
}

/// An MPD client error
#[derive(Debug)]
#[non_exhaustive]
#[allow(inconsistent_fields)]
pub enum Error {
    /// The server said something it should not have
    Protocol { op: Operation, msg: String },
    /// The connection failed; the payload is the operating system's account of it
    Io { source: String },
    /// A reply was not valid UTF-8; the payload says how
    Encoding { source: String },
    /// A sticker could not be read as the type wanted
    StickerConversion { sticker: String, source: ParseError },
    /// The server named a subsystem that is not one of those we wait on
    IdleSubSystem { text: String },
}

/// An [`Error`], as a mathematical value.
#[allow(inconsistent_fields)]
pub enum ErrorView {
    Protocol { op: Operation, msg: Seq<char> },
    Io { source: Seq<char> },
    Encoding { source: Seq<char> },
    StickerConversion { sticker: Seq<char>, source: ParseError },
    IdleSubSystem { text: Seq<char> },
}

impl DeepView for Error {
    type V = ErrorView;

    open spec fn deep_view(&self) -> ErrorView {
        match self {
            Error::Protocol { op, msg } => ErrorView::Protocol { op: *op, msg: msg@ },
            Error::Io { source } => ErrorView::Io { source: source@ },
            Error::Encoding { source } => ErrorView::Encoding { source: source@ },
            Error::StickerConversion { sticker, source } => ErrorView::StickerConversion {
                sticker: sticker@,
                source: *source,
            },
            Error::IdleSubSystem { text } => ErrorView::IdleSubSystem { text: text@ },
        }
    }
}

/// The protocol error of an operation.
pub open spec fn protocol(op: Operation, msg: Seq<char>) -> ErrorView {
    ErrorView::Protocol { op, msg }
}

/// The protocol error of an operation.
fn protocol_error(op: Operation, msg: &str) -> (r: Error)
    ensures
        r.deep_view() == protocol(op, msg@),
{
    Error::Protocol { op, msg: text::owned(msg) }
}

/// The words in which a client error is reported.
pub open spec fn error_message(e: ErrorView) -> Seq<char> {
    match e {
        ErrorView::Protocol { op, msg } => "Protocol error ("@ + operation_name(op) + "): "@ + msg,
        ErrorView::Io { source } => "I/O error: "@ + source,
        ErrorView::Encoding { source } => "Encoding error: "@ + source,
        ErrorView::StickerConversion { sticker, source } => "While converting sticker ``"@ + sticker
            + "'': "@ + number::message_of(source),
        ErrorView::IdleSubSystem { text } => "``"@ + text
            + "'' is not a recognized Idle subsystem"@,
    }
}

impl Error {
    /// The words in which the error is reported.
    pub fn message(&self) -> (r: String)
        ensures
            r@ == error_message(self.deep_view()),
    {
        match self {
            Error::Protocol { op, msg } => {
                let mut r = text::join3("Protocol error (", op.name().as_str(), "): ");
                r.append(msg.as_str());
                r
            },
            Error::Io { source } => text::join2("I/O error: ", source.as_str()),
            Error::Encoding { source } => text::join2("Encoding error: ", source.as_str()),
            Error::StickerConversion { sticker, source } => {
                let mut r = text::join3("While converting sticker ``", sticker.as_str(), "'': ");
                r.append(source.message().as_str());
                r
            },
            Error::IdleSubSystem { text } => text::join3(
                "``",
                text.as_str(),
                "'' is not a recognized Idle subsystem",
            ),
        }
    }
}

/// How a client error is written out in full, on one line: its name, & what it holds.
pub open spec fn debug_message(e: ErrorView) -> Seq<char> {
    match e {
        ErrorView::Protocol { op, msg } => "Protocol { op: "@ + operation_name(op) + ", msg: "@ + (
        text::debug_text(msg) + " }"@),
        ErrorView::Io { source } => "Io { source: "@ + text::debug_text(source) + " }"@,
        ErrorView::Encoding { source } => "Encoding { source: "@ + text::debug_text(source) + " }"@,
        ErrorView::StickerConversion { sticker, source } => "StickerConversion { sticker: "@
            + text::debug_text(sticker) + ", source: "@ + (number::name_of(source) + " }"@),
        ErrorView::IdleSubSystem { text } => "IdleSubSystem { text: "@ + text::debug_text(text)
            + " }"@,
    }
}

impl Error {
    /// The error written out in full, on one line.
    pub(crate) fn debug(&self) -> (r: String)
        ensures
            r@ == debug_message(self.deep_view()),
    {
        match self {
            Error::Protocol { op, msg } => {
                let op = text::join3("Protocol { op: ", op.name().as_str(), ", msg: ");
                let msg = text::join2(text::debug_str(msg.as_str()).as_str(), " }");
                text::join2(op.as_str(), msg.as_str())
            },
            Error::Io { source } => text::join3(
                "Io { source: ",
                text::debug_str(source.as_str()).as_str(),
                " }",
            ),
            Error::Encoding { source } => text::join3(
                "Encoding { source: ",
                text::debug_str(source.as_str()).as_str(),
                " }",
            ),
            Error::StickerConversion { sticker, source } => {
                let sticker = text::join3(
                    "StickerConversion { sticker: ",
                    text::debug_str(sticker.as_str()).as_str(),
                    ", source: ",
                );
                let source = text::join2(source.name(), " }");
                text::join2(sticker.as_str(), source.as_str())
            },
            Error::IdleSubSystem { text } => text::join3(
                "IdleSubSystem { text: ",
                text::debug_str(text.as_str()).as_str(),
                " }",
            ),
        }
    }
}

// ---------------------------------------------------------------------------------------------
// Sessions
// ---------------------------------------------------------------------------------------------

/// What comes back for a request: the text of the reply, or the error that prevented one.
pub type Reply = Result<Seq<char>, ErrorView>;

/// A conversation with a server.
pub struct Session {
    /// The server: what it replies to the last of the requests, having got them all in order
    pub server: spec_fn(Seq<Seq<char>>) -> Reply,
    /// The requests sent so far
    pub sent: Seq<Seq<char>>,
}

impl Session {
    /// The reply to a request, and the session after it.
    pub open spec fn ask(self, request: Seq<char>) -> (Reply, Session) {
        let sent = self.sent.push(request);
        ((self.server)(sent), Session { server: self.server, sent })
    }
}

/// The outcome of an operation that makes one request: `read` of the reply, if there is one.
pub open spec fn asked<T>(
    s: Session,
    request: Seq<char>,
    read: spec_fn(Seq<char>) -> Result<T, ErrorView>,
) -> (Result<T, ErrorView>, Session) {
    let (reply, after) = s.ask(request);
    match reply {
        Ok(reply) => (read(reply), after),
        Err(e) => (Err(e), after),
    }
}

/// A trait representing a simple, textual request/response protocol like that
/// [employed](https://www.musicpd.org/doc/html/protocol.html) by [MPD](https://www.musicpd.org/):
/// the caller sends a textual command & the server responds with a (perhaps multi-line) textual
/// response. Requests have no trailing newline.
pub trait RequestResponse {
    /// The conversation so far.
    spec fn session(&self) -> Session;

    /// Send `msg` & wait for the reply.
    fn req(&mut self, msg: &str) -> (r: Result<String, Error>)
        ensures
            (text::outcome(r), final(self).session()) == old(self).session().ask(msg@),
    ;

    /// Send `msg` & wait for the reply; the hint is used to size the buffer prior to reading the
    /// response.
    fn req_w_hint(&mut self, msg: &str, hint: usize) -> (r: Result<String, Error>)
        ensures
            (text::outcome(r), final(self).session()) == old(self).session().ask(msg@),
    ;
}

// ---------------------------------------------------------------------------------------------
// Quoting
// ---------------------------------------------------------------------------------------------

/// Whether `c` can only appear within double quotes.
pub open spec fn wants_quotes(c: char) -> bool {
    c == ' ' || c == '\t' || c == '\'' || c == '"'
}

/// Whether a text needs double quotes to be a single token.
pub open spec fn needs_quotes(s: Seq<char>) -> bool {
    exists|i: int| 0 <= i < s.len() && wants_quotes(#[trigger] s[i])
}

/// A text with its double quotes & backslashes escaped by backslashes.
pub open spec fn escaped(s: Seq<char>) -> Seq<char>
    decreases s.len(),
{
    if s.len() == 0 {
        Seq::empty()
    } else {
        let c = s.last();
        if c == '"' || c == '\\' {
            escaped(s.drop_last()).push('\\').push(c)
        } else {
            escaped(s.drop_last()).push(c)
        }
    }
}

/// A text in double quotes.
pub open spec fn in_quotes(s: Seq<char>) -> Seq<char> {
    seq!['"'] + escaped(s) + seq!['"']
}

/// A text as an argument to a command.
pub open spec fn quoted(s: Seq<char>) -> Seq<char> {
    if needs_quotes(s) {
        in_quotes(s)
    } else {
        s
    }
}

/// `text` in double quotes, with its double quotes & backslashes escaped.
pub fn enclose(text: &str) -> (r: String)
    ensures
        r@ == in_quotes(text@),
{
    let v = text::chars_of(text);
    let mut r = String::new();
    r.push('"');
    let mut i: usize = 0;
    while i < v.len()
        invariant
            i <= v@.len(),
            r@ == seq!['"'] + escaped(v@.take(i as int)),
        decreases v@.len() - i,
    {
        let ghost t = v@.take(i + 1);
        assert(t.drop_last() =~= v@.take(i as int));
        assert(t.last() == v@[i as int]);
        let c = v[i];
        if c == '"' || c == '\\' {
            r.push('\\');
        }
        r.push(c);
        assert(r@ =~= seq!['"'] + escaped(t));
        i = i + 1;
    }
    assert(v@.take(i as int) =~= text@);
    r.push('"');
    assert(r@ =~= in_quotes(text@));
    r
}

/// Quote an argument by backslash-escaping " & \ characters
pub fn quote(text: &str) -> (r: String)
    ensures
        r@ == quoted(text@),
{
    let v = text::chars_of(text);
    let mut i: usize = 0;
    while i < v.len()
        invariant
            v@ == text@,
            i <= v@.len(),
            forall|j: int| 0 <= j < i ==> !wants_quotes(#[trigger] v@[j]),
        decreases v@.len() - i,
    {
        let c = v[i];
        if c == ' ' || c == '\t' || c == '\'' || c == '"' {
            assert(wants_quotes(text@[i as int]));
            return enclose(text);
        }
        i = i + 1;
    }
    text::owned(text)
}

// ---------------------------------------------------------------------------------------------
// Connections
// ---------------------------------------------------------------------------------------------

/// The start of the line that index `i` is on, as found by walking backward from there; a line feed
/// at the very start of the bytes is not looked at.
pub open spec fn line_start(s: Seq<u8>, i: int) -> int
    decreases i,
{
    if i <= 0 {
        0
    } else if s[i] == 0x0a {
        i + 1
    } else {
        line_start(s, i - 1)
    }
}

/// Whether the bytes read so far are a complete response: they end in a line that starts with "OK"
/// or "ACK".
pub open spec fn is_complete(s: Seq<u8>) -> bool {
    &&& s.len() > 2
    &&& s.last() == 0x0a
    &&& {
        let i = line_start(s, s.len() - 2);
        ||| i + 2 < s.len() && s[i] == 0x4f && s[i + 1] == 0x4b
        ||| i + 3 < s.len() && s[i] == 0x41 && s[i + 1] == 0x43 && s[i + 2] == 0x4b
    }
}

/// Whether the bytes read so far are a complete response.
///
/// Given the request/response nature of the MPD protocol, callers expect a complete response, so a
/// connection must read until it sees either "...^OK\n" or "...^ACK...\n".
pub fn response_complete(buf: &[u8]) -> (r: bool)
    ensures
        r == is_complete(buf@),
{
    let n: usize = buf.len();
    // The shortest complete response has three bytes.
    if n <= 2 || buf[n - 1] != 0x0a {
        return false;
    }
    let mut i: usize = n - 2;
    while i > 0 && buf[i] != 0x0a
        invariant
            n == buf@.len(),
            i <= n - 2,
            line_start(buf@, n - 2) == line_start(buf@, i as int),
        decreases i,
    {
        i = i - 1;
    }
    if i > 0 {
        i = i + 1;
    }
    (n - i > 2 && buf[i] == 0x4f && buf[i + 1] == 0x4b) || (n - i > 3 && buf[i] == 0x41 && buf[i + 1]
        == 0x43 && buf[i + 2] == 0x4b)
}

/// The text of a response.
pub open spec fn response_spec(bytes: Seq<u8>) -> Result<Seq<char>, ErrorView> {
    match text::decoded(bytes) {
        Ok(s) => Ok(s),
        Err(fault) => Err(ErrorView::Encoding { source: fault }),
    }
}

/// The text of a response.
pub fn response_text(buf: Vec<u8>) -> (r: Result<String, Error>)
    ensures
        text::outcome(r) == response_spec(buf@),
{
    match text::decode(buf) {
        Ok(s) => Ok(s),
        Err(source) => Err(Error::Encoding { source }),
    }
}

/// The protocol version that a server greets with.
pub open spec fn greeting_spec(bytes: Seq<u8>) -> Result<Seq<char>, ErrorView> {
    match response_spec(bytes) {
        Err(e) => Err(e),
        Ok(s) => match text::after(s, "OK MPD "@) {
            Some(version) => Ok(text::trimmed(version)),
            None => Err(protocol(Operation::Connect, text::trimmed(s))),
        },
    }
}

/// Parse the initial response to a connection from MPD; yields the protocol version.
pub fn parse_connect_rsp(buf: Vec<u8>) -> (r: Result<String, Error>)
    ensures
        text::outcome(r) == greeting_spec(buf@),
{
    let s = match response_text(buf) {
        Ok(s) => s,
        Err(e) => {
            return Err(e);
        },
    };
    match text::strip_prefix(s.as_str(), "OK MPD ") {
        Some(version) => Ok(text::trim(version.as_str())),
        None => Err(protocol_error(Operation::Connect, text::trim(s.as_str()).as_str())),
    }
}

/// A request as it is sent.
pub open spec fn frame_spec(msg: Seq<char>) -> Seq<char> {
    msg.push('\n')
}

/// A request as it is sent: with a newline at its end.
pub fn frame(msg: &str) -> (r: String)
    ensures
        r@ == frame_spec(msg@),
{
    let mut r = text::owned(msg);
    r.push('\n');
    r
}

// ---------------------------------------------------------------------------------------------
// The player
// ---------------------------------------------------------------------------------------------

/// A description of the current track, suitable for our purposes (as in, it only tracks the
/// attributes needed for this crate's functionality). The two times are decimal numbers, as the
/// server wrote them.
#[derive(Debug)]
pub struct CurrentSong {
    /// Identifier, unique within the play queue, identifying this particular track; if the same
    /// file is listed twice in the `mpd' play queue each instance will get a distinct songid
    pub songid: u64,
    /// Path, relative to `mpd' music directory root of this track
    pub file: String,
    /// Elapsed time, in seconds, in this track
    pub elapsed: String,
    /// Total track duration, in seconds
    pub duration: String,
}

/// A [`CurrentSong`], as a mathematical value.
pub struct SongView {
    pub songid: u64,
    pub file: Seq<char>,
    pub elapsed: Seq<char>,
    pub duration: Seq<char>,
}

impl DeepView for CurrentSong {
    type V = SongView;

    open spec fn deep_view(&self) -> SongView {
        SongView {
            songid: self.songid,
            file: self.file@,
            elapsed: self.elapsed@,
            duration: self.duration@,
        }
    }
}

impl CurrentSong {
    /// A description of a track.
    pub fn new(songid: u64, file: String, elapsed: String, duration: String) -> (r: CurrentSong)
        ensures
            r.songid == songid,
            r.file@ == file@,
            r.elapsed@ == elapsed@,
            r.duration@ == duration@,
    {
        CurrentSong { songid, file, elapsed, duration }
    }
}

impl Clone for CurrentSong {
    fn clone(&self) -> (r: CurrentSong)
        ensures
            r.deep_view() == self.deep_view(),
    {
        CurrentSong {
            songid: self.songid,
            file: self.file.clone(),
            elapsed: self.elapsed.clone(),
            duration: self.duration.clone(),
        }
    }
}

/// The MPD player itself can be in one of three states: playing, paused or stopped. In the first
/// two there is a "current" song.
#[derive(Debug)]
pub enum PlayerStatus {
    Play(CurrentSong),
    Pause(CurrentSong),
    Stopped,
}

/// A [`PlayerStatus`], as a mathematical value.
pub enum StatusView {
    Play(SongView),
    Pause(SongView),
    Stopped,
}

impl DeepView for PlayerStatus {
    type V = StatusView;

    open spec fn deep_view(&self) -> StatusView {
        match self {
            PlayerStatus::Play(curr) => StatusView::Play(curr.deep_view()),
            PlayerStatus::Pause(curr) => StatusView::Pause(curr.deep_view()),
            PlayerStatus::Stopped => StatusView::Stopped,
        }
    }
}

/// The current song, if there is one.
pub open spec fn song_of(status: StatusView) -> Option<SongView> {
    match status {
        StatusView::Play(curr) => Some(curr),
        StatusView::Pause(curr) => Some(curr),
        StatusView::Stopped => None,
    }
}

impl Clone for PlayerStatus {
    fn clone(&self) -> (r: PlayerStatus)
        ensures
            r.deep_view() == self.deep_view(),
    {
        match self {
            PlayerStatus::Play(curr) => PlayerStatus::Play(curr.clone()),
            PlayerStatus::Pause(curr) => PlayerStatus::Pause(curr.clone()),
            PlayerStatus::Stopped => PlayerStatus::Stopped,
        }
    }
}

impl PlayerStatus {
    /// The current song, if there is one.
    pub fn current_song(&self) -> (r: Option<&CurrentSong>)
        ensures
            r.deep_view() == song_of(self.deep_view()),
    {
        match self {
            PlayerStatus::Play(curr) => Some(curr),
            PlayerStatus::Pause(curr) => Some(curr),
            PlayerStatus::Stopped => None,
        }
    }
}

/// What a "status" reply says of the player.
#[derive(Debug)]
pub enum Player {
    /// It is stopped
    Stopped,
    /// It is playing, or paused, somewhere in a song
    Song { playing: bool, songid: u64, elapsed: String },
}

/// A [`Player`], as a mathematical value.
pub enum PlayerView {
    Stopped,
    Song { playing: bool, songid: u64, elapsed: Seq<char> },
}

impl DeepView for Player {
    type V = PlayerView;

    open spec fn deep_view(&self) -> PlayerView {
        match self {
            Player::Stopped => PlayerView::Stopped,
            Player::Song { playing, songid, elapsed } => PlayerView::Song {
                playing: *playing,
                songid: *songid,
                elapsed: elapsed@,
            },
        }
    }
}

/// What a "status" reply says of the player.
pub open spec fn player_spec(reply: Seq<char>) -> Result<PlayerView, ErrorView> {
    let bad = protocol(Operation::Status, reply);
    match fields::field(reply, "state"@, Shape::State) {
        None => Err(bad),
        Some(state) => if state == "stop"@ {
            Ok(PlayerView::Stopped)
        } else {
            match fields::field(reply, "songid"@, Shape::Digits) {
                None => Err(bad),
                Some(songid) => match number::parsed(songid, 0, u64::MAX as int) {
                    Err(_) => Err(bad),
                    Ok(songid) => match fields::field(reply, "elapsed"@, Shape::Decimal) {
                        Some(elapsed) if fields::is_float(elapsed) => Ok(
                            PlayerView::Song {
                                playing: state == "play"@,
                                songid: songid as u64,
                                elapsed,
                            },
                        ),
                        _ => Err(bad),
                    },
                },
            }
        },
    }
}

/// Read a "status" reply. MPD may omit lines which have no (known) value, and their order is not to
/// be relied upon.
pub fn parse_player(reply: &str) -> (r: Result<Player, Error>)
    ensures
        text::outcome(r) == player_spec(reply@),
{
    proof {
        reveal_strlit("play");
        reveal_strlit("pause");
        reveal_strlit("stop");
    }
    let state = match fields::state(reply) {
        Some(state) => state,
        None => {
            return Err(protocol_error(Operation::Status, reply));
        },
    };
    if text::same(state.as_str(), "stop") {
        return Ok(Player::Stopped);
    }
    let songid: u64 = match fields::songid(reply) {
        Some(digits) => match number::parse_u64(digits.as_str()) {
            Ok(songid) => songid,
            Err(_) => {
                return Err(protocol_error(Operation::Status, reply));
            },
        },
        None => {
            return Err(protocol_error(Operation::Status, reply));
        },
    };
    let elapsed = match fields::elapsed(reply) {
        Some(elapsed) => elapsed,
        None => {
            return Err(protocol_error(Operation::Status, reply));
        },
    };
    if !fields::is_float_text(elapsed.as_str()) {
        return Err(protocol_error(Operation::Status, reply));
    }
    let playing: bool = text::same(state.as_str(), "play");
    Ok(Player::Song { playing, songid, elapsed })
}

/// The path & duration in a "playlistid" reply.
pub open spec fn track_spec(reply: Seq<char>) -> Result<(Seq<char>, Seq<char>), ErrorView> {
    let bad = protocol(Operation::Status, reply);
    match fields::field(reply, "file"@, Shape::Any) {
        None => Err(bad),
        Some(file) => match fields::field(reply, "duration"@, Shape::Any) {
            Some(duration) if fields::is_float(duration) => Ok((file, duration)),
            _ => Err(bad),
        },
    }
}

/// Read a "playlistid" reply: the track's path & its duration.
pub fn parse_track(reply: &str) -> (r: Result<(String, String), Error>)
    ensures
        text::outcome(r) == track_spec(reply@),
{
    let file = match fields::file(reply) {
        Some(file) => file,
        None => {
            return Err(protocol_error(Operation::Status, reply));
        },
    };
    match fields::duration(reply) {
        Some(duration) => if fields::is_float_text(duration.as_str()) {
            Ok((file, duration))
        } else {
            Err(protocol_error(Operation::Status, reply))
        },
        None => Err(protocol_error(Operation::Status, reply)),
    }
}

/// The request for the track with an identifier.
pub open spec fn playlistid_request(songid: u64) -> Seq<char> {
    "playlistid "@ + number::decimal(songid as nat)
}

/// The player's status: ask for it and, where there is a current song, for that song by its
/// identifier (the current song could have changed in between).
pub open spec fn status_spec(s: Session) -> (Result<StatusView, ErrorView>, Session) {
    let (player, s1) = asked(s, "status"@, |reply: Seq<char>| player_spec(reply));
    match player {
        Err(e) => (Err(e), s1),
        Ok(PlayerView::Stopped) => (Ok(StatusView::Stopped), s1),
        Ok(PlayerView::Song { playing, songid, elapsed }) => {
            let (track, s2) = asked(
                s1,
                playlistid_request(songid),
                |reply: Seq<char>| track_spec(reply),
            );
            match track {
                Err(e) => (Err(e), s2),
                Ok((file, duration)) => {
                    let song = SongView { songid, file, elapsed, duration };
                    if playing {
                        (Ok(StatusView::Play(song)), s2)
                    } else {
                        (Ok(StatusView::Pause(song)), s2)
                    }
                },
            }
        },
    }
}

// ---------------------------------------------------------------------------------------------
// Client
// ---------------------------------------------------------------------------------------------

/// A type that a sticker's value can be read as.
pub trait StickerValue: DeepView + Sized {
    /// What a text is read as.
    spec fn read_as(s: Seq<char>) -> Result<Self::V, ParseError>;

    /// Read a text.
    fn read(s: &str) -> (r: Result<Self, ParseError>)
        ensures
            text::outcome(r) == Self::read_as(s@),
    ;
}

impl StickerValue for String {
    open spec fn read_as(s: Seq<char>) -> Result<Seq<char>, ParseError> {
        Ok(s)
    }

    fn read(s: &str) -> (r: Result<String, ParseError>) {
        Ok(text::owned(s))
    }
}

impl StickerValue for u8 {
    open spec fn read_as(s: Seq<char>) -> Result<u8, ParseError> {
        match number::parsed(s, 0, 255) {
            Ok(n) => Ok(n as u8),
            Err(e) => Err(e),
        }
    }

    fn read(s: &str) -> (r: Result<u8, ParseError>) {
        number::parse_u8(s)
    }
}

impl StickerValue for usize {
    open spec fn read_as(s: Seq<char>) -> Result<usize, ParseError> {
        match number::parsed(s, 0, usize::MAX as int) {
            Ok(n) => Ok(n as usize),
            Err(e) => Err(e),
        }
    }

    fn read(s: &str) -> (r: Result<usize, ParseError>) {
        number::parse_usize(s)
    }
}

impl StickerValue for u64 {
    open spec fn read_as(s: Seq<char>) -> Result<u64, ParseError> {
        match number::parsed(s, 0, u64::MAX as int) {
            Ok(n) => Ok(n as u64),
            Err(e) => Err(e),
        }
    }

    fn read(s: &str) -> (r: Result<u64, ParseError>) {
        number::parse_u64(s)
    }
}

/// The request for a sticker of a song.
pub open spec fn get_sticker_request(file: Seq<char>, sticker: Seq<char>) -> Seq<char> {
    "sticker get song "@ + quoted(file) + " "@ + quoted(sticker)
}

/// What a reply says of a sticker: its value if the reply starts with it, and that there is none if
/// that is the error that the server reports.
pub open spec fn sticker_spec<T: StickerValue>(
    reply: Seq<char>,
    sticker: Seq<char>,
    request: Seq<char>,
) -> Result<Option<T::V>, ErrorView> {
    match text::after(reply, "sticker: "@ + sticker + "="@) {
        Some(rest) => match T::read_as(text::first_row(rest)) {
            Ok(value) => Ok(Some(value)),
            Err(source) => Err(ErrorView::StickerConversion { sticker, source }),
        },
        None => if "ACK [50@0]"@.is_prefix_of(reply) {
            Ok(None)
        } else {
            Err(protocol(Operation::GetSticker, request))
        },
    }
}

/// Read a reply to the request for a sticker.
pub fn parse_sticker<T: StickerValue>(reply: &str, sticker: &str, request: &str) -> (r: Result<
    Option<T>,
    Error,
>)
    ensures
        text::outcome(r) == sticker_spec::<T>(reply@, sticker@, request@),
{
    let prefix = text::join3("sticker: ", sticker, "=");
    match text::strip_prefix(reply, prefix.as_str()) {
        Some(rest) => {
            let row = text::up_to_newline(rest.as_str());
            match T::read(row.as_str()) {
                Ok(value) => Ok(Some(value)),
                Err(source) => Err(
                    Error::StickerConversion { sticker: text::owned(sticker), source },
                ),
            }
        },
        None => {
            // ACK_ERROR_NO_EXIST = 50
            if text::starts_with(reply, "ACK [50@0]") {
                Ok(None)
            } else {
                Err(protocol_error(Operation::GetSticker, request))
            }
        },
    }
}

/// What a reply that should be "OK" comes to.
pub open spec fn ok_spec(reply: Seq<char>, op: Operation, msg: Seq<char>) -> Result<(), ErrorView> {
    if "OK"@.is_prefix_of(reply) {
        Ok(())
    } else {
        Err(protocol(op, msg))
    }
}

/// Check a reply that should be "OK".
fn expect_ok(reply: &str, op: Operation, msg: &str) -> (r: Result<(), Error>)
    ensures
        text::outcome(r) == ok_spec(reply@, op, msg@),
{
    if text::starts_with(reply, "OK") {
        Ok(())
    } else {
        Err(protocol_error(op, msg))
    }
}

/// The request that sets a sticker of a song.
pub open spec fn set_sticker_request(
    file: Seq<char>,
    sticker: Seq<char>,
    value: Seq<char>,
) -> Seq<char> {
    "sticker set song "@ + quoted(file) + " "@ + quoted(sticker) + " "@ + quoted(value)
}

/// The request that adds a file to a playlist.
pub open spec fn playlistadd_request(file: Seq<char>, pl: Seq<char>) -> Seq<char> {
    "playlistadd "@ + quoted(pl) + " "@ + quoted(file)
}

/// The request that sends a message to a channel.
pub open spec fn sendmessage_request(chan: Seq<char>, msg: Seq<char>) -> Seq<char> {
    "sendmessage "@ + chan + " "@ + quoted(msg)
}

/// The request that updates the database for a URI.
pub open spec fn update_request(uri: Seq<char>) -> Seq<char> {
    "update \""@ + uri + "\""@
}

/// What an "update" reply comes to: the number of the job.
pub open spec fn job_spec(reply: Seq<char>) -> Result<u64, ErrorView> {
    let bad = protocol(Operation::Update, reply);
    match text::after(reply, "updating_db: "@) {
        None => Err(bad),
        Some(rest) => match number::parsed(text::first_row(rest), 0, u64::MAX as int) {
            Ok(n) => Ok(n as u64),
            Err(_) => Err(bad),
        },
    }
}

/// Read an "update" reply. It has the form
///
/// ```text
/// updating_db: JOBID
/// OK
/// ```
///
/// on success, and starts with `ACK` on failure.
pub fn parse_job(reply: &str) -> (r: Result<u64, Error>)
    ensures
        text::outcome(r) == job_spec(reply@),
{
    match text::strip_prefix(reply, "updating_db: ") {
        None => Err(protocol_error(Operation::Update, reply)),
        Some(rest) => {
            let row = text::up_to_newline(rest.as_str());
            match number::parse_u64(row.as_str()) {
                Ok(n) => Ok(n),
                Err(_) => Err(protocol_error(Operation::Update, reply)),
            }
        },
    }
}

/// The values of those of the first `n` lines that start with a prefix.
pub open spec fn values_in(lines: Seq<Seq<char>>, prefix: Seq<char>, n: int) -> Seq<Seq<char>>
    decreases n,
{
    if n <= 0 {
        Seq::empty()
    } else {
        match text::after(lines[n - 1], prefix) {
            Some(value) => values_in(lines, prefix, n - 1).push(value),
            None => values_in(lines, prefix, n - 1),
        }
    }
}

/// What a reply that lists things comes to: the values on the lines that start with `prefix`.
pub open spec fn listing_spec(reply: Seq<char>, prefix: Seq<char>, op: Operation) -> Result<
    Seq<Seq<char>>,
    ErrorView,
> {
    if "ACK"@.is_prefix_of(reply) {
        Err(protocol(op, reply))
    } else {
        let lines = text::lines_of(reply);
        Ok(values_in(lines, prefix, lines.len() as int))
    }
}

/// A vector of strings, as a mathematical value.
pub proof fn lemma_texts(v: Vec<String>)
    ensures
        v.deep_view() == text::texts(v@),
{
    assert(v.deep_view() =~= text::texts(v@));
}

/// Read a reply that lists things.
fn parse_listing(reply: &str, prefix: &str, op: Operation) -> (r: Result<Vec<String>, Error>)
    ensures
        text::outcome(r) == listing_spec(reply@, prefix@, op),
        r is Ok ==> text::texts(r->Ok_0@) == listing_spec(reply@, prefix@, op)->Ok_0,
{
    if text::starts_with(reply, "ACK") {
        return Err(protocol_error(op, reply));
    }
    let lines = text::lines(reply);
    let mut r: Vec<String> = Vec::new();
    let mut i: usize = 0;
    while i < lines.len()
        invariant
            i <= lines@.len(),
            text::texts(lines@) == text::lines_of(reply@),
            text::texts(r@) == values_in(text::lines_of(reply@), prefix@, i as int),
        decreases lines@.len() - i,
    {
        let ghost before = text::texts(r@);
        assert(text::lines_of(reply@)[i as int] == lines@[i as int]@);
        match text::strip_prefix(lines[i].as_str(), prefix) {
            Some(value) => {
                r.push(value);
                assert(text::texts(r@) =~= before.push(value@));
            },
            None => {},
        }
        i = i + 1;
    }
    proof {
        lemma_texts(r);
    }
    Ok(r)
}

/// The URIs in a reply to a search.
pub open spec fn uris_spec(reply: Seq<char>) -> Result<Seq<Seq<char>>, ErrorView> {
    listing_spec(reply, "file: "@, Operation::RspToUris)
}

/// The command that finds songs, with regard to case or without.
pub open spec fn find_word(case: bool) -> Seq<char> {
    if case {
        "find"@
    } else {
        "search"@
    }
}

/// The request for the songs for which a unary condition holds.
pub open spec fn find1_request(cond: Seq<char>, val: Seq<char>, case: bool) -> Seq<char> {
    find_word(case) + " "@ + quoted("("@ + cond + " "@ + val + ")"@)
}

/// The request for the songs for which a binary condition holds.
pub open spec fn find2_request(
    attr: Seq<char>,
    op: Seq<char>,
    val: Seq<char>,
    case: bool,
) -> Seq<char> {
    find_word(case) + " "@ + quoted("("@ + attr + " "@ + op + " "@ + val + ")"@)
}

/// The request for all instances of a sticker.
pub open spec fn get_stickers_request(sticker: Seq<char>) -> Seq<char> {
    "sticker find song \"\" "@ + sticker
}

/// What the lines of a reply from index `i` on say of a sticker: pairs of lines, the first of which
/// names a song after six bytes & the second of which gives the sticker's value after its name, up to
/// a line that is "OK". `m` holds what the lines before say.
pub open spec fn stickers_from(
    lines: Seq<Seq<char>>,
    i: int,
    sticker: Seq<char>,
    bad: ErrorView,
    m: Seq<(Seq<char>, Seq<char>)>,
) -> Result<Seq<(Seq<char>, Seq<char>)>, ErrorView>
    decreases lines.len() - i,
{
    if i >= lines.len() {
        Err(bad)
    } else if lines[i] == "OK"@ {
        Ok(m)
    } else if i + 1 >= lines.len() {
        Err(bad)
    } else {
        match (
            text::after_bytes(lines[i], 6),
            text::after_bytes(lines[i + 1], 10 + text::byte_count(sticker) as int),
        ) {
            (Some(file), Some(value)) => stickers_from(
                lines,
                i + 2,
                sticker,
                bad,
                collections::put(m, file, value),
            ),
            _ => Err(bad),
        }
    }
}

/// What a reply says of a sticker: its value for each song that has it.
pub open spec fn stickers_spec(reply: Seq<char>, sticker: Seq<char>) -> Result<
    Seq<(Seq<char>, Seq<char>)>,
    ErrorView,
> {
    let bad = protocol(Operation::GetStickers, reply);
    if "ACK"@.is_prefix_of(reply) {
        Err(bad)
    } else {
        stickers_from(text::lines_of(reply), 0, sticker, bad, Seq::empty())
    }
}

/// Read a reply to the request for all instances of a sticker. It has the form
///
/// ```text
/// file: U-Z/Zafari - Addis Adaba.mp3
/// sticker: unwoundstack.com:rating=64
/// ...
/// OK
/// ```
///
/// or starts with `ACK`. A line too short to hold what it should is a protocol error.
pub fn parse_stickers(reply: &str, sticker: &str) -> (r: Result<StringMap<String>, Error>)
    ensures
        text::outcome(r) == stickers_spec(reply@, sticker@),
{
    if text::starts_with(reply, "ACK") {
        return Err(protocol_error(Operation::GetStickers, reply));
    }
    let lines = text::lines(reply);
    let width: usize = text::byte_len(sticker);
    let mut m: StringMap<String> = StringMap::new();
    assert(m.deep_view() =~= Seq::<(Seq<char>, Seq<char>)>::empty());
    let mut i: usize = 0;
    let ghost all = text::lines_of(reply@);
    let ghost bad = protocol(Operation::GetStickers, reply@);
    while i < lines.len()
        invariant
            text::texts(lines@) == all,
            bad == protocol(Operation::GetStickers, reply@),
            width == text::byte_count(sticker@),
            i <= lines@.len(),
            stickers_spec(reply@, sticker@) == stickers_from(
                all,
                i as int,
                sticker@,
                bad,
                m.deep_view(),
            ),
        decreases lines@.len() - i,
    {
        assert(all[i as int] == lines@[i as int]@);
        if text::same(lines[i].as_str(), "OK") {
            return Ok(m);
        }
        if i + 1 >= lines.len() {
            return Err(protocol_error(Operation::GetStickers, reply));
        }
        assert(all[i + 1] == lines@[i + 1]@);
        let file = text::skip_bytes(lines[i].as_str(), 6);
        let val = if width <= usize::MAX - 10 {
            text::skip_bytes(lines[i + 1].as_str(), 10 + width)
        } else {
            let _length: usize = text::byte_len(lines[i + 1].as_str());
            proof {
                text::lemma_after_bytes_short(lines@[i + 1]@, 10 + width);
            }
            None
        };
        match (file, val) {
            (Some(file), Some(val)) => {
                let ghost before = m@;
                m.insert(file, val);
                proof {
                    collections::lemma_deep_entries(before, file@, val);
                }
            },
            _ => {
                return Err(protocol_error(Operation::GetStickers, reply));
            },
        }
        i = i + 2;
    }
    Err(protocol_error(Operation::GetStickers, reply))
}

/// The request that adds a song to the play queue.
pub open spec fn add_request(uri: Seq<char>) -> Seq<char> {
    "add "@ + quoted(uri)
}

/// The songs in the database.
pub open spec fn all_songs_spec(s: Session) -> (Result<Seq<Seq<char>>, ErrorView>, Session) {
    asked(
        s,
        "find \"(base '')\""@,
        |reply: Seq<char>| listing_spec(reply, "file: "@, Operation::GetAllSongs),
    )
}

/// The songs for which a unary condition holds.
pub open spec fn find1_spec(s: Session, cond: Seq<char>, val: Seq<char>, case: bool) -> (
    Result<Seq<Seq<char>>, ErrorView>,
    Session,
) {
    asked(s, find1_request(cond, val, case), |reply: Seq<char>| uris_spec(reply))
}

/// The songs for which a binary condition holds.
pub open spec fn find2_spec(
    s: Session,
    attr: Seq<char>,
    op: Seq<char>,
    val: Seq<char>,
    case: bool,
) -> (Result<Seq<Seq<char>>, ErrorView>, Session) {
    asked(s, find2_request(attr, op, val, case), |reply: Seq<char>| uris_spec(reply))
}

/// The value of a sticker for each song that has it.
pub open spec fn get_stickers_spec(s: Session, sticker: Seq<char>) -> (
    Result<Seq<(Seq<char>, Seq<char>)>, ErrorView>,
    Session,
) {
    asked(s, get_stickers_request(sticker), |reply: Seq<char>| stickers_spec(reply, sticker))
}

/// A sticker of a song.
pub open spec fn get_sticker_spec<T: StickerValue>(
    s: Session,
    file: Seq<char>,
    sticker: Seq<char>,
) -> (Result<Option<T::V>, ErrorView>, Session) {
    let request = get_sticker_request(file, sticker);
    asked(s, request, |reply: Seq<char>| sticker_spec::<T>(reply, sticker, request))
}

/// Setting a sticker of a song.
pub open spec fn set_sticker_spec(
    s: Session,
    file: Seq<char>,
    sticker: Seq<char>,
    value: Seq<char>,
) -> (Result<(), ErrorView>, Session) {
    let request = set_sticker_request(file, sticker, value);
    asked(s, request, |reply: Seq<char>| ok_spec(reply, Operation::SetSticker, request))
}

/// Sending a message to a channel.
pub open spec fn send_message_spec(s: Session, chan: Seq<char>, msg: Seq<char>) -> (
    Result<(), ErrorView>,
    Session,
) {
    asked(
        s,
        sendmessage_request(chan, msg),
        |reply: Seq<char>| ok_spec(reply, Operation::SendMessage, reply),
    )
}

/// Adding a song to the play queue.
pub open spec fn add_spec(s: Session, uri: Seq<char>) -> (Result<(), ErrorView>, Session) {
    asked(s, add_request(uri), |reply: Seq<char>| ok_spec(reply, Operation::Add, reply))
}

/// General-purpose [mpd](https://www.musicpd.org)
/// [client](https://www.musicpd.org/doc/html/protocol.html): "general-purpose" in the sense that we
/// send commands through it; the interface is narrowly scoped to this program's needs.
///
/// Construct instances with any [`RequestResponse`] implementation. You can then carry out assorted
/// operations in the MPD client protocol by invoking its methods.
#[derive(Debug)]
pub struct Client<S: RequestResponse> {
    stream: S,
}

impl<S: RequestResponse> Client<S> {
    /// The conversation so far.
    pub closed spec fn session(&self) -> Session {
        self.stream.session()
    }

    /// A client that talks over `stream`.
    pub fn new(stream: S) -> (r: Result<Client<S>, Error>)
        ensures
            r is Ok,
            r->Ok_0.session() == stream.session(),
    {
        Ok(Client { stream })
    }

    /// Retrieve the current server status.
    pub fn status(&mut self) -> (r: Result<PlayerStatus, Error>)
        ensures
            (text::outcome(r), final(self).session()) == status_spec(old(self).session()),
    {
        let reply = self.stream.req("status")?;
        match parse_player(reply.as_str())? {
            Player::Stopped => Ok(PlayerStatus::Stopped),
            Player::Song { playing, songid, elapsed } => {
                let request = text::join2("playlistid ", number::write_u64(songid).as_str());
                let reply = self.stream.req(request.as_str())?;
                let (file, duration) = parse_track(reply.as_str())?;
                let curr = CurrentSong::new(songid, file, elapsed, duration);
                if playing {
                    Ok(PlayerStatus::Play(curr))
                } else {
                    Ok(PlayerStatus::Pause(curr))
                }
            },
        }
    }

    /// Retrieve a song sticker by name
    pub fn get_sticker<T: StickerValue>(&mut self, file: &str, sticker_name: &str) -> (r: Result<
        Option<T>,
        Error,
    >)
        ensures
            (text::outcome(r), final(self).session()) == get_sticker_spec::<T>(
                old(self).session(),
                file@,
                sticker_name@,
            ),
    {
        let mut msg = text::join3("sticker get song ", quote(file).as_str(), " ");
        msg.append(quote(sticker_name).as_str());
        let reply = self.stream.req(msg.as_str())?;
        parse_sticker::<T>(reply.as_str(), sticker_name, msg.as_str())
    }

    /// Set a song sticker by name
    pub fn set_sticker(&mut self, file: &str, sticker_name: &str, sticker_value: &str) -> (r: Result<
        (),
        Error,
    >)
        ensures
            (text::outcome(r), final(self).session()) == set_sticker_spec(
                old(self).session(),
                file@,
                sticker_name@,
                sticker_value@,
            ),
    {
        let mut msg = text::join3("sticker set song ", quote(file).as_str(), " ");
        msg.append(quote(sticker_name).as_str());
        msg.append(" ");
        msg.append(quote(sticker_value).as_str());
        let reply = self.stream.req(msg.as_str())?;
        expect_ok(reply.as_str(), Operation::SetSticker, msg.as_str())
    }

    /// Send a file to a playlist
    pub fn send_to_playlist(&mut self, file: &str, pl: &str) -> (r: Result<(), Error>)
        ensures
            (text::outcome(r), final(self).session()) == asked(
                old(self).session(),
                playlistadd_request(file@, pl@),
                |reply: Seq<char>|
                    ok_spec(reply, Operation::SendToPlaylist, playlistadd_request(file@, pl@)),
            ),
    {
        let mut msg = text::join3("playlistadd ", quote(pl).as_str(), " ");
        msg.append(quote(file).as_str());
        let reply = self.stream.req(msg.as_str())?;
        expect_ok(reply.as_str(), Operation::SendToPlaylist, msg.as_str())
    }

    /// Send an arbitrary message
    pub fn send_message(&mut self, chan: &str, msg: &str) -> (r: Result<(), Error>)
        ensures
            (text::outcome(r), final(self).session()) == send_message_spec(
                old(self).session(),
                chan@,
                msg@,
            ),
    {
        let mut request = text::join3("sendmessage ", chan, " ");
        request.append(quote(msg).as_str());
        let reply = self.stream.req(request.as_str())?;
        expect_ok(reply.as_str(), Operation::SendMessage, reply.as_str())
    }

    /// Update a URI
    pub fn update(&mut self, uri: &str) -> (r: Result<u64, Error>)
        ensures
            (text::outcome(r), final(self).session()) == asked(
                old(self).session(),
                update_request(uri@),
                |reply: Seq<char>| job_spec(reply),
            ),
    {
        let msg = text::join3("update \"", uri, "\"");
        let reply = self.stream.req(msg.as_str())?;
        parse_job(reply.as_str())
    }

    /// Get the list of stored playlists
    pub fn get_stored_playlists(&mut self) -> (r: Result<Vec<String>, Error>)
        ensures
            (text::outcome(r), final(self).session()) == asked(
                old(self).session(),
                "listplaylists"@,
                |reply: Seq<char>|
                    listing_spec(reply, "playlist: "@, Operation::GetStoredPlaylists),
            ),
    {
        let reply = self.stream.req("listplaylists")?;
        parse_listing(reply.as_str(), "playlist: ", Operation::GetStoredPlaylists)
    }

    /// Process a search (either find or search) response
    pub fn search_rsp_to_uris(reply: &str) -> (r: Result<Vec<String>, Error>)
        ensures
            text::outcome(r) == uris_spec(reply@),
    {
        parse_listing(reply, "file: ", Operation::RspToUris)
    }

    /// Search the database for songs matching filter (unary operator)
    ///
    /// Set `case` to true to request a case-sensitive search (false yields case-insensitive)
    pub fn find1(&mut self, cond: &str, val: &str, case: bool) -> (r: Result<Vec<String>, Error>)
        ensures
            (text::outcome(r), final(self).session()) == find1_spec(
                old(self).session(),
                cond@,
                val@,
                case,
            ),
    {
        let mut filter = text::join3("(", cond, " ");
        filter.append(val);
        filter.append(")");
        let mut cmd = text::owned(
            if case {
                "find"
            } else {
                "search"
            },
        );
        cmd.append(" ");
        cmd.append(quote(filter.as_str()).as_str());
        let reply = self.stream.req(cmd.as_str())?;
        Self::search_rsp_to_uris(reply.as_str())
    }

    /// Search the database for songs matching filter (binary operator)
    ///
    /// Set `case` to true to request a case-sensitive search (false yields case-insensitive)
    pub fn find2(&mut self, attr: &str, op: &str, val: &str, case: bool) -> (r: Result<
        Vec<String>,
        Error,
    >)
        ensures
            (text::outcome(r), final(self).session()) == find2_spec(
                old(self).session(),
                attr@,
                op@,
                val@,
                case,
            ),
    {
        let mut filter = text::join3("(", attr, " ");
        filter.append(op);
        filter.append(" ");
        filter.append(val);
        filter.append(")");
        let mut cmd = text::owned(
            if case {
                "find"
            } else {
                "search"
            },
        );
        cmd.append(" ");
        cmd.append(quote(filter.as_str()).as_str());
        let reply = self.stream.req(cmd.as_str())?;
        Self::search_rsp_to_uris(reply.as_str())
    }

    /// Retrieve all instances of a given sticker under the music directory
    ///
    /// Return a mapping from song URI to textual sticker value
    pub fn get_stickers(&mut self, sticker: &str) -> (r: Result<StringMap<String>, Error>)
        ensures
            (text::outcome(r), final(self).session()) == get_stickers_spec(
                old(self).session(),
                sticker@,
            ),
    {
        let msg = text::join2("sticker find song \"\" ", sticker);
        let reply = self.stream.req(msg.as_str())?;
        parse_stickers(reply.as_str(), sticker)
    }

    /// Retrieve the song URIs of all songs in the database
    pub fn get_all_songs(&mut self) -> (r: Result<Vec<String>, Error>)
        ensures
            (text::outcome(r), final(self).session()) == all_songs_spec(old(self).session()),
    {
        let reply = self.stream.req("find \"(base '')\"")?;
        parse_listing(reply.as_str(), "file: ", Operation::GetAllSongs)
    }

    /// Add a song to the play queue
    pub fn add(&mut self, uri: &str) -> (r: Result<(), Error>)
        ensures
            (text::outcome(r), final(self).session()) == add_spec(old(self).session(), uri@),
    {
        let msg = text::join2("add ", quote(uri).as_str());
        let reply = self.stream.req(msg.as_str())?;
        expect_ok(reply.as_str(), Operation::Add, reply.as_str())
    }
}

// ---------------------------------------------------------------------------------------------
// IdleClient
// ---------------------------------------------------------------------------------------------

/// The subsystems of the server in whose changes we are interested.
#[derive(Clone, Copy, Debug, PartialEq, Eq, Structural)]
#[non_exhaustive]
pub enum IdleSubSystem {
    Player,
    Message,
}

impl DeepView for IdleSubSystem {
    type V = IdleSubSystem;

    open spec fn deep_view(&self) -> IdleSubSystem {
        *self
    }
}

/// The subsystem that a text names, in any case.
pub open spec fn subsystem_spec(s: Seq<char>) -> Result<IdleSubSystem, ErrorView> {
    if text::lowercase(s) == "player"@ {
        Ok(IdleSubSystem::Player)
    } else if text::lowercase(s) == "message"@ {
        Ok(IdleSubSystem::Message)
    } else {
        Err(ErrorView::IdleSubSystem { text: s })
    }
}

/// The name of a subsystem.
pub open spec fn subsystem_name(s: IdleSubSystem) -> Seq<char> {
    match s {
        IdleSubSystem::Player => "Player"@,
        IdleSubSystem::Message => "Message"@,
    }
}

impl IdleSubSystem {
    /// The subsystem that `text` names.
    pub fn try_from(text: &str) -> (r: Result<IdleSubSystem, Error>)
        ensures
            text::outcome(r) == subsystem_spec(text@),
    {
        let x = text.to_lowercase();
        if text::same(x.as_str(), "player") {
            Ok(IdleSubSystem::Player)
        } else if text::same(x.as_str(), "message") {
            Ok(IdleSubSystem::Message)
        } else {
            Err(Error::IdleSubSystem { text: text::owned(text) })
        }
    }

    /// The name of the subsystem.
    pub fn name(&self) -> (r: String)
        ensures
            r@ == subsystem_name(*self),
    {
        match self {
            IdleSubSystem::Player => text::owned("Player"),
            IdleSubSystem::Message => text::owned("Message"),
        }
    }
}

/// What an "idle" reply comes to: the subsystem that changed.
pub open spec fn change_spec(reply: Seq<char>) -> Result<IdleSubSystem, ErrorView> {
    match text::after(reply, "changed: "@) {
        None => Err(protocol(Operation::Idle, reply)),
        Some(rest) => {
            let i = text::find_from(rest, '\n', 0);
            if i >= rest.len() {
                Err(protocol(Operation::Idle, reply))
            } else {
                match subsystem_spec(rest.take(i)) {
                    Err(e) => Err(e),
                    Ok(subsystem) => if "OK"@.is_prefix_of(rest.skip(i + 1)) {
                        Ok(subsystem)
                    } else {
                        Err(protocol(Operation::Idle, rest.skip(i + 1)))
                    },
                }
            }
        },
    }
}

/// Read an "idle" reply. If the player state changes, it is
///
/// ```text
/// changed: player
/// OK
/// ```
///
/// and if a message is sent, it says `message` instead.
pub fn parse_change(reply: &str) -> (r: Result<IdleSubSystem, Error>)
    ensures
        text::outcome(r) == change_spec(reply@),
{
    let rest = match text::strip_prefix(reply, "changed: ") {
        Some(rest) => rest,
        None => {
            return Err(protocol_error(Operation::Idle, reply));
        },
    };
    let v = text::chars_of(rest.as_str());
    let i: usize = text::find_char(&v, '\n', 0);
    if i >= v.len() {
        return Err(protocol_error(Operation::Idle, reply));
    }
    assert(v@.subrange(0, i as int) =~= v@.take(i as int));
    assert(v@.subrange(i + 1, v@.len() as int) =~= v@.skip(i + 1));
    let subsystem = IdleSubSystem::try_from(text::slice_of(&v, 0, i).as_str())?;
    let rest = text::slice_of(&v, i + 1, v.len());
    if text::starts_with(rest.as_str(), "OK") {
        Ok(subsystem)
    } else {
        Err(protocol_error(Operation::Idle, rest.as_str()))
    }
}

/// Messages, by channel.
pub type Inbox = Seq<(Seq<char>, Seq<Seq<char>>)>;

/// An inbox with more messages for a channel.
pub open spec fn delivered(m: Inbox, chan: Seq<char>, msgs: Seq<Seq<char>>) -> Inbox {
    match collections::lookup(m, chan) {
        Some(earlier) => collections::put(m, chan, earlier + msgs),
        None => collections::put(m, chan, msgs),
    }
}

/// Where the reading of a "readmessages" reply has got to.
pub enum Reading {
    /// Nothing has been read
    Init,
    /// In the messages for a channel, of which these have been read
    Running { chan: Seq<char>, msgs: Seq<Seq<char>> },
    /// The reply is over
    Finished,
}

/// What the lines of a "readmessages" reply from index `i` on come to, those before having led to `at`
/// & `m`: a line that names a channel, lines with messages for it, and so on, up to a line that is
/// "OK". Messages whose end has not been read when the reply is over are not delivered.
pub open spec fn messages_from(
    lines: Seq<Seq<char>>,
    i: int,
    reply: Seq<char>,
    at: Reading,
    m: Inbox,
) -> Result<Inbox, ErrorView>
    decreases lines.len() - i,
{
    if i >= lines.len() {
        Ok(m)
    } else {
        match at {
            Reading::Init => match text::after(lines[i], "channel: "@) {
                Some(chan) => messages_from(
                    lines,
                    i + 1,
                    reply,
                    Reading::Running { chan, msgs: Seq::empty() },
                    m,
                ),
                None => Err(protocol(Operation::GetMessages, lines[i])),
            },
            Reading::Running { chan, msgs } => match text::after(lines[i], "message: "@) {
                Some(msg) => messages_from(
                    lines,
                    i + 1,
                    reply,
                    Reading::Running { chan, msgs: msgs.push(msg) },
                    m,
                ),
                None => match text::after(lines[i], "channel: "@) {
                    Some(next) => messages_from(
                        lines,
                        i + 1,
                        reply,
                        Reading::Running { chan: next, msgs: Seq::empty() },
                        delivered(m, chan, msgs),
                    ),
                    None => if lines[i] == "OK"@ {
                        messages_from(
                            lines,
                            i + 1,
                            reply,
                            Reading::Finished,
                            delivered(m, chan, msgs),
                        )
                    } else {
                        Err(protocol(Operation::GetMessages, reply))
                    },
                },
            },
            Reading::Finished => Err(protocol(Operation::GetMessages, lines[i])),
        }
    }
}

/// What a "readmessages" reply comes to: the messages for each channel.
pub open spec fn messages_spec(reply: Seq<char>) -> Result<Inbox, ErrorView> {
    messages_from(text::lines_of(reply), 0, reply, Reading::Init, Seq::empty())
}

/// Deliver more messages for a channel.
pub(crate) fn deliver(m: &mut StringMap<Vec<String>>, chan: &String, msgs: Vec<String>)
    ensures
        final(m).deep_view() == delivered(old(m).deep_view(), chan@, text::texts(msgs@)),
{
    let ghost before = m@;
    let held: Option<Vec<String>> = match m.get(chan.as_str()) {
        Some(v) => Some(text::copies(v)),
        None => None,
    };
    proof {
        lemma_texts(msgs);
        collections::lemma_deep_entries(before, chan@, msgs);
        if let Some(v) = collections::lookup(before, chan@) {
            lemma_texts(v);
        }
    }
    match held {
        Some(mut v) => {
            let ghost earlier = v@;
            let mut msgs = msgs;
            let ghost later = msgs@;
            v.append(&mut msgs);
            proof {
                lemma_texts(v);
                assert(text::texts(v@) =~= text::texts(earlier) + text::texts(later));
                collections::lemma_deep_entries(before, chan@, v);
            }
            m.insert(chan.clone(), v);
        },
        None => {
            m.insert(chan.clone(), msgs);
        },
    }
}

/// Read a "readmessages" reply. It has the form
///
/// ```text
/// channel: ratings
/// message: 255
/// OK
/// ```
pub fn parse_messages(reply: &str) -> (r: Result<StringMap<Vec<String>>, Error>)
    ensures
        text::outcome(r) == messages_spec(reply@),
{
    let lines = text::lines(reply);
    let mut m: StringMap<Vec<String>> = StringMap::new();
    assert(m.deep_view() =~= Seq::empty());
    let mut started = false;
    let mut finished = false;
    let mut chan = String::new();
    let mut msgs: Vec<String> = Vec::new();
    let mut i: usize = 0;
    let ghost all = text::lines_of(reply@);
    let ghost mut at = Reading::Init;
    while i < lines.len()
        invariant
            text::texts(lines@) == all,
            i <= lines@.len(),
            at == (if finished {
                Reading::Finished
            } else if started {
                Reading::Running { chan: chan@, msgs: text::texts(msgs@) }
            } else {
                Reading::Init
            }),
            messages_spec(reply@) == messages_from(all, i as int, reply@, at, m.deep_view()),
        decreases lines@.len() - i,
    {
        let line = &lines[i];
        assert(all[i as int] == line@);
        if finished {
            return Err(protocol_error(Operation::GetMessages, line.as_str()));
        } else if !started {
            match text::strip_prefix(line.as_str(), "channel: ") {
                Some(c) => {
                    chan = c;
                    msgs = Vec::new();
                    started = true;
                    assert(text::texts(msgs@) =~= Seq::<Seq<char>>::empty());
                },
                None => {
                    return Err(protocol_error(Operation::GetMessages, line.as_str()));
                },
            }
        } else {
            match text::strip_prefix(line.as_str(), "message: ") {
                Some(msg) => {
                    let ghost before = text::texts(msgs@);
                    msgs.push(msg);
                    assert(text::texts(msgs@) =~= before.push(msg@));
                },
                None => match text::strip_prefix(line.as_str(), "channel: ") {
                    Some(c) => {
                        deliver(&mut m, &chan, msgs);
                        chan = c;
                        msgs = Vec::new();
                        assert(text::texts(msgs@) =~= Seq::<Seq<char>>::empty());
                    },
                    None => {
                        if text::same(line.as_str(), "OK") {
                            deliver(&mut m, &chan, msgs);
                            msgs = Vec::new();
                            finished = true;
                        } else {
                            return Err(protocol_error(Operation::GetMessages, reply));
                        }
                    },
                },
            }
        }
        proof {
            at = if finished {
                Reading::Finished
            } else {
                Reading::Running { chan: chan@, msgs: text::texts(msgs@) }
            };
        }
        i = i + 1;
    }
    Ok(m)
}

/// The request to subscribe to a channel.
pub open spec fn subscribe_request(chan: Seq<char>) -> Seq<char> {
    "subscribe "@ + chan
}

/// The messages that have arrived since they were last asked for.
pub open spec fn get_messages_spec(s: Session) -> (Result<Inbox, ErrorView>, Session) {
    asked(s, "readmessages"@, |reply: Seq<char>| messages_spec(reply))
}

/// [MPD](https://www.musicpd.org) client for "idle" connections.
///
/// This is an MPD client designed to "idle": it opens a long-lived connection to the MPD server and
/// waits for MPD to respond with a message indicating that there's been a change to a subsystem of
/// interest. At present, there are only two subsystems in which this crate is interested: the player
/// & messages (cf. [`IdleSubSystem`]).
#[derive(Debug)]
pub struct IdleClient<S: RequestResponse> {
    conn: S,
}

impl<S: RequestResponse> IdleClient<S> {
    /// The conversation so far.
    pub closed spec fn session(&self) -> Session {
        self.conn.session()
    }

    /// A client that talks over `stream`.
    pub fn new(stream: S) -> (r: Result<IdleClient<S>, Error>)
        ensures
            r is Ok,
            r->Ok_0.session() == stream.session(),
    {
        Ok(IdleClient { conn: stream })
    }

    /// Subscribe to an mpd channel
    pub fn subscribe(&mut self, chan: &str) -> (r: Result<(), Error>)
        ensures
            (text::outcome(r), final(self).session()) == asked(
                old(self).session(),
                subscribe_request(chan@),
                |reply: Seq<char>| ok_spec(reply, Operation::Connect, reply),
            ),
    {
        let msg = text::join2("subscribe ", chan);
        let reply = self.conn.req(msg.as_str())?;
        expect_ok(reply.as_str(), Operation::Connect, reply.as_str())
    }

    /// Enter idle state-- return the subsystem that changed, causing the connection to return. NB
    /// this may block for some time.
    pub fn idle(&mut self) -> (r: Result<IdleSubSystem, Error>)
        ensures
            (text::outcome(r), final(self).session()) == asked(
                old(self).session(),
                "idle player message"@,
                |reply: Seq<char>| change_spec(reply),
            ),
    {
        let reply = self.conn.req("idle player message")?;
        parse_change(reply.as_str())
    }

    /// This method simply returns the results of a "readmessages" as a map of channel name to
    /// messages for that channel
    pub fn get_messages(&mut self) -> (r: Result<StringMap<Vec<String>>, Error>)
        ensures
            (text::outcome(r), final(self).session()) == get_messages_spec(old(self).session()),
    {
        let reply = self.conn.req("readmessages")?;
        parse_messages(reply.as_str())
    }
}

// ---------------------------------------------------------------------------------------------
// Laws
// ---------------------------------------------------------------------------------------------

/// Whether a reply has each of the fields that the status is read from once, at most.
pub open spec fn has_fields_once(reply: Seq<char>) -> bool {
    &&& fields::at_most_once(reply, "state"@)
    &&& fields::at_most_once(reply, "songid"@)
    &&& fields::at_most_once(reply, "elapsed"@)
    &&& fields::at_most_once(reply, "file"@)
    &&& fields::at_most_once(reply, "duration"@)
}

/// Whether two replies are the same but for the order of their lines, & have each field once, at most.
pub open spec fn same_but_for_order(a: Reply, b: Reply) -> bool {
    match (a, b) {
        (Ok(a), Ok(b)) => fields::same_rows(a, b) && has_fields_once(a) && has_fields_once(b),
        (Err(e), Err(f)) => e == f,
        _ => false,
    }
}

/// Whether two outcomes are the same, or both errors.
pub open spec fn agree<T>(a: Result<T, ErrorView>, b: Result<T, ErrorView>) -> bool {
    match (a, b) {
        (Ok(x), Ok(y)) => x == y,
        (Err(_), Err(_)) => true,
        _ => false,
    }
}

/// The order of the lines in replies does not matter to the status: two servers whose replies to "status", & to
/// requests for tracks after that, are the same but for the order of their lines give the same status, or none.
pub proof fn law_line_order(s: Session, t: Session)
    requires
        same_but_for_order(s.ask("status"@).0, t.ask("status"@).0),
        forall|songid: u64|
            same_but_for_order(
                (#[trigger] s.ask("status"@).1.ask(playlistid_request(songid))).0,
                t.ask("status"@).1.ask(playlistid_request(songid)).0,
            ),
    ensures
        agree(status_spec(s).0, status_spec(t).0),
{
    let (a, s1) = s.ask("status"@);
    let (b, t1) = t.ask("status"@);
    if let (Ok(a), Ok(b)) = (a, b) {
        fields::law_row_order(a, b, "state"@, Shape::State);
        fields::law_row_order(a, b, "songid"@, Shape::Digits);
        fields::law_row_order(a, b, "elapsed"@, Shape::Decimal);
        assert(agree(player_spec(a), player_spec(b)));
        if let Ok(PlayerView::Song { playing, songid, elapsed }) = player_spec(a) {
            let (c, _) = s1.ask(playlistid_request(songid));
            let (d, _) = t1.ask(playlistid_request(songid));
            assert(same_but_for_order(c, d));
            if let (Ok(c), Ok(d)) = (c, d) {
                fields::law_row_order(c, d, "file"@, Shape::Any);
                fields::law_row_order(c, d, "duration"@, Shape::Any);
                assert(agree(track_spec(c), track_spec(d)));
            }
        }
    }
}

/// A player whose state is given as stopped is stopped, whatever else the reply says, & nothing more is asked.
pub proof fn law_stopped(s: Session, reply: Seq<char>)
    requires
        s.ask("status"@).0 == Ok::<Seq<char>, ErrorView>(reply),
        fields::at_most_once(reply, "state"@),
        fields::rows(reply).contains("state: stop"@),
    ensures
        status_spec(s) == (Ok::<StatusView, ErrorView>(StatusView::Stopped), s.ask("status"@).1),
{
    reveal_strlit("state");
    reveal_strlit(": ");
    reveal_strlit("stop");
    reveal_strlit("state: stop");
    assert("state"@ + ": "@ + "stop"@ =~= "state: stop"@);
    let k = fields::rows(reply).index_of("state: stop"@);
    assert(fields::gives(fields::rows(reply)[k], "state"@, Shape::State, "stop"@));
    fields::law_field(reply, "state"@, Shape::State, "stop"@);
}

/// Without a line that gives the state as one of those that there are, there is no status.
pub proof fn law_no_state(s: Session, reply: Seq<char>)
    requires
        s.ask("status"@).0 == Ok::<Seq<char>, ErrorView>(reply),
        !fields::rows(reply).contains("state: play"@),
        !fields::rows(reply).contains("state: pause"@),
        !fields::rows(reply).contains("state: stop"@),
    ensures
        status_spec(s) == (
            Err::<StatusView, ErrorView>(protocol(Operation::Status, reply)),
            s.ask("status"@).1,
        ),
{
    fields::lemma_state_rows(reply);
}

/// A song that is playing, or paused, is the one that the replies give: by its identifier in the one, & by
/// its file in the other, which is asked for by that identifier.
pub proof fn law_song(
    s: Session,
    reply: Seq<char>,
    track: Seq<char>,
    playing: bool,
    song: SongView,
)
    requires
        s.ask("status"@).0 == Ok::<Seq<char>, ErrorView>(reply),
        has_fields_once(reply),
        fields::rows(reply).contains(
            if playing {
                "state: play"@
            } else {
                "state: pause"@
            },
        ),
        fields::rows(reply).contains("songid: "@ + number::decimal(song.songid as nat)),
        fields::rows(reply).contains("elapsed: "@ + song.elapsed),
        fields::has_shape(Shape::Decimal, song.elapsed),
        fields::is_float(song.elapsed),
        s.ask("status"@).1.ask("playlistid "@ + number::decimal(song.songid as nat)).0 == Ok::<
            Seq<char>,
            ErrorView,
        >(track),
        has_fields_once(track),
        fields::rows(track).contains("file: "@ + song.file),
        fields::rows(track).contains("duration: "@ + song.duration),
        fields::is_float(song.duration),
    ensures
        status_spec(s) == (
            Ok::<StatusView, ErrorView>(
                if playing {
                    StatusView::Play(song)
                } else {
                    StatusView::Pause(song)
                },
            ),
            s.ask("status"@).1.ask("playlistid "@ + number::decimal(song.songid as nat)).1,
        ),
{
    reveal_strlit(": ");
    reveal_strlit("state");
    reveal_strlit("play");
    reveal_strlit("pause");
    reveal_strlit("stop");
    reveal_strlit("state: play");
    reveal_strlit("state: pause");
    let state = if playing {
        "play"@
    } else {
        "pause"@
    };
    assert("play"@.len() == 4 && "pause"@.len() == 5);
    assert("stop"@[0] == 's' && "play"@[0] == 'p' && "pause"@[0] == 'p');
    assert("state"@ + ": "@ + state =~= if playing {
        "state: play"@
    } else {
        "state: pause"@
    });
    lemma_gives(reply, "state"@, Shape::State, state);
    reveal_strlit("songid");
    reveal_strlit("songid: ");
    let digits = number::decimal(song.songid as nat);
    number::lemma_decimal(song.songid as nat);
    number::law_parsed_decimal(song.songid as nat, u64::MAX as int);
    assert forall|i: int| 0 <= i < digits.len() implies '0' <= #[trigger] digits[i] <= '9' by {
        assert(number::is_digit(digits[i]));
    }
    assert("songid"@ + ": "@ + digits =~= "songid: "@ + digits);
    lemma_gives(reply, "songid"@, Shape::Digits, digits);
    reveal_strlit("elapsed");
    reveal_strlit("elapsed: ");
    assert("elapsed"@ + ": "@ + song.elapsed =~= "elapsed: "@ + song.elapsed);
    lemma_gives(reply, "elapsed"@, Shape::Decimal, song.elapsed);
    reveal_strlit("file");
    reveal_strlit("file: ");
    assert("file"@ + ": "@ + song.file =~= "file: "@ + song.file);
    lemma_gives(track, "file"@, Shape::Any, song.file);
    reveal_strlit("duration");
    reveal_strlit("duration: ");
    assert("duration"@ + ": "@ + song.duration =~= "duration: "@ + song.duration);
    lemma_gives(track, "duration"@, Shape::Any, song.duration);
}

proof fn lemma_gives(reply: Seq<char>, name: Seq<char>, shape: Shape, value: Seq<char>)
    requires
        fields::at_most_once(reply, name),
        fields::rows(reply).contains(name + ": "@ + value),
        fields::has_shape(shape, value),
    ensures
        fields::field(reply, name, shape) == Some(value),
{
    let k = fields::rows(reply).index_of(name + ": "@ + value);
    assert(fields::gives(fields::rows(reply)[k], name, shape, value));
    fields::law_field(reply, name, shape, value);
}

/// There is a current song, playing or paused, unless the player is stopped.
pub proof fn law_current_song(song: SongView)
    ensures
        song_of(StatusView::Play(song)) == Some(song),
        song_of(StatusView::Pause(song)) == Some(song),
        song_of(StatusView::Stopped) is None,
{
}

} // verus!
