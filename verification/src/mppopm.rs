//! Core `mppopm' logic.
//!
//! `mppopm' is a command-line client for `mppopmd': it retrieves ratings, play counts & last played
//! times from the server, & asks the daemon for everything else through the commands channel. What is
//! to be printed comes back as lines of text.

use vstd::prelude::*;

use crate::clients;
use crate::clients::{quote, Client, PlayerStatus, RequestResponse, Session};
use crate::number;
use crate::order;
use crate::playcounts;
use crate::playcounts::{get_last_played, get_play_count};
use crate::ratings;
use crate::ratings::get_rating;
use crate::text;

verus! {

// ---------------------------------------------------------------------------------------------
// Errors
// ---------------------------------------------------------------------------------------------

/// Why a sub-command could not be carried out
#[derive(Debug)]
#[allow(inconsistent_fields)]
#[non_exhaustive]
pub enum Error {
    /// The current song was asked for, & there is none
    PlayerStopped,
    /// The server could not be asked or told
    Client { source: clients::Error },
    /// A rating could not be retrieved
    Ratings { source: ratings::Error },
    /// A play count or a last played time could not be retrieved
    Playcounts { source: playcounts::Error },
    /// Something should have been a number
    ExpectedInt { source: number::ParseError },
}

/// An [`Error`], as a mathematical value.
#[allow(inconsistent_fields)]
pub enum ErrorView {
    PlayerStopped,
    Client { source: clients::ErrorView },
    Ratings { source: ratings::ErrorView },
    Playcounts { source: playcounts::ErrorView },
    ExpectedInt { source: number::ParseError },
}

impl DeepView for Error {
    type V = ErrorView;

    open spec fn deep_view(&self) -> ErrorView {
        match self {
            Error::PlayerStopped => ErrorView::PlayerStopped,
            Error::Client { source } => ErrorView::Client { source: source.deep_view() },
            Error::Ratings { source } => ErrorView::Ratings { source: source.deep_view() },
            Error::Playcounts { source } => ErrorView::Playcounts { source: source.deep_view() },
            Error::ExpectedInt { source } => ErrorView::ExpectedInt { source: *source },
        }
    }
}

/// The words in which an error is reported.
pub open spec fn error_message(e: ErrorView) -> Seq<char> {
    match e {
        ErrorView::PlayerStopped => "The player is stopped"@,
        ErrorView::Client { source } => "Client error: "@ + clients::error_message(source),
        ErrorView::Ratings { source } => "Rating error: "@ + ratings::error_message(source),
        ErrorView::Playcounts { source } => "Playcount error: "@ + playcounts::error_message(
            source,
        ),
        ErrorView::ExpectedInt { source } => "Expected integer: "@ + number::message_of(source),
    }
}

impl Error {
    /// The words in which the error is reported.
    pub fn message(&self) -> (r: String)
        ensures
            r@ == error_message(self.deep_view()),
    {
        match self {
            Error::PlayerStopped => text::owned("The player is stopped"),
            Error::Client { source } => text::join2("Client error: ", source.message().as_str()),
            Error::Ratings { source } => text::join2("Rating error: ", source.message().as_str()),
            Error::Playcounts { source } => text::join2(
                "Playcount error: ",
                source.message().as_str(),
            ),
            Error::ExpectedInt { source } => text::join2(
                "Expected integer: ",
                source.message().as_str(),
            ),
        }
    }
}

// ---------------------------------------------------------------------------------------------
// Configuration
// ---------------------------------------------------------------------------------------------

/// `mppopm` configuration.
///
/// There is a separate configuration file for the client to support system-wide daemon installs
/// (in `/usr/local`, say) along with per-user client configurations (`~/.mppopm`, e.g.).
#[derive(Debug)]
pub struct Config {
    /// Host on which `mpd' is listening
    pub host: String,
    /// TCP port on which `mpd' is listening
    pub port: u16,
    /// Sticker name under which to store playcounts
    pub playcount_sticker: String,
    /// Sticker name under which to store the last played timestamp
    pub lastplayed_sticker: String,
    /// Channel to setup for assorted commands-- channel names must satisfy "[-a-zA-Z-9_.:]+"
    pub commands_chan: String,
    /// Sticker under which to store song ratings, as a textual representation of a number in
    /// `[0,255]`
    pub rating_sticker: String,
}

/// Whether a configuration is the default one.
pub open spec fn is_default(cfg: Config) -> bool {
    &&& cfg.host@ == Seq::<char>::empty()
    &&& cfg.port == 0
    &&& cfg.playcount_sticker@ == "unwoundstack.com:playcount"@
    &&& cfg.lastplayed_sticker@ == "unwoundstack.com:lastplayed"@
    &&& cfg.commands_chan@ == "unwoundstack.com:commands"@
    &&& cfg.rating_sticker@ == "unwoundstack.com:rating"@
}

impl Default for Config {
    fn default() -> (r: Config)
        ensures
            is_default(r),
    {
        Config {
            host: String::new(),
            port: 0,
            playcount_sticker: text::owned("unwoundstack.com:playcount"),
            lastplayed_sticker: text::owned("unwoundstack.com:lastplayed"),
            commands_chan: text::owned("unwoundstack.com:commands"),
            rating_sticker: text::owned("unwoundstack.com:rating"),
        }
    }
}

/// The host to connect to. The order of precedence is: command-line arguments, configuration, environment
/// variable.
pub open spec fn host_spec(arg: Option<Seq<char>>, configured: Seq<char>, env: Option<Seq<char>>)
    -> Seq<char> {
    match arg {
        Some(host) => host,
        None => if configured.len() > 0 {
            configured
        } else {
            match env {
                Some(host) => host,
                None => "localhost"@,
            }
        },
    }
}

/// The port to connect to. The order of precedence is: command-line arguments, configuration, environment
/// variable.
pub open spec fn port_spec(arg: Option<u16>, configured: u16, env: Option<Seq<char>>) -> Result<
    u16,
    ErrorView,
> {
    match arg {
        Some(port) => Ok(port),
        None => if configured != 0 {
            Ok(configured)
        } else {
            match env {
                Some(port) => match number::parsed(port, 0, u16::MAX as int) {
                    Ok(port) => Ok(port as u16),
                    Err(source) => Err(ErrorView::ExpectedInt { source }),
                },
                None => Ok(6600),
            }
        },
    }
}

/// Settle the host to connect to.
pub fn choose_host(arg: Option<&str>, configured: &str, env: Option<&str>) -> (r: String)
    ensures
        r@ == host_spec(arg.deep_view(), configured@, env.deep_view()),
{
    match arg {
        Some(host) => text::owned(host),
        None => if !configured.is_empty() {
            text::owned(configured)
        } else {
            match env {
                Some(host) => text::owned(host),
                None => text::owned("localhost"),
            }
        },
    }
}

/// Settle the port to connect to.
pub fn choose_port(arg: Option<u16>, configured: u16, env: Option<&str>) -> (r: Result<u16, Error>)
    ensures
        text::outcome(r) == port_spec(arg, configured, env.deep_view()),
{
    match arg {
        Some(port) => Ok(port),
        None => if configured != 0 {
            Ok(configured)
        } else {
            match env {
                Some(port) => match number::parse_u16(port) {
                    Ok(port) => Ok(port),
                    Err(source) => Err(Error::ExpectedInt { source }),
                },
                None => Ok(6600),
            }
        },
    }
}

/// How much is to be logged
#[derive(Clone, Copy, Debug, PartialEq, Eq, Structural)]
pub enum Verbosity {
    Warn,
    Debug,
    Trace,
}

/// How much is to be logged: debug implies verbose.
pub fn verbosity(verbose: bool, debug: bool) -> (r: Verbosity)
    ensures
        r == (if debug {
            Verbosity::Trace
        } else if verbose {
            Verbosity::Debug
        } else {
            Verbosity::Warn
        }),
{
    if debug {
        Verbosity::Trace
    } else if verbose {
        Verbosity::Debug
    } else {
        Verbosity::Warn
    }
}

/// A play count given on the command line
pub fn play_count_arg(arg: &str) -> (r: Result<usize, Error>)
    ensures
        text::outcome(r) == (match number::parsed(arg@, 0, usize::MAX as int) {
            Ok(n) => Ok(n as usize),
            Err(source) => Err(ErrorView::ExpectedInt { source }),
        }),
{
    match number::parse_usize(arg) {
        Ok(n) => Ok(n),
        Err(source) => Err(Error::ExpectedInt { source }),
    }
}

/// A last played time given on the command line
pub fn last_played_arg(arg: &str) -> (r: Result<u64, Error>)
    ensures
        text::outcome(r) == (match number::parsed(arg@, 0, u64::MAX as int) {
            Ok(n) => Ok(n as u64),
            Err(source) => Err(ErrorView::ExpectedInt { source }),
        }),
{
    match number::parse_u64(arg) {
        Ok(n) => Ok(n),
        Err(source) => Err(Error::ExpectedInt { source }),
    }
}

// ---------------------------------------------------------------------------------------------
// Tracks
// ---------------------------------------------------------------------------------------------

/// The tracks that the arguments name; no arguments mean the current track.
pub open spec fn tracks_spec(s: Session, args: Option<Seq<Seq<char>>>) -> (
    Result<Seq<Seq<char>>, ErrorView>,
    Session,
) {
    match args {
        Some(tracks) => (Ok(tracks), s),
        None => {
            let (status, s1) = clients::status_spec(s);
            match status {
                Err(source) => (Err(ErrorView::Client { source }), s1),
                Ok(status) => match clients::song_of(status) {
                    Some(curr) => (Ok(seq![curr.file]), s1),
                    None => (Err(ErrorView::PlayerStopped), s1),
                },
            }
        },
    }
}

/// Map `tracks' argument(s) to a Vec of String containing one or more mpd URIs
///
/// Several sub-commands take zero or more positional arguments meant to name tracks, with the
/// convention that zero indicates that the sub-command should use the currently playing track.
pub fn map_tracks<S: RequestResponse>(client: &mut Client<S>, args: Option<Vec<String>>) -> (r:
    Result<Vec<String>, Error>)
    ensures
        (text::outcome(r), final(client).session()) == tracks_spec(
            old(client).session(),
            args.deep_view(),
        ),
        r is Ok ==> r->Ok_0.deep_view() == text::texts(r->Ok_0@),
{
    match args {
        Some(tracks) => {
            proof {
                clients::lemma_texts(tracks);
            }
            Ok(tracks)
        },
        None => match client.status() {
            Err(source) => Err(Error::Client { source }),
            Ok(status) => match status {
                PlayerStatus::Play(curr) | PlayerStatus::Pause(curr) => {
                    let mut files: Vec<String> = Vec::new();
                    files.push(curr.file);
                    proof {
                        clients::lemma_texts(files);
                        assert(text::texts(files@) =~= seq![curr.file@]);
                    }
                    Ok(files)
                },
                PlayerStatus::Stopped => Err(Error::PlayerStopped),
            },
        },
    }
}

/// Something that is kept of a track
#[derive(Clone, Copy, Debug, PartialEq, Eq, Structural)]
pub enum Attribute {
    Rating,
    PlayCount,
    LastPlayed,
}

/// An attribute of a track, as text: a track that has not been rated or played has a zero, & one for which
/// no time is known has none.
pub open spec fn describe_spec(
    attribute: Attribute,
    s: Session,
    sticker: Seq<char>,
    file: Seq<char>,
) -> (Result<Seq<char>, ErrorView>, Session) {
    match attribute {
        Attribute::Rating => {
            let (r, s1) = ratings::get_rating_spec(s, sticker, file);
            match r {
                Err(source) => (Err(ErrorView::Ratings { source }), s1),
                Ok(n) => (Ok(number::decimal(n as nat)), s1),
            }
        },
        Attribute::PlayCount => {
            let (r, s1) = playcounts::get_play_count_spec(s, sticker, file);
            match r {
                Err(source) => (Err(ErrorView::Playcounts { source }), s1),
                Ok(Some(n)) => (Ok(number::decimal(n as nat)), s1),
                Ok(None) => (Ok(number::decimal(0)), s1),
            }
        },
        Attribute::LastPlayed => {
            let (r, s1) = playcounts::get_last_played_spec(s, sticker, file);
            match r {
                Err(source) => (Err(ErrorView::Playcounts { source }), s1),
                Ok(Some(n)) => (Ok(number::decimal(n as nat)), s1),
                Ok(None) => (Ok("N/A"@), s1),
            }
        },
    }
}

/// An attribute of a track, as text.
fn describe<S: RequestResponse>(
    attribute: Attribute,
    client: &mut Client<S>,
    sticker: &str,
    file: &str,
) -> (r: Result<String, Error>)
    ensures
        (text::outcome(r), final(client).session()) == describe_spec(
            attribute,
            old(client).session(),
            sticker@,
            file@,
        ),
{
    match attribute {
        Attribute::Rating => match get_rating(client, sticker, file) {
            Ok(n) => Ok(number::write_u64(n as u64)),
            Err(source) => Err(Error::Ratings { source }),
        },
        Attribute::PlayCount => match get_play_count(client, sticker, file) {
            Ok(Some(n)) => Ok(number::write_usize(n)),
            Ok(None) => Ok(number::write_usize(0)),
            Err(source) => Err(Error::Playcounts { source }),
        },
        Attribute::LastPlayed => match get_last_played(client, sticker, file) {
            Ok(Some(n)) => Ok(number::write_u64(n)),
            Ok(None) => Ok(text::owned("N/A")),
            Err(source) => Err(Error::Playcounts { source }),
        },
    }
}

/// An attribute of each of the first `n` tracks; the first that cannot be retrieved is reported.
pub open spec fn describe_all(
    attribute: Attribute,
    s: Session,
    sticker: Seq<char>,
    files: Seq<Seq<char>>,
    n: int,
) -> (Result<Seq<Seq<char>>, ErrorView>, Session)
    decreases n,
{
    if n <= 0 {
        (Ok(Seq::empty()), s)
    } else {
        match describe_all(attribute, s, sticker, files, n - 1) {
            (Err(e), s1) => (Err(e), s1),
            (Ok(done), s1) => match describe_spec(attribute, s1, sticker, files[n - 1]) {
                (Err(e), s2) => (Err(e), s2),
                (Ok(value), s2) => (Ok(done.push(value)), s2),
            },
        }
    }
}

proof fn lemma_describe_err(
    attribute: Attribute,
    s: Session,
    sticker: Seq<char>,
    files: Seq<Seq<char>>,
    n: int,
    m: int,
)
    requires
        n <= m,
        describe_all(attribute, s, sticker, files, n).0 is Err,
    ensures
        describe_all(attribute, s, sticker, files, m) == describe_all(
            attribute,
            s,
            sticker,
            files,
            n,
        ),
    decreases m - n,
{
    if n < m {
        lemma_describe_err(attribute, s, sticker, files, n, m - 1);
    }
}

/// The lines that show the values for some tracks: one track's value stands alone, unless the URI is asked
/// for; else, each value stands on a line of its own, prefixed by the track's name.
pub open spec fn shown(files: Seq<Seq<char>>, values: Seq<Seq<char>>, with_uri: bool) -> Seq<
    Seq<char>,
> {
    if values.len() == 1 && !with_uri {
        values
    } else {
        Seq::new(values.len(), |i: int| files[i] + ": "@ + values[i])
    }
}

/// The lines that show an attribute of some tracks.
pub open spec fn report_spec(
    attribute: Attribute,
    s: Session,
    sticker: Seq<char>,
    tracks: Option<Seq<Seq<char>>>,
    with_uri: bool,
) -> (Result<Seq<Seq<char>>, ErrorView>, Session) {
    match tracks_spec(s, tracks) {
        (Err(e), s1) => (Err(e), s1),
        (Ok(files), s1) => match describe_all(attribute, s1, sticker, files, files.len() as int) {
            (Err(e), s2) => (Err(e), s2),
            (Ok(values), s2) => (Ok(shown(files, values, with_uri)), s2),
        },
    }
}

/// The lines that show an attribute of some tracks.
fn report<S: RequestResponse>(
    attribute: Attribute,
    client: &mut Client<S>,
    sticker: &str,
    tracks: Option<Vec<String>>,
    with_uri: bool,
) -> (r: Result<Vec<String>, Error>)
    ensures
        (text::outcome(r), final(client).session()) == report_spec(
            attribute,
            old(client).session(),
            sticker@,
            tracks.deep_view(),
            with_uri,
        ),
{
    let files = map_tracks(client, tracks)?;
    let ghost all = text::texts(files@);
    let ghost s = client.session();
    let mut values: Vec<String> = Vec::new();
    assert(text::texts(values@) =~= Seq::<Seq<char>>::empty());
    let mut i: usize = 0;
    while i < files.len()
        invariant
            all == text::texts(files@),
            i <= files@.len(),
            values@.len() == i,
            describe_all(attribute, s, sticker@, all, i as int) == (
                Ok::<Seq<Seq<char>>, ErrorView>(text::texts(values@)),
                client.session(),
            ),
            tracks_spec(old(client).session(), tracks.deep_view()) == (
                Ok::<Seq<Seq<char>>, ErrorView>(all),
                s,
            ),
        decreases files@.len() - i,
    {
        let ghost before = text::texts(values@);
        assert(all[i as int] == files@[i as int]@);
        match describe(attribute, client, sticker, files[i].as_str()) {
            Ok(value) => {
                values.push(value);
                assert(text::texts(values@) =~= before.push(value@));
            },
            Err(e) => {
                proof {
                    lemma_describe_err(attribute, s, sticker@, all, i + 1, all.len() as int);
                }
                return Err(e);
            },
        }
        i = i + 1;
    }
    if values.len() == 1 && !with_uri {
        proof {
            clients::lemma_texts(values);
        }
        return Ok(values);
    }
    let mut lines: Vec<String> = Vec::new();
    let mut k: usize = 0;
    while k < files.len()
        invariant
            k <= files@.len(),
            values@.len() == files@.len(),
            all == text::texts(files@),
            lines@.len() == k,
            forall|j: int|
                0 <= j < k ==> (#[trigger] lines@[j])@ == all[j] + ": "@ + text::texts(
                    values@,
                )[j],
        decreases files@.len() - k,
    {
        let line = text::join3(files[k].as_str(), ": ", values[k].as_str());
        lines.push(line);
        k = k + 1;
    }
    proof {
        clients::lemma_texts(lines);
        assert(text::texts(lines@) =~= shown(all, text::texts(values@), with_uri));
    }
    Ok(lines)
}

/// Retrieve ratings for one or more tracks
pub fn get_ratings<S: RequestResponse>(
    client: &mut Client<S>,
    sticker: &str,
    tracks: Option<Vec<String>>,
    with_uri: bool,
) -> (r: Result<Vec<String>, Error>)
    ensures
        (text::outcome(r), final(client).session()) == report_spec(
            Attribute::Rating,
            old(client).session(),
            sticker@,
            tracks.deep_view(),
            with_uri,
        ),
{
    report(Attribute::Rating, client, sticker, tracks, with_uri)
}

/// Retrieve the playcount for one or more tracks
pub fn get_play_counts<S: RequestResponse>(
    client: &mut Client<S>,
    sticker: &str,
    tracks: Option<Vec<String>>,
    with_uri: bool,
) -> (r: Result<Vec<String>, Error>)
    ensures
        (text::outcome(r), final(client).session()) == report_spec(
            Attribute::PlayCount,
            old(client).session(),
            sticker@,
            tracks.deep_view(),
            with_uri,
        ),
{
    report(Attribute::PlayCount, client, sticker, tracks, with_uri)
}

/// Retrieve the last played time for one or more tracks
pub fn get_last_playeds<S: RequestResponse>(
    client: &mut Client<S>,
    sticker: &str,
    tracks: Option<Vec<String>>,
    with_uri: bool,
) -> (r: Result<Vec<String>, Error>)
    ensures
        (text::outcome(r), final(client).session()) == report_spec(
            Attribute::LastPlayed,
            old(client).session(),
            sticker@,
            tracks.deep_view(),
            with_uri,
        ),
{
    report(Attribute::LastPlayed, client, sticker, tracks, with_uri)
}

// ---------------------------------------------------------------------------------------------
// Messages to the daemon
// ---------------------------------------------------------------------------------------------

/// A message that sets something for a track, or for the current one.
pub open spec fn set_message(word: Seq<char>, value: Seq<char>, track: Option<Seq<char>>) -> Seq<
    char,
> {
    match track {
        Some(uri) => word + value + " "@ + uri,
        None => word + value,
    }
}

/// Telling the daemon something.
pub open spec fn tell_spec(s: Session, chan: Seq<char>, msg: Seq<char>) -> (
    Result<(), ErrorView>,
    Session,
) {
    let (r, s1) = clients::send_message_spec(s, chan, msg);
    match r {
        Ok(_) => (Ok(()), s1),
        Err(source) => (Err(ErrorView::Client { source }), s1),
    }
}

/// Tell the daemon something.
fn tell<S: RequestResponse>(client: &mut Client<S>, chan: &str, msg: &str) -> (r: Result<(), Error>)
    ensures
        (text::outcome(r), final(client).session()) == tell_spec(
            old(client).session(),
            chan@,
            msg@,
        ),
{
    match client.send_message(chan, msg) {
        Ok(_) => Ok(()),
        Err(source) => Err(Error::Client { source }),
    }
}

/// A message that sets something for a track, or for the current one.
fn set_command(word: &str, value: &str, track: Option<&str>) -> (r: String)
    ensures
        r@ == set_message(word@, value@, track.deep_view()),
{
    let mut msg = text::join2(word, value);
    if let Some(uri) = track {
        msg.append(" ");
        msg.append(uri);
    }
    msg
}

/// Rate a track
pub fn set_rating<S: RequestResponse>(
    client: &mut Client<S>,
    chan: &str,
    rating: &str,
    arg: Option<&str>,
) -> (r: Result<(), Error>)
    ensures
        (text::outcome(r), final(client).session()) == tell_spec(
            old(client).session(),
            chan@,
            set_message("rate "@, rating@, arg.deep_view()),
        ),
{
    tell(client, chan, set_command("rate ", rating, arg).as_str())
}

/// Set the playcount for a track
pub fn set_play_counts<S: RequestResponse>(
    client: &mut Client<S>,
    chan: &str,
    playcount: usize,
    arg: Option<&str>,
) -> (r: Result<(), Error>)
    ensures
        (text::outcome(r), final(client).session()) == tell_spec(
            old(client).session(),
            chan@,
            set_message("setpc "@, number::decimal(playcount as nat), arg.deep_view()),
        ),
{
    let n = number::write_usize(playcount);
    tell(client, chan, set_command("setpc ", n.as_str(), arg).as_str())
}

/// Set the last played time for a track
pub fn set_last_playeds<S: RequestResponse>(
    client: &mut Client<S>,
    chan: &str,
    lastplayed: u64,
    arg: Option<&str>,
) -> (r: Result<(), Error>)
    ensures
        (text::outcome(r), final(client).session()) == tell_spec(
            old(client).session(),
            chan@,
            set_message("setlp "@, number::decimal(lastplayed as nat), arg.deep_view()),
        ),
{
    let n = number::write_u64(lastplayed);
    tell(client, chan, set_command("setlp ", n.as_str(), arg).as_str())
}

/// Retrieve the list of stored playlists
pub fn get_playlists<S: RequestResponse>(client: &mut Client<S>) -> (r: Result<Vec<String>, Error>)
    ensures
        ({
            let (pls, s) = clients::asked(
                old(client).session(),
                "listplaylists"@,
                |reply: Seq<char>|
                    clients::listing_spec(
                        reply,
                        "playlist: "@,
                        clients::Operation::GetStoredPlaylists,
                    ),
            );
            &&& final(client).session() == s
            &&& match pls {
                Err(source) => text::outcome_err(r, ErrorView::Client { source }),
                Ok(pls) => {
                    &&& r is Ok
                    &&& r->Ok_0@.len() > 0
                    &&& r->Ok_0@[0]@ == "Stored playlists:"@
                    &&& order::is_sorting(pls, text::texts(r->Ok_0@).skip(1))
                },
            }
        }),
{
    let pls = match client.get_stored_playlists() {
        Ok(pls) => pls,
        Err(source) => {
            return Err(Error::Client { source });
        },
    };
    proof {
        clients::lemma_texts(pls);
    }
    let mut lines = order::sort(pls);
    let ghost sorted = text::texts(lines@);
    lines.insert(0, text::owned("Stored playlists:"));
    assert(text::texts(lines@).skip(1) =~= sorted);
    Ok(lines)
}

/// The message that adds the songs that a filter selects to the queue.
pub open spec fn findadd_message(filter: Seq<char>, case: bool) -> Seq<char> {
    (if case {
        "findadd "@
    } else {
        "searchadd "@
    }) + clients::quoted(filter)
}

/// Add songs selected by filter to the queue
pub fn findadd<S: RequestResponse>(client: &mut Client<S>, chan: &str, filter: &str, case: bool) -> (r:
    Result<(), Error>)
    ensures
        (text::outcome(r), final(client).session()) == tell_spec(
            old(client).session(),
            chan@,
            findadd_message(filter@, case),
        ),
{
    let word = if case {
        "findadd "
    } else {
        "searchadd "
    };
    tell(client, chan, text::join2(word, quote(filter).as_str()).as_str())
}

/// The first `n` arguments, each quoted, with spaces between them.
pub open spec fn command_message(args: Seq<Seq<char>>, n: int) -> Seq<char>
    decreases n,
{
    if n <= 0 {
        Seq::empty()
    } else if n == 1 {
        clients::quoted(args[0])
    } else {
        command_message(args, n - 1) + " "@ + clients::quoted(args[n - 1])
    }
}

/// Send an arbitrary command
pub fn send_command<S: RequestResponse>(client: &mut Client<S>, chan: &str, args: &Vec<String>) -> (r:
    Result<(), Error>)
    ensures
        (text::outcome(r), final(client).session()) == tell_spec(
            old(client).session(),
            chan@,
            command_message(text::texts(args@), args@.len() as int),
        ),
{
    let ghost all = text::texts(args@);
    let mut msg = String::new();
    let mut i: usize = 0;
    while i < args.len()
        invariant
            all == text::texts(args@),
            i <= args@.len(),
            msg@ == command_message(all, i as int),
        decreases args@.len() - i,
    {
        assert(all[i as int] == args@[i as int]@);
        let arg = quote(args[i].as_str());
        if i > 0 {
            msg.append(" ");
        }
        msg.append(arg.as_str());
        assert(i == 0 ==> Seq::<char>::empty() + arg@ =~= arg@);
        i = i + 1;
    }
    tell(client, chan, msg.as_str())
}

// ---------------------------------------------------------------------------------------------
// Laws
// ---------------------------------------------------------------------------------------------

/// What is shown of a track is the number that the server gives; of a track without a sticker, it is zero
/// for a rating or a play count, & that there is no time.
pub proof fn law_described(
    attribute: Attribute,
    s: Session,
    sticker: Seq<char>,
    file: Seq<char>,
    n: nat,
    rest: Seq<char>,
)
    requires
        attribute == Attribute::Rating ==> n <= 255,
        attribute == Attribute::PlayCount ==> n <= usize::MAX,
        attribute == Attribute::LastPlayed ==> n <= u64::MAX,
    ensures
        ({
            let reply = s.ask(clients::get_sticker_request(file, sticker)).0;
            let described = describe_spec(attribute, s, sticker, file).0;
            &&& reply == Ok::<Seq<char>, clients::ErrorView>(
                "sticker: "@ + sticker + "="@ + number::decimal(n) + "\n"@ + rest,
            ) ==> described == Ok::<Seq<char>, ErrorView>(number::decimal(n))
            &&& reply == Ok::<Seq<char>, clients::ErrorView>("ACK [50@0]"@ + rest) ==> described
                == Ok::<Seq<char>, ErrorView>(
                if attribute == Attribute::LastPlayed {
                    "N/A"@
                } else {
                    "0"@
                },
            )
        }),
{
    let request = clients::get_sticker_request(file, sticker);
    let value = number::decimal(n);
    number::lemma_decimal(n);
    assert(!value.contains('\n')) by {
        assert forall|i: int| 0 <= i < value.len() implies value[i] != '\n' by {
            assert(number::is_digit(value[i]));
        }
    }
    crate::replies::law_sticker::<u8>(sticker, value, rest, request);
    crate::replies::law_sticker::<usize>(sticker, value, rest, request);
    crate::replies::law_sticker::<u64>(sticker, value, rest, request);
    match attribute {
        Attribute::Rating => number::law_parsed_decimal(n, 255),
        Attribute::PlayCount => number::law_parsed_decimal(n, usize::MAX as int),
        Attribute::LastPlayed => number::law_parsed_decimal(n, u64::MAX as int),
    }
    reveal_strlit("0");
    assert(number::decimal(0) =~= "0"@);
}

proof fn lemma_described(
    attribute: Attribute,
    s: Session,
    t: Session,
    sticker: Seq<char>,
    files: Seq<Seq<char>>,
    n: int,
)
    requires
        crate::selection::steady(s),
        t.server == s.server,
        0 <= n <= files.len(),
        describe_all(attribute, t, sticker, files, n).0 is Ok,
    ensures
        ({
            let (values, after) = describe_all(attribute, t, sticker, files, n);
            &&& after.server == s.server
            &&& values->Ok_0.len() == n
            &&& forall|i: int|
                0 <= i < n ==> describe_spec(attribute, s, sticker, #[trigger] files[i]).0 == Ok::<
                    Seq<char>,
                    ErrorView,
                >(values->Ok_0[i])
        }),
    decreases n,
{
    if n > 0 {
        lemma_described(attribute, s, t, sticker, files, n - 1);
        let before = describe_all(attribute, t, sticker, files, n - 1).1;
        let request = clients::get_sticker_request(files[n - 1], sticker);
        assert(s.sent.push(request).last() == before.sent.push(request).last());
        assert((s.server)(s.sent.push(request)) == (s.server)(before.sent.push(request)));
    }
}

/// The report on some tracks has a line for each, in order: the track, a colon & what there is to be shown
/// of it; but for one track, if its URI is not asked for, only the latter. If the server is steady.
pub proof fn law_reported(
    attribute: Attribute,
    s: Session,
    sticker: Seq<char>,
    files: Seq<Seq<char>>,
    with_uri: bool,
    i: int,
)
    requires
        crate::selection::steady(s),
        report_spec(attribute, s, sticker, Some(files), with_uri).0 is Ok,
        0 <= i < files.len(),
    ensures
        ({
            let lines = report_spec(attribute, s, sticker, Some(files), with_uri).0->Ok_0;
            &&& lines.len() == files.len()
            &&& describe_spec(attribute, s, sticker, files[i]).0 matches Ok(value) && lines[i] == (
            if files.len() == 1 && !with_uri {
                value
            } else {
                files[i] + ": "@ + value
            })
        }),
{
    lemma_described(attribute, s, s, sticker, files, files.len() as int);
    let file = files[i];
}

/// Without any tracks, the report is on the current one; if there is none, there is no report.
pub proof fn law_current_reported(
    attribute: Attribute,
    s: Session,
    sticker: Seq<char>,
    with_uri: bool,
)
    requires
        clients::status_spec(s).0 is Ok,
    ensures
        match clients::status_spec(s).0->Ok_0 {
            clients::StatusView::Stopped => report_spec(attribute, s, sticker, None, with_uri).0
                == Err::<Seq<Seq<char>>, ErrorView>(ErrorView::PlayerStopped),
            clients::StatusView::Play(song) => report_spec(attribute, s, sticker, None, with_uri)
                == report_spec(
                attribute,
                clients::status_spec(s).1,
                sticker,
                Some(seq![song.file]),
                with_uri,
            ),
            clients::StatusView::Pause(song) => report_spec(attribute, s, sticker, None, with_uri)
                == report_spec(
                attribute,
                clients::status_spec(s).1,
                sticker,
                Some(seq![song.file]),
                with_uri,
            ),
        },
{
}

/// A host or a port on the command line is the one, whatever else there is; else one that is configured,
/// whatever the environment; else the environment's; else MPD's own.
pub proof fn law_precedence(
    host: Seq<char>,
    configured: Seq<char>,
    env: Option<Seq<char>>,
    port: u16,
    configured_port: u16,
)
    ensures
        host_spec(Some(host), configured, env) == host,
        configured.len() > 0 ==> host_spec(None, configured, env) == configured,
        host_spec(None, Seq::empty(), Some(host)) == host,
        host_spec(None, Seq::empty(), None) == "localhost"@,
        port_spec(Some(port), configured_port, env) == Ok::<u16, ErrorView>(port),
        configured_port > 0 ==> port_spec(None, configured_port, env) == Ok::<u16, ErrorView>(
            configured_port,
        ),
        port_spec(None, 0, Some(number::decimal(port as nat))) == Ok::<u16, ErrorView>(port),
        port_spec(None, 0, None) == Ok::<u16, ErrorView>(6600),
{
    number::law_parsed_decimal(port as nat, u16::MAX as int);
}

/// By default, the client & the daemon go by the same stickers, & talk on the same channel; & each keeps
/// its ratings, play counts & last played times apart.
pub proof fn law_same_defaults<T>(cfg: Config, daemon: crate::config::Config<T>, thresh: T)
    requires
        is_default(cfg),
        crate::config::is_default(daemon, thresh),
    ensures
        cfg.commands_chan@ == daemon.commands_chan@,
        cfg.rating_sticker@ == daemon.rating_sticker@,
        cfg.playcount_sticker@ == daemon.playcount_sticker@,
        cfg.lastplayed_sticker@ == daemon.lastplayed_sticker@,
        cfg.rating_sticker@ != cfg.playcount_sticker@,
        cfg.rating_sticker@ != cfg.lastplayed_sticker@,
        cfg.playcount_sticker@ != cfg.lastplayed_sticker@,
        crate::protocol::is_bare(cfg.commands_chan@),
        crate::protocol::is_bare(cfg.rating_sticker@),
        crate::protocol::is_bare(cfg.playcount_sticker@),
        crate::protocol::is_bare(cfg.lastplayed_sticker@),
        daemon.ratings_command@.len() == 0,
        daemon.playcount_command@.len() == 0,
        daemon.gen_cmds@.len() == 0,
{
    reveal_strlit("unwoundstack.com:playcount");
    reveal_strlit("unwoundstack.com:lastplayed");
    reveal_strlit("unwoundstack.com:rating");
    reveal_strlit("unwoundstack.com:commands");
    reveal_strlit("");
    assert("unwoundstack.com:playcount"@.len() == 26);
    assert("unwoundstack.com:lastplayed"@.len() == 27);
    assert("unwoundstack.com:rating"@.len() == 23);
}

/// What the daemon is told is sent to its channel, as it is.
pub proof fn law_told(s: Session, chan: Seq<char>, msg: Seq<char>)
    requires
        crate::protocol::is_bare(chan),
        crate::quoting::carries(msg),
    ensures
        ({
            let after = tell_spec(s, chan, msg).1;
            &&& after.server == s.server
            &&& after.sent.len() == s.sent.len() + 1
            &&& after.sent.drop_last() == s.sent
            &&& crate::protocol::says(after.sent.last(), seq!["sendmessage"@, chan, msg])
        }),
{
    crate::protocol::law_sendmessage_request(chan, msg);
    assert(tell_spec(s, chan, msg).1.sent.drop_last() =~= s.sent);
}

} // verus!
