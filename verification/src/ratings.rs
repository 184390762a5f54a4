//! Logic for rating MPD tracks.
//!
//! # Discussion
//!
//! Rating messages to the relevant channel take the form `RATING( TRACK)?` (the two components can
//! be separated by any whitespace). The rating can be given by an integer between 0 & 255
//! (inclusive) represented in base ten, or as one-to-five asterisks (i.e. `\*{1,5}`). In the latter
//! case, the rating will be mapped to 1-255 as per Winamp's
//! [convention](http://forums.winamp.com/showpost.php?p=2903240&postcount=94):
//!
//!   - 224-255: 5 stars when READ with windows explorer, writes 255
//!   - 160-223: 4 stars when READ with windows explorer, writes 196
//!   - 096-159: 3 stars when READ with windows explorer, writes 128
//!   - 032-095: 2 stars when READ with windows explorer, writes 64
//!   - 001-031: 1 stars when READ with windows explorer, writes 1
//!
//! NB a rating of zero means "not rated".
//!
//! Everything after the first whitepace, if present, is taken to be the track to be rated (i.e.
//! the track may contain whitespace). If omitted, the rating is taken to apply to the current
//! track.

use vstd::prelude::*;

use crate::clients;
use crate::clients::{Client, RequestResponse, Session};
use crate::collections;
use crate::collections::StringMap;
use crate::commands;
use crate::commands::{TaggedCommand, TaggedView};
use crate::number;
use crate::number::ParseError;
use crate::paths;
use crate::replstrings;
use crate::text;

verus! {

// ---------------------------------------------------------------------------------------------
// Errors
// ---------------------------------------------------------------------------------------------

/// An enumeration of ratings errors
#[derive(Debug)]
#[allow(inconsistent_fields)]
pub enum Error {
    /// A text is not a rating
    Rating { source: ParseError, text: String },
    /// The server could not be told of the rating
    Client { source: clients::Error },
    /// The ratings command could not be put together
    Command { source: commands::Error },
}

/// An [`Error`], as a mathematical value.
#[allow(inconsistent_fields)]
pub enum ErrorView {
    Rating { source: ParseError, text: Seq<char> },
    Client { source: clients::ErrorView },
    Command { source: commands::ErrorView },
}

impl DeepView for Error {
    type V = ErrorView;

    open spec fn deep_view(&self) -> ErrorView {
        match self {
            Error::Rating { source, text } => ErrorView::Rating { source: *source, text: text@ },
            Error::Client { source } => ErrorView::Client { source: source.deep_view() },
            Error::Command { source } => ErrorView::Command { source: source.deep_view() },
        }
    }
}

/// The words in which an error is reported.
pub open spec fn error_message(e: ErrorView) -> Seq<char> {
    match e {
        ErrorView::Rating { source, text } => "Unable to interpret ``"@ + text
            + "'' as a rating: "@ + number::message_of(source),
        ErrorView::Client { source } => "Client error: "@ + clients::error_message(source),
        ErrorView::Command { source } => "Command error: "@ + commands::error_message(source),
    }
}

impl Error {
    /// The words in which the error is reported.
    pub fn message(&self) -> (r: String)
        ensures
            r@ == error_message(self.deep_view()),
    {
        match self {
            Error::Rating { source, text } => {
                let mut r = text::join3(
                    "Unable to interpret ``",
                    text.as_str(),
                    "'' as a rating: ",
                );
                r.append(source.message().as_str());
                r
            },
            Error::Client { source } => text::join2("Client error: ", source.message().as_str()),
            Error::Command { source } => text::join2("Command error: ", source.message().as_str()),
        }
    }
}

// ---------------------------------------------------------------------------------------------
// RatingRequest
// ---------------------------------------------------------------------------------------------

/// The track to which a rating shall be applied.
#[derive(Debug, PartialEq)]
pub enum RatedTrack {
    /// The current track
    Current,
    /// The track at a path
    File(String),
    /// The track at an offset from the current one
    Relative(i8),
}

/// A [`RatedTrack`], as a mathematical value.
pub enum TrackView {
    Current,
    File(Seq<char>),
    Relative(i8),
}

impl DeepView for RatedTrack {
    type V = TrackView;

    open spec fn deep_view(&self) -> TrackView {
        match self {
            RatedTrack::Current => TrackView::Current,
            RatedTrack::File(p) => TrackView::File(p@),
            RatedTrack::Relative(i) => TrackView::Relative(*i),
        }
    }
}

/// A request from a client to rate a track.
#[derive(Debug)]
pub struct RatingRequest {
    pub rating: u8,
    pub track: RatedTrack,
}

/// A [`RatingRequest`], as a mathematical value.
pub struct RequestView {
    pub rating: u8,
    pub track: TrackView,
}

impl DeepView for RatingRequest {
    type V = RequestView;

    open spec fn deep_view(&self) -> RequestView {
        RequestView { rating: self.rating, track: self.track.deep_view() }
    }
}

/// The rating that a text gives: none is zero, & stars are mapped as per Winamp.
pub open spec fn rating_spec(s: Seq<char>) -> Result<u8, ErrorView> {
    if s.len() == 0 {
        Ok(0)
    } else if s == "*"@ {
        Ok(1)
    } else if s == "**"@ {
        Ok(64)
    } else if s == "***"@ {
        Ok(128)
    } else if s == "****"@ {
        Ok(196)
    } else if s == "*****"@ {
        Ok(255)
    } else {
        match number::parsed(s, 0, 255) {
            Ok(n) => Ok(n as u8),
            Err(source) => Err(ErrorView::Rating { source, text: s }),
        }
    }
}

/// The rating & the track in a message. Everything after the first whitespace is the track; without
/// any, it is the current one.
pub open spec fn request_spec(s: Seq<char>) -> Result<RequestView, ErrorView> {
    let message = text::trimmed(s);
    let (rating, track) = text::split_word(message);
    match rating_spec(rating) {
        Err(e) => Err(e),
        Ok(rating) => Ok(
            RequestView {
                rating,
                track: if track.len() == 0 {
                    TrackView::Current
                } else {
                    TrackView::File(track)
                },
            },
        ),
    }
}

impl RatingRequest {
    /// Attempt to produce a RatingRequest instance from a line of MPD response to a
    /// "readmessages" command. After the channel line, each subsequent line will be of the form
    /// "message: $MESSAGE"-- this method assumes that the "message: " prefix has been stripped off
    /// (i.e. we're dealing with a single line of text containing only our custom message format).
    ///
    /// For ratings, we expect a message of the form: "RATING (TRACK)?".
    pub fn try_from(text: &str) -> (r: Result<RatingRequest, Error>)
        ensures
            text::outcome(r) == request_spec(text@),
    {
        // We expect a message of the form: "RATING (TRACK)?"; let us split `text' into those two
        // components for separate processing:
        let text = text::trim(text);
        let (rating, track) = text::split_at_whitespace(text.as_str());

        // Rating first-- the desired rating can be specified in a few ways...
        let rating: u8 = if rating.as_str().is_empty() {
            // an empty string is interpreted as zero:
            0
        } else if text::same(rating.as_str(), "*") {
            // "*{1,5}" is interpreted as one-five stars, mapped to [0,255] as per Winamp:
            1
        } else if text::same(rating.as_str(), "**") {
            64
        } else if text::same(rating.as_str(), "***") {
            128
        } else if text::same(rating.as_str(), "****") {
            196
        } else if text::same(rating.as_str(), "*****") {
            255
        } else {
            // failing that, we try just interperting `rating' as an unsigned integer:
            match number::parse_u8(rating.as_str()) {
                Ok(n) => n,
                Err(source) => {
                    return Err(Error::Rating { source, text: rating });
                },
            }
        };

        // Next-- track:
        let track = if track.as_str().is_empty() {
            // nothing at all just means "current track"
            RatedTrack::Current
        } else {
            // otherwise, we assume it's a path. If it's not, we'll figure that out downstream.
            RatedTrack::File(track)
        };
        Ok(RatingRequest { rating, track })
    }
}

// ---------------------------------------------------------------------------------------------
// Rating operations
// ---------------------------------------------------------------------------------------------

/// The rating of a track.
pub open spec fn get_rating_spec(s: Session, sticker: Seq<char>, file: Seq<char>) -> (
    Result<u8, ErrorView>,
    Session,
) {
    let (rating, s1) = clients::get_sticker_spec::<u8>(s, file, sticker);
    match rating {
        Err(source) => (Err(ErrorView::Client { source }), s1),
        Ok(Some(x)) => (Ok(x), s1),
        Ok(None) => (Ok(0), s1),
    }
}

/// Retrieve the rating for a track as an unsigned int from zero to 255
pub fn get_rating<S: RequestResponse>(client: &mut Client<S>, sticker: &str, file: &str) -> (r:
    Result<u8, Error>)
    ensures
        (text::outcome(r), final(client).session()) == get_rating_spec(
            old(client).session(),
            sticker@,
            file@,
        ),
{
    match client.get_sticker::<u8>(file, sticker) {
        Ok(Some(x)) => Ok(x),
        Ok(None) => Ok(0),
        Err(source) => Err(Error::Client { source }),
    }
}

/// The replacement parameters of a command that is run for a track: its absolute path, & a number under
/// a name.
pub open spec fn track_params(path: Seq<char>, name: Seq<char>, n: nat) -> replstrings::Params {
    collections::put(
        collections::put(Seq::empty(), "full-file"@, path),
        name,
        number::decimal(n),
    )
}

/// The command that is run for a track, if there is one.
pub open spec fn track_command(
    cmd: Seq<char>,
    args: Seq<Seq<char>>,
    path: Seq<char>,
    name: Seq<char>,
    n: nat,
) -> Result<Option<TaggedView>, commands::ErrorView> {
    if cmd.len() == 0 {
        Ok(None)
    } else {
        match commands::spawn_spec(cmd, args, track_params(path, name, n)) {
            Err(e) => Err(e),
            Ok(process) => Ok(Some(TaggedView { process, upd: None })),
        }
    }
}

/// The command that is run for `file`, if there is one.
pub(crate) fn run_for_track(
    cmd: &str,
    args: &Vec<String>,
    music_dir: &str,
    file: &str,
    name: &str,
    n: u64,
) -> (r: Result<Option<TaggedCommand>, commands::Error>)
    ensures
        text::outcome(r) == track_command(
            cmd@,
            text::texts(args@),
            paths::joined(music_dir@, file@),
            name@,
            n as nat,
        ),
{
    if cmd.is_empty() {
        return Ok(None);
    }
    let path = paths::join(music_dir, file);
    let number = number::write_u64(n);
    let mut params: StringMap<String> = StringMap::new();
    assert(params.deep_view() =~= Seq::<(Seq<char>, Seq<char>)>::empty());
    proof {
        collections::lemma_deep_entries(params@, "full-file"@, path);
    }
    params.insert(text::owned("full-file"), path);
    proof {
        collections::lemma_deep_entries(params@, name@, number);
    }
    params.insert(text::owned(name), number);
    let process = commands::spawn(cmd, args, &params)?;
    // No need to update the DB
    Ok(Some(TaggedCommand::new(process, None)))
}

/// Rating a track: set the sticker, & then run the command, if there is one.
pub open spec fn set_rating_spec(
    s: Session,
    sticker: Seq<char>,
    file: Seq<char>,
    rating: u8,
    cmd: Seq<char>,
    args: Seq<Seq<char>>,
    music_dir: Seq<char>,
) -> (Result<Option<TaggedView>, ErrorView>, Session) {
    let (set, s1) = clients::set_sticker_spec(s, file, sticker, number::decimal(rating as nat));
    match set {
        Err(source) => (Err(ErrorView::Client { source }), s1),
        Ok(_) => match track_command(
            cmd,
            args,
            paths::joined(music_dir, file),
            "rating"@,
            rating as nat,
        ) {
            Err(source) => (Err(ErrorView::Command { source }), s1),
            Ok(command) => (Ok(command), s1),
        },
    }
}

/// Core routine for setting the rating for a track-- will run the associated command, if present
///
/// Set `sticker` on `file` to `rating`. Yields the command to be run afterwards, if one was specified.
pub fn set_rating<S: RequestResponse>(
    client: &mut Client<S>,
    sticker: &str,
    file: &str,
    rating: u8,
    cmd: &str,
    args: &Vec<String>,
    music_dir: &str,
) -> (r: Result<Option<TaggedCommand>, Error>)
    ensures
        (text::outcome(r), final(client).session()) == set_rating_spec(
            old(client).session(),
            sticker@,
            file@,
            rating,
            cmd@,
            text::texts(args@),
            music_dir@,
        ),
{
    let value = number::write_u64(rating as u64);
    match client.set_sticker(file, sticker, value.as_str()) {
        Ok(_) => {},
        Err(source) => {
            return Err(Error::Client { source });
        },
    }
    match run_for_track(cmd, args, music_dir, file, "rating", rating as u64) {
        Ok(command) => Ok(command),
        Err(source) => Err(Error::Command { source }),
    }
}

// ---------------------------------------------------------------------------------------------
// Laws
// ---------------------------------------------------------------------------------------------

/// Stars are mapped to ratings as per Winamp's convention.
pub proof fn law_stars(n: nat)
    ensures
        rating_spec(Seq::new(n, |i: int| '*')) == (if n == 0 {
            Ok::<u8, ErrorView>(0)
        } else if n == 1 {
            Ok(1)
        } else if n == 2 {
            Ok(64)
        } else if n == 3 {
            Ok(128)
        } else if n == 4 {
            Ok(196)
        } else if n == 5 {
            Ok(255)
        } else {
            Err(
                ErrorView::Rating {
                    source: number::ParseError::InvalidDigit,
                    text: Seq::new(n, |i: int| '*'),
                },
            )
        }),
{
    let s = Seq::new(n, |i: int| '*');
    reveal_strlit("*");
    reveal_strlit("**");
    reveal_strlit("***");
    reveal_strlit("****");
    reveal_strlit("*****");
    if n == 1 {
        assert(s =~= "*"@);
    } else if n == 2 {
        assert(s =~= "**"@);
    } else if n == 3 {
        assert(s =~= "***"@);
    } else if n == 4 {
        assert(s =~= "****"@);
    } else if n == 5 {
        assert(s =~= "*****"@);
    }
}

/// A command that is run for a track gets what it is configured with: "%full-file" is replaced with the
/// track's absolute path, & the name of the number with the number in base ten. Without a command, none is
/// run.
pub proof fn law_track_command(
    cmd: Seq<char>,
    args: Seq<Seq<char>>,
    path: Seq<char>,
    name: Seq<char>,
    n: nat,
    k: int,
)
    requires
        name == "rating"@ || name == "playcount"@,
        0 <= k < args.len(),
    ensures
        cmd.len() == 0 ==> track_command(cmd, args, path, name, n) == Ok::<
            Option<TaggedView>,
            commands::ErrorView,
        >(None),
        cmd.len() > 0 ==> (track_command(cmd, args, path, name, n) matches Ok(r) ==> r matches Some(
            command,
        ) && {
            &&& command.upd is None
            &&& command.process.program == cmd
            &&& command.process.args.len() == args.len()
            &&& !args[k].contains('%') ==> command.process.args[k] == args[k]
            &&& args[k] == "%full-file"@ ==> command.process.args[k] == path
            &&& args[k] == seq!['%'] + name ==> command.process.args[k] == number::decimal(n)
        }),
{
    let params = track_params(path, name, n);
    reveal_strlit("rating");
    reveal_strlit("playcount");
    reveal_strlit("full-file");
    reveal_strlit("%full-file");
    assert("rating"@[0] == 'r' && "playcount"@[0] == 'p' && "full-file"@[0] == 'f');
    commands::law_spawned(cmd, args, params);
    let none: replstrings::Params = Seq::empty();
    collections::law_put_lookup(none, "full-file"@, path, "full-file"@);
    let one = collections::put(none, "full-file"@, path);
    collections::law_put_lookup(one, name, number::decimal(n), "full-file"@);
    collections::law_put_lookup(one, name, number::decimal(n), name);
    if !args[k].contains('%') {
        assert forall|j: int| 0 <= j < args[k].len() implies args[k][j] != '%' by {
            if args[k][j] == '%' {
                assert(args[k].contains('%'));
            }
        }
        replstrings::law_no_percent(args[k], params);
    }
    if args[k] == "%full-file"@ {
        assert("%full-file"@ =~= seq!['%'] + "full-file"@);
        replstrings::law_parameter("full-file"@, params);
    }
    if args[k] == seq!['%'] + name {
        replstrings::law_parameter(name, params);
    }
    if let Ok(p) = commands::spawn_spec(cmd, args, params) {
        assert(Ok::<Seq<char>, replstrings::ErrorView>(p.args[k]) == replstrings::expansion(
            args[k],
            params,
        ));
    }
}

/// Whether the server grants a request.
pub open spec fn granted(s: Session, request: Seq<char>) -> bool {
    s.ask(request).0 matches Ok(reply) && "OK"@.is_prefix_of(reply)
}

/// Whether each of a command's arguments is plain, or one of the parameters of a command that is run for a
/// track.
pub open spec fn are_simple(args: Seq<Seq<char>>, name: Seq<char>) -> bool {
    forall|k: int|
        0 <= k < args.len() ==> !(#[trigger] args[k]).contains('%') || args[k] == "%full-file"@
            || args[k] == seq!['%'] + name
}

/// Whether what is run for a track is the command, with the track's absolute path & a number for its
/// parameters; nothing, if there is no command.
pub open spec fn is_run_for(
    r: Option<TaggedView>,
    cmd: Seq<char>,
    args: Seq<Seq<char>>,
    path: Seq<char>,
    name: Seq<char>,
    n: nat,
) -> bool {
    if cmd.len() == 0 {
        r is None
    } else {
        r matches Some(command) && {
            &&& command.upd is None
            &&& command.process.program == cmd
            &&& command.process.args.len() == args.len()
            &&& forall|k: int|
                #![trigger args[k]]
                0 <= k < args.len() ==> {
                    &&& !args[k].contains('%') ==> command.process.args[k] == args[k]
                    &&& args[k] == "%full-file"@ ==> command.process.args[k] == path
                    &&& args[k] == seq!['%'] + name ==> command.process.args[k] == number::decimal(n)
                }
        }
    }
}

pub(crate) proof fn lemma_run_for(
    cmd: Seq<char>,
    args: Seq<Seq<char>>,
    path: Seq<char>,
    name: Seq<char>,
    n: nat,
)
    requires
        name == "rating"@ || name == "playcount"@,
    ensures
        track_command(cmd, args, path, name, n) matches Ok(r) ==> is_run_for(
            r,
            cmd,
            args,
            path,
            name,
            n,
        ),
        are_simple(args, name) ==> track_command(cmd, args, path, name, n) is Ok,
{
    if let Ok(r) = track_command(cmd, args, path, name, n) {
        assert forall|k: int| #![trigger args[k]] 0 <= k < args.len() && cmd.len() > 0 implies {
            &&& !args[k].contains('%') ==> r->0.process.args[k] == args[k]
            &&& args[k] == "%full-file"@ ==> r->0.process.args[k] == path
            &&& args[k] == seq!['%'] + name ==> r->0.process.args[k] == number::decimal(n)
        } by {
            law_track_command(cmd, args, path, name, n, k);
        }
        if cmd.len() > 0 {
            commands::law_spawned(cmd, args, track_params(path, name, n));
        }
    }
    if are_simple(args, name) && cmd.len() > 0 {
        let params = track_params(path, name, n);
        assert forall|k: int| 0 <= k < args.len() implies #[trigger] replstrings::expansion(
            args[k],
            params,
        ) is Ok by {
            lemma_simple(args[k], path, name, n);
        }
        commands::law_spawned(cmd, args, params);
    }
}

proof fn lemma_simple(arg: Seq<char>, path: Seq<char>, name: Seq<char>, n: nat)
    requires
        name == "rating"@ || name == "playcount"@,
        !arg.contains('%') || arg == "%full-file"@ || arg == seq!['%'] + name,
    ensures
        replstrings::expansion(arg, track_params(path, name, n)) is Ok,
{
    let params = track_params(path, name, n);
    reveal_strlit("rating");
    reveal_strlit("playcount");
    reveal_strlit("full-file");
    reveal_strlit("%full-file");
    assert("rating"@[0] == 'r' && "playcount"@[0] == 'p' && "full-file"@[0] == 'f');
    let none: replstrings::Params = Seq::empty();
    collections::law_put_lookup(none, "full-file"@, path, "full-file"@);
    let one = collections::put(none, "full-file"@, path);
    collections::law_put_lookup(one, name, number::decimal(n), "full-file"@);
    collections::law_put_lookup(one, name, number::decimal(n), name);
    if !arg.contains('%') {
        assert forall|j: int| 0 <= j < arg.len() implies arg[j] != '%' by {
            if arg[j] == '%' {
                assert(arg.contains('%'));
            }
        }
        replstrings::law_no_percent(arg, params);
    } else if arg == "%full-file"@ {
        assert("%full-file"@ =~= seq!['%'] + "full-file"@);
        replstrings::law_parameter("full-file"@, params);
    } else {
        replstrings::law_parameter(name, params);
    }
}

/// Rating a track makes one request, & the command is run if the server grants it; if it does not, rating
/// the track fails.
pub proof fn law_rated(
    s: Session,
    sticker: Seq<char>,
    file: Seq<char>,
    rating: u8,
    cmd: Seq<char>,
    args: Seq<Seq<char>>,
    music_dir: Seq<char>,
)
    ensures
        ({
            let (r, after) = set_rating_spec(s, sticker, file, rating, cmd, args, music_dir);
            let request = clients::set_sticker_request(
                file,
                sticker,
                number::decimal(rating as nat),
            );
            &&& after == s.ask(request).1
            &&& r matches Ok(command) ==> granted(s, request) && is_run_for(
                command,
                cmd,
                args,
                paths::joined(music_dir, file),
                "rating"@,
                rating as nat,
            )
            &&& granted(s, request) && are_simple(args, "rating"@) ==> r is Ok
        }),
{
    lemma_run_for(cmd, args, paths::joined(music_dir, file), "rating"@, rating as nat);
}

} // verus!
