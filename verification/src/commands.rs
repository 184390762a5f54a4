//! Running commands on the server
//!
//! # Introduction
//!
//! This crate allows for running arbitrary programs on the server in response to server events or
//! external commands (to keep ID3 tags up-to-date when a song is rated, for instance). This may seem
//! like a vulnerability if your [MPD] server is listening on a socket, but it's not like callers can
//! execute arbitrary code: certain events can trigger commands that you, the [MPD] server owner have
//! configured.
//!
//! [MPD]: https://www.musicpd.org/ "MPD"
//!
//! # The Generalized Command Framework
//!
//! In addition to fixed commands (i.e. commands that are run in response to particular events, like
//! rating a song, or completing a track), there is a generalized command framework by which you can
//! map arbitrary messages sent to the commands channel to code execution on the server side. A
//! generalized command can be described as:
//!
//! 1. the command name
//!
//! 2. command parameters: a command may take parameters, each of which is
//!
//!    - general/string, or
//!
//!    - a song
//!
//!    parameters beyond a certain point are optional; optional parameters that are not provided are
//!    given a default value (the empty string for general parameters, or the current track for a song
//!    parameter)
//!
//! 3. program to run, with arguments; arguments are string literals with replacement parameters:
//!
//!    - %1, %2, %3... are replaced with the parameter in the corresponding position above
//!
//!    - %current-file expands to the absolute path to the currently playing track, if there is one
//!
//!    - %full-file expands to the absolute path to the song named by the track argument, if
//!      present; if this parameter is used, and there is no track parameter, it is an error
//!
//!    - %rating, %play-count & %last-played expand to the value of the corresponding sticker, if
//!      present. If any of these are used, and there is no track parameter, it is an error. If the
//!      corresponding sticker is not present in the sticker database, default values of 0, 0 & 0
//!      (i.e. Unix epoch) are provided instead.
//!
//! ## Quoting
//!
//! [MPD](https://www.musicpd.org/) breaks up commands into their constituent tokens on the basis
//! of whitespace. In order to hold a space, a tab, a ' or a " a token must be enclosed in double
//! quotes, at which point " and \ (but *not* ') must be backslash-escaped.
//!
//! This means that when invoking generalized commands via the MPD messages mechanism, the
//! entire command will need to be quoted *twice* on the client side. Suppose the command is named
//! myfind and we wish to pass an argument which contains both ' characters & spaces:
//!
//! ```text
//! myfind "(Artist == 'foo' and rating > '***')"
//! ```
//!
//! Since this entire command will itself be a single token in the "sendmessage" command, we
//! need to quote it in its entirety on the client side:
//!
//! ```text
//! "myfind \"(Artist == 'foo' and rating > '***')\""
//! ```

use vstd::prelude::*;

use crate::clients;
use crate::clients::{Client, CurrentSong, PlayerStatus, RequestResponse, Session};
use crate::collections;
use crate::collections::StringMap;
use crate::number;
use crate::paths;
use crate::replstrings;
use crate::text;

verus! {

// ---------------------------------------------------------------------------------------------
// Errors
// ---------------------------------------------------------------------------------------------

/// A command error
#[derive(Debug)]
#[allow(inconsistent_fields)]
#[non_exhaustive]
pub enum Error {
    /// A sticker could not be retrieved
    Client { source: clients::Error },
    /// A second track was given, at this (one-based) index
    DuplicateTrackArgument { index: usize },
    /// No parameter was given at this (one-based) index, and there is no default there
    MissingParameter { index: usize },
    /// A track parameter was left to default, and no track is playing
    NoCurrentTrack,
    /// A track is to be updated when the command completes, and there is none
    NoTrackToUpdate,
    /// An argument ends in a lone percent sign
    TrailingPercent { template: String },
    /// An argument names a parameter that there is not
    UnknownParameter { param: String },
}

/// An [`Error`], as a mathematical value.
#[allow(inconsistent_fields)]
pub enum ErrorView {
    Client { source: clients::ErrorView },
    DuplicateTrackArgument { index: usize },
    MissingParameter { index: usize },
    NoCurrentTrack,
    NoTrackToUpdate,
    TrailingPercent { template: Seq<char> },
    UnknownParameter { param: Seq<char> },
}

impl DeepView for Error {
    type V = ErrorView;

    open spec fn deep_view(&self) -> ErrorView {
        match self {
            Error::Client { source } => ErrorView::Client { source: source.deep_view() },
            Error::DuplicateTrackArgument { index } => ErrorView::DuplicateTrackArgument {
                index: *index,
            },
            Error::MissingParameter { index } => ErrorView::MissingParameter { index: *index },
            Error::NoCurrentTrack => ErrorView::NoCurrentTrack,
            Error::NoTrackToUpdate => ErrorView::NoTrackToUpdate,
            Error::TrailingPercent { template } => ErrorView::TrailingPercent {
                template: template@,
            },
            Error::UnknownParameter { param } => ErrorView::UnknownParameter { param: param@ },
        }
    }
}

/// The words in which a command error is reported.
pub open spec fn error_message(e: ErrorView) -> Seq<char> {
    match e {
        ErrorView::Client { source } => "Client error: "@ + clients::error_message(source),
        ErrorView::DuplicateTrackArgument { index } => "Duplicate track argument at index "@
            + number::decimal(index as nat),
        ErrorView::MissingParameter { index } => "Missing actual parameter at index "@
            + number::decimal(index as nat),
        ErrorView::NoCurrentTrack => "No current track"@,
        ErrorView::NoTrackToUpdate => "No track to update"@,
        ErrorView::TrailingPercent { template } => "Trailing percent in template ``"@ + template
            + "''"@,
        ErrorView::UnknownParameter { param } => "Unknown parameter ``"@ + param + "''"@,
    }
}

impl Error {
    /// The words in which the error is reported.
    pub fn message(&self) -> (r: String)
        ensures
            r@ == error_message(self.deep_view()),
    {
        match self {
            Error::Client { source } => text::join2("Client error: ", source.message().as_str()),
            Error::DuplicateTrackArgument { index } => text::join2(
                "Duplicate track argument at index ",
                number::write_usize(*index).as_str(),
            ),
            Error::MissingParameter { index } => text::join2(
                "Missing actual parameter at index ",
                number::write_usize(*index).as_str(),
            ),
            Error::NoCurrentTrack => text::owned("No current track"),
            Error::NoTrackToUpdate => text::owned("No track to update"),
            Error::TrailingPercent { template } => text::join3(
                "Trailing percent in template ``",
                template.as_str(),
                "''",
            ),
            Error::UnknownParameter { param } => text::join3(
                "Unknown parameter ``",
                param.as_str(),
                "''",
            ),
        }
    }
}

// ---------------------------------------------------------------------------------------------
// Replacement strings
// ---------------------------------------------------------------------------------------------

/// The command error that an error in a replacement string is.
pub open spec fn template_error(e: replstrings::ErrorView) -> ErrorView {
    match e {
        replstrings::ErrorView::TrailingPercent { template } => ErrorView::TrailingPercent {
            template,
        },
        replstrings::ErrorView::UnknownParameter { param } => ErrorView::UnknownParameter { param },
    }
}

/// What a replacement string expands to.
pub open spec fn expansion(templ: Seq<char>, params: replstrings::Params) -> Result<
    Seq<char>,
    ErrorView,
> {
    match replstrings::expansion(templ, params) {
        Ok(s) => Ok(s),
        Err(e) => Err(template_error(e)),
    }
}

/// Process a replacement string with replacement parameters of the form "%param" given a lookup
/// table for parameter replacements. Literal `%'-s can be expressed as "%%".
pub fn process_replacements(templ: &str, params: &StringMap<String>) -> (r: Result<String, Error>)
    ensures
        text::outcome(r) == expansion(templ@, params.deep_view()),
{
    match replstrings::process_replacements(templ, params) {
        Ok(s) => Ok(s),
        Err(replstrings::Error::TrailingPercent { template }) => Err(
            Error::TrailingPercent { template },
        ),
        Err(replstrings::Error::UnknownParameter { param }) => Err(
            Error::UnknownParameter { param },
        ),
    }
}

// ---------------------------------------------------------------------------------------------
// Commands
// ---------------------------------------------------------------------------------------------

/// A process to be started: a program & its arguments
///
/// If the program is not an absolute path, `PATH` will be searched in an OS-defined way.
#[derive(Debug)]
pub struct Process {
    pub program: String,
    pub args: Vec<String>,
}

/// A [`Process`], as a mathematical value.
pub struct ProcessView {
    pub program: Seq<char>,
    pub args: Seq<Seq<char>>,
}

impl DeepView for Process {
    type V = ProcessView;

    open spec fn deep_view(&self) -> ProcessView {
        ProcessView { program: self.program@, args: text::texts(self.args@) }
    }
}

/// The first `n` arguments, expanded; the first of them that cannot be is the one that is reported.
pub open spec fn expansions(
    args: Seq<Seq<char>>,
    n: int,
    params: replstrings::Params,
) -> Result<Seq<Seq<char>>, ErrorView>
    decreases n,
{
    if n <= 0 {
        Ok(Seq::empty())
    } else {
        match expansions(args, n - 1, params) {
            Err(e) => Err(e),
            Ok(done) => match expansion(args[n - 1], params) {
                Err(e) => Err(e),
                Ok(s) => Ok(done.push(s)),
            },
        }
    }
}

/// The process that runs a command with arguments given as replacement strings.
pub open spec fn spawn_spec(
    cmd: Seq<char>,
    args: Seq<Seq<char>>,
    params: replstrings::Params,
) -> Result<ProcessView, ErrorView> {
    match expansions(args, args.len() as int, params) {
        Err(e) => Err(e),
        Ok(args) => Ok(ProcessView { program: cmd, args }),
    }
}

/// An argument that cannot be expanded decides what comes of them all.
proof fn lemma_expansions_err(
    args: Seq<Seq<char>>,
    n: int,
    m: int,
    params: replstrings::Params,
)
    requires
        n <= m,
        expansions(args, n, params) is Err,
    ensures
        expansions(args, m, params) == expansions(args, n, params),
    decreases m - n,
{
    if n < m {
        lemma_expansions_err(args, n, m - 1, params);
    }
}

/// The process that runs `cmd` with `args`, in which replacement parameters are replaced
pub fn spawn(cmd: &str, args: &Vec<String>, params: &StringMap<String>) -> (r: Result<
    Process,
    Error,
>)
    ensures
        text::outcome(r) == spawn_spec(cmd@, text::texts(args@), params.deep_view()),
{
    let ghost all = text::texts(args@);
    let ghost table = params.deep_view();
    let mut done: Vec<String> = Vec::new();
    assert(text::texts(done@) =~= Seq::<Seq<char>>::empty());
    let mut i: usize = 0;
    while i < args.len()
        invariant
            all == text::texts(args@),
            table == params.deep_view(),
            i <= args@.len(),
            expansions(all, i as int, table) == Ok::<Seq<Seq<char>>, ErrorView>(
                text::texts(done@),
            ),
        decreases args@.len() - i,
    {
        let ghost so_far = text::texts(done@);
        assert(all[i as int] == args@[i as int]@);
        match process_replacements(args[i].as_str(), params) {
            Ok(s) => {
                done.push(s);
                assert(text::texts(done@) =~= so_far.push(s@));
            },
            Err(e) => {
                proof {
                    lemma_expansions_err(all, i + 1, all.len() as int, table);
                }
                return Err(e);
            },
        }
        i = i + 1;
    }
    Ok(Process { program: text::owned(cmd), args: done })
}

/// A process to be started, tagged with additional information
///
/// The command initiator can annotate the command to indicate whether or not an mpd database update
/// is required upon completion. None means no database update required, Some(uri) means `uri` needs
/// to be updated.
#[derive(Debug)]
pub struct TaggedCommand {
    pub process: Process,
    pub upd: Option<String>,
}

/// A [`TaggedCommand`], as a mathematical value.
pub struct TaggedView {
    pub process: ProcessView,
    pub upd: Option<Seq<char>>,
}

impl DeepView for TaggedCommand {
    type V = TaggedView;

    open spec fn deep_view(&self) -> TaggedView {
        TaggedView { process: self.process.deep_view(), upd: self.upd.deep_view() }
    }
}

impl TaggedCommand {
    /// A process, with the URI that is to be updated once it completes.
    pub fn new(process: Process, upd: Option<String>) -> (r: TaggedCommand)
        ensures
            r.deep_view() == (TaggedView {
                process: process.deep_view(),
                upd: upd.deep_view(),
            }),
    {
        TaggedCommand { process, upd }
    }
}

// ---------------------------------------------------------------------------------------------
// Generalized commands
// ---------------------------------------------------------------------------------------------

/// Describes the formal parameter type
#[derive(Clone, Copy, Debug, PartialEq, Eq, Structural)]
pub enum FormalParameter {
    Literal,
    Track,
}

/// Describes the sort of database update that should take place on command completion
#[derive(Clone, Copy, Debug, PartialEq, Eq, Structural)]
pub enum Update {
    NoUpdate,
    TrackOnly,
    FullDatabase,
}

/// A general command that will be run on the server, invoked by an MPD message
#[derive(Debug)]
pub struct GeneralizedCommand {
    /// Formal parameters
    formal_parameters: Vec<FormalParameter>,
    /// Formal parameters assume their default after this many places
    default_after: usize,
    /// MPD music directory -- used to form absolute paths
    music_dir: String,
    /// The command to be run; if not absolute, the `PATH` will be searched in an system-
    /// dependent way
    cmd: String,
    /// Command arguments; may contain replacement parameters (like "%full-file")
    args: Vec<String>,
    /// The sort of MPD music database update that needs to take place when this command finishes
    update: Update,
}

/// A [`GeneralizedCommand`], as a mathematical value.
pub struct CommandView {
    pub formal_parameters: Seq<FormalParameter>,
    pub default_after: usize,
    pub music_dir: Seq<char>,
    pub cmd: Seq<char>,
    pub args: Seq<Seq<char>>,
    pub update: Update,
}

impl DeepView for GeneralizedCommand {
    type V = CommandView;

    closed spec fn deep_view(&self) -> CommandView {
        CommandView {
            formal_parameters: self.formal_parameters@,
            default_after: self.default_after,
            music_dir: self.music_dir@,
            cmd: self.cmd@,
            args: text::texts(self.args@),
            update: self.update,
        }
    }
}

/// The absolute path to the current track, if there is one.
pub open spec fn current_file(music_dir: Seq<char>, state: clients::StatusView) -> Option<
    Seq<char>,
> {
    match clients::song_of(state) {
        Some(curr) => Some(paths::joined(music_dir, curr.file)),
        None => None,
    }
}

/// A track: its URI, & the absolute path to it.
pub struct TrackView {
    pub uri: Seq<char>,
    pub path: Seq<char>,
}

/// The parameters of a command that have been settled: the table of replacements, and the track, once
/// it has been seen.
pub struct Binding {
    pub params: replstrings::Params,
    pub track: Option<TrackView>,
}

/// A binding with a track for the parameter in place `i`.
pub open spec fn bind_track(b: Binding, i: int, music_dir: Seq<char>, uri: Seq<char>) -> Binding {
    let path = paths::joined(music_dir, uri);
    Binding {
        params: collections::put(
            collections::put(b.params, number::decimal(i as nat), path),
            "full-file"@,
            path,
        ),
        track: Some(TrackView { uri, path }),
    }
}

/// A binding with a text for the parameter in place `i`.
pub open spec fn bind_literal(b: Binding, i: int, value: Seq<char>) -> Binding {
    Binding { params: collections::put(b.params, number::decimal(i as nat), value), ..b }
}

/// The track for a song parameter before which there are `k` others: what was given, if it is not empty, or
/// else the current track.
pub open spec fn track_for(
    tokens: Seq<Seq<char>>,
    state: clients::StatusView,
    k: int,
) -> Option<Seq<char>> {
    if k < tokens.len() && tokens[k].len() > 0 {
        Some(tokens[k])
    } else {
        match clients::song_of(state) {
            Some(curr) => Some(curr.file),
            None => None,
        }
    }
}

/// The binding that comes of the formal parameters after the first `k`, those having come to `b`.
/// Actual parameters are taken in order; one that is missing takes its default, unless it is one of
/// the first `default_after`. There can be only one track.
pub open spec fn bind_from(
    c: CommandView,
    tokens: Seq<Seq<char>>,
    state: clients::StatusView,
    k: int,
    b: Binding,
) -> Result<Binding, ErrorView>
    decreases c.formal_parameters.len() - k,
{
    if k < 0 || k >= c.formal_parameters.len() {
        Ok(b)
    } else {
        let i = k + 1;
        let given = k < tokens.len();
        if !given && i <= c.default_after {
            Err(ErrorView::MissingParameter { index: i as usize })
        } else {
            match c.formal_parameters[k] {
                FormalParameter::Literal => {
                    let value = if given {
                        tokens[k]
                    } else {
                        Seq::empty()
                    };
                    bind_from(c, tokens, state, i, bind_literal(b, i, value))
                },
                FormalParameter::Track => if b.track is Some {
                    Err(ErrorView::DuplicateTrackArgument { index: i as usize })
                } else {
                    match track_for(tokens, state, k) {
                        Some(uri) => bind_from(
                            c,
                            tokens,
                            state,
                            i,
                            bind_track(b, i, c.music_dir, uri),
                        ),
                        None => Err(ErrorView::NoCurrentTrack),
                    }
                },
            }
        }
    }
}

/// The binding before any parameter is looked at: "%current-file" is always there, if there is a
/// current track.
pub open spec fn initial_binding(c: CommandView, state: clients::StatusView) -> Binding {
    Binding {
        params: match current_file(c.music_dir, state) {
            Some(path) => seq![("current-file"@, path)],
            None => Seq::empty(),
        },
        track: None,
    }
}

/// The binding of a command's parameters to some tokens.
pub open spec fn bind_spec(
    c: CommandView,
    tokens: Seq<Seq<char>>,
    state: clients::StatusView,
) -> Result<Binding, ErrorView> {
    bind_from(c, tokens, state, 0, initial_binding(c, state))
}

/// Whether one of a command's arguments names a parameter.
pub open spec fn uses(c: CommandView, name: Seq<char>) -> bool {
    exists|k: int| 0 <= k < c.args.len() && #[trigger] replstrings::names(c.args[k], name)
}

/// A binding with the value of the track's sticker, "0" if it has none, under a name; if the name is used
/// & there is a track.
pub open spec fn bind_sticker_spec(
    c: CommandView,
    b: Binding,
    name: Seq<char>,
    sticker: Seq<char>,
    s: Session,
) -> (Result<Binding, ErrorView>, Session) {
    match b.track {
        None => (Ok(b), s),
        Some(track) => if !uses(c, name) {
            (Ok(b), s)
        } else {
            let (r, s1) = clients::get_sticker_spec::<String>(s, track.uri, sticker);
            match r {
                Err(source) => (Err(ErrorView::Client { source }), s1),
                Ok(value) => {
                    let value = match value {
                        Some(value) => value,
                        None => "0"@,
                    };
                    (Ok(Binding { params: collections::put(b.params, name, value), ..b }), s1)
                },
            }
        },
    }
}

/// The names of the stickers that commands may use: the rating, the play count & the last played time.
pub type Stickers = (Seq<char>, Seq<char>, Seq<char>);

/// A binding with the values of the stickers that the command uses.
pub open spec fn bind_stickers_spec(c: CommandView, b: Binding, stickers: Stickers, s: Session) -> (
    Result<Binding, ErrorView>,
    Session,
) {
    match bind_sticker_spec(c, b, "rating"@, stickers.0, s) {
        (Err(e), s1) => (Err(e), s1),
        (Ok(b1), s1) => match bind_sticker_spec(c, b1, "play-count"@, stickers.1, s1) {
            (Err(e), s2) => (Err(e), s2),
            (Ok(b2), s2) => bind_sticker_spec(c, b2, "last-played"@, stickers.2, s2),
        },
    }
}

/// What is to be updated once a command completes: the track given, or else the current one.
pub open spec fn update_spec(
    update: Update,
    track: Option<TrackView>,
    current: Option<Seq<char>>,
) -> Result<Option<Seq<char>>, ErrorView> {
    match update {
        Update::NoUpdate => Ok(None),
        Update::TrackOnly => match track {
            Some(track) => Ok(Some("song "@ + track.path)),
            None => match current {
                Some(path) => Ok(Some("song "@ + path)),
                None => Err(ErrorView::NoTrackToUpdate),
            },
        },
        Update::FullDatabase => Ok(Some(Seq::empty())),
    }
}

/// The command that a general command comes to, its parameters being settled.
pub open spec fn command_spec(c: CommandView, b: Binding, state: clients::StatusView) -> Result<
    TaggedView,
    ErrorView,
> {
    match spawn_spec(c.cmd, c.args, b.params) {
        Err(e) => Err(e),
        Ok(process) => match update_spec(c.update, b.track, current_file(c.music_dir, state)) {
            Err(e) => Err(e),
            Ok(upd) => Ok(TaggedView { process, upd }),
        },
    }
}

/// The command that a general command's invocation with some tokens comes to.
pub open spec fn execute_spec(
    c: CommandView,
    tokens: Seq<Seq<char>>,
    state: clients::StatusView,
    stickers: Stickers,
    s: Session,
) -> (Result<TaggedView, ErrorView>, Session) {
    match bind_spec(c, tokens, state) {
        Err(e) => (Err(e), s),
        Ok(b) => match bind_stickers_spec(c, b, stickers, s) {
            (Err(e), s1) => (Err(e), s1),
            (Ok(b), s1) => (command_spec(c, b, state), s1),
        },
    }
}

/// A track: its URI, & the absolute path to it.
struct Track {
    uri: String,
    path: String,
}

impl DeepView for Track {
    type V = TrackView;

    closed spec fn deep_view(&self) -> TrackView {
        TrackView { uri: self.uri@, path: self.path@ }
    }
}

/// The parameters of a command that have been settled.
struct Bound {
    params: StringMap<String>,
    track: Option<Track>,
}

impl DeepView for Bound {
    type V = Binding;

    closed spec fn deep_view(&self) -> Binding {
        Binding { params: self.params.deep_view(), track: self.track.deep_view() }
    }
}

/// Put text under a name in a table of replacements.
fn put_text(params: &mut StringMap<String>, name: String, value: String)
    ensures
        final(params).deep_view() == collections::put(old(params).deep_view(), name@, value@),
{
    let ghost before = params@;
    proof {
        collections::lemma_deep_entries(before, name@, value);
    }
    params.insert(name, value);
}

impl GeneralizedCommand {
    /// A general command.
    pub fn new(
        formal_params: Vec<FormalParameter>,
        default_after: usize,
        music_dir: &str,
        cmd: &str,
        args: Vec<String>,
        update: Update,
    ) -> (r: GeneralizedCommand)
        ensures
            r.deep_view() == (CommandView {
                formal_parameters: formal_params@,
                default_after,
                music_dir: music_dir@,
                cmd: cmd@,
                args: text::texts(args@),
                update,
            }),
    {
        GeneralizedCommand {
            formal_parameters: formal_params,
            default_after,
            music_dir: text::owned(music_dir),
            cmd: text::owned(cmd),
            args,
            update,
        }
    }

    /// Settle the parameters.
    fn bind(&self, tokens: &[String], state: &PlayerStatus) -> (r: Result<Bound, Error>)
        ensures
            text::outcome(r) == bind_spec(
                self.deep_view(),
                text::texts(tokens@),
                state.deep_view(),
            ),
    {
        let ghost c = self.deep_view();
        let ghost actual = text::texts(tokens@);
        // Prepare replacement parameters
        let mut params: StringMap<String> = StringMap::new();
        assert(params.deep_view() =~= Seq::<(Seq<char>, Seq<char>)>::empty());
        // We always provide %current-file (the full path to the currently playing track), if
        // possible.
        let current: Option<&CurrentSong> = state.current_song();
        if let Some(curr) = current {
            let path = paths::join(self.music_dir.as_str(), curr.file.as_str());
            put_text(&mut params, text::owned("current-file"), path);
        }
        let mut track: Option<Track> = None;
        let ghost mut b = initial_binding(c, state.deep_view());
        assert(params.deep_view() =~= b.params);
        // Now walk our formal parameters...
        let mut k: usize = 0;
        while k < self.formal_parameters.len()
            invariant
                c == self.deep_view(),
                actual == text::texts(tokens@),
                current.deep_view() == clients::song_of(state.deep_view()),
                k <= self.formal_parameters@.len(),
                b == (Binding { params: params.deep_view(), track: track.deep_view() }),
                bind_spec(c, actual, state.deep_view()) == bind_from(
                    c,
                    actual,
                    state.deep_view(),
                    k as int,
                    b,
                ),
            decreases self.formal_parameters@.len() - k,
        {
            let i: usize = k + 1;
            if k >= tokens.len() && i <= self.default_after {
                return Err(Error::MissingParameter { index: i });
            }
            let name = number::write_usize(i);
            match self.formal_parameters[k] {
                FormalParameter::Literal => {
                    // Simple case-- replacement parameter %i will be the token, or "" if it may be
                    // defaulted.
                    let value = if k < tokens.len() {
                        assert(actual[k as int] == tokens@[k as int]@);
                        tokens[k].clone()
                    } else {
                        String::new()
                    };
                    proof {
                        b = bind_literal(b, i as int, value@);
                    }
                    put_text(&mut params, name, value);
                },
                FormalParameter::Track => {
                    if track.is_some() {
                        return Err(Error::DuplicateTrackArgument { index: i });
                    }
                    // An empty track is the current one, as is one that has been defaulted.
                    let given = k < tokens.len() && !tokens[k].as_str().is_empty();
                    assert(k < tokens@.len() ==> actual[k as int] == tokens@[k as int]@);
                    let uri = if given {
                        tokens[k].clone()
                    } else {
                        match current {
                            Some(curr) => curr.file.clone(),
                            None => {
                                return Err(Error::NoCurrentTrack);
                            },
                        }
                    };
                    proof {
                        b = bind_track(b, i as int, c.music_dir, uri@);
                    }
                    let path = paths::join(self.music_dir.as_str(), uri.as_str());
                    put_text(&mut params, name, path.clone());
                    put_text(&mut params, text::owned("full-file"), path.clone());
                    track = Some(Track { uri, path });
                },
            }
            k = k + 1;
        }
        Ok(Bound { params, track })
    }

    /// Whether one of the arguments names a parameter.
    fn uses(&self, name: &str) -> (r: bool)
        ensures
            r == uses(self.deep_view(), name@),
    {
        let ghost c = self.deep_view();
        let mut k: usize = 0;
        while k < self.args.len()
            invariant
                c == self.deep_view(),
                k <= self.args@.len(),
                forall|j: int| 0 <= j < k ==> !#[trigger] replstrings::names(c.args[j], name@),
            decreases self.args@.len() - k,
        {
            assert(c.args[k as int] == self.args@[k as int]@);
            if replstrings::names_parameter(self.args[k].as_str(), name) {
                return true;
            }
            k = k + 1;
        }
        false
    }

    /// Settle a parameter that stands for a sticker's value, if it is used.
    fn bind_sticker<S: RequestResponse>(
        &self,
        bound: &mut Bound,
        name: &str,
        sticker: &str,
        client: &mut Client<S>,
    ) -> (r: Result<(), Error>)
        ensures
            ({
                let (b, s) = bind_sticker_spec(
                    self.deep_view(),
                    old(bound).deep_view(),
                    name@,
                    sticker@,
                    old(client).session(),
                );
                &&& final(client).session() == s
                &&& match b {
                    Ok(b) => r is Ok && final(bound).deep_view() == b,
                    Err(e) => text::outcome_err(r, e),
                }
            }),
    {
        if let Some(track) = &bound.track {
            if self.uses(name) {
                let value: Option<String> = match client.get_sticker(track.uri.as_str(), sticker) {
                    Ok(value) => value,
                    Err(source) => {
                        return Err(Error::Client { source });
                    },
                };
                let value = match value {
                    Some(value) => value,
                    None => text::owned("0"),
                };
                put_text(&mut bound.params, text::owned(name), value);
            }
        }
        Ok(())
    }

    /// The command to be run, the parameters being settled.
    fn command(&self, bound: &Bound, state: &PlayerStatus) -> (r: Result<TaggedCommand, Error>)
        ensures
            text::outcome(r) == command_spec(
                self.deep_view(),
                bound.deep_view(),
                state.deep_view(),
            ),
    {
        let process = spawn(self.cmd.as_str(), &self.args, &bound.params)?;
        let upd: Option<String> = match self.update {
            Update::NoUpdate => None,
            Update::TrackOnly => match &bound.track {
                // In terms of DB updates, we give preference to the track given, then the current
                // one
                Some(track) => Some(text::join2("song ", track.path.as_str())),
                None => match state.current_song() {
                    Some(curr) => {
                        let path = paths::join(self.music_dir.as_str(), curr.file.as_str());
                        Some(text::join2("song ", path.as_str()))
                    },
                    None => {
                        return Err(Error::NoTrackToUpdate);
                    },
                },
            },
            Update::FullDatabase => Some(String::new()),
        };
        Ok(TaggedCommand::new(process, upd))
    }

    /// Execute a general command
    ///
    /// `tokens` shall be the message tokens, beginning with the first token *after* the command name.
    /// The stickers that the command uses are retrieved first.
    pub fn execute<S: RequestResponse>(
        &self,
        tokens: &[String],
        state: &PlayerStatus,
        rating_sticker: &str,
        playcount_sticker: &str,
        lastplayed_sticker: &str,
        client: &mut Client<S>,
    ) -> (r: Result<TaggedCommand, Error>)
        ensures
            (text::outcome(r), final(client).session()) == execute_spec(
                self.deep_view(),
                text::texts(tokens@),
                state.deep_view(),
                (rating_sticker@, playcount_sticker@, lastplayed_sticker@),
                old(client).session(),
            ),
    {
        let mut bound = self.bind(tokens, state)?;
        self.bind_sticker(&mut bound, "rating", rating_sticker, client)?;
        self.bind_sticker(&mut bound, "play-count", playcount_sticker, client)?;
        self.bind_sticker(&mut bound, "last-played", lastplayed_sticker, client)?;
        self.command(&bound, state)
    }
}

// ---------------------------------------------------------------------------------------------
// Laws
// ---------------------------------------------------------------------------------------------

/// A command that uses no stickers asks nothing of the server: its parameters alone decide what it comes to.
pub proof fn law_no_stickers(
    c: CommandView,
    tokens: Seq<Seq<char>>,
    state: clients::StatusView,
    stickers: Stickers,
    s: Session,
)
    requires
        !uses(c, "rating"@),
        !uses(c, "play-count"@),
        !uses(c, "last-played"@),
    ensures
        execute_spec(c, tokens, state, stickers, s) == (
            match bind_spec(c, tokens, state) {
                Ok(b) => command_spec(c, b, state),
                Err(e) => Err(e),
            },
            s,
        ),
{
}

proof fn lemma_decimal_name(i: nat, j: nat)
    ensures
        number::decimal(i) == number::decimal(j) ==> i == j,
        number::decimal(i) != "full-file"@,
        number::decimal(i) != "current-file"@,
{
    number::lemma_decimal(i);
    number::lemma_decimal(j);
    reveal_strlit("full-file");
    reveal_strlit("current-file");
    assert("full-file"@[0] == 'f' && "current-file"@[0] == 'c');
    assert(number::is_digit(number::decimal(i)[0]));
}

/// The parameters in later places leave that in place `i` alone.
proof fn lemma_bind_keeps(
    c: CommandView,
    tokens: Seq<Seq<char>>,
    state: clients::StatusView,
    k: int,
    b: Binding,
    i: int,
)
    requires
        1 <= i <= k,
        bind_from(c, tokens, state, k, b) is Ok,
    ensures
        collections::lookup(
            bind_from(c, tokens, state, k, b)->Ok_0.params,
            number::decimal(i as nat),
        ) == collections::lookup(b.params, number::decimal(i as nat)),
    decreases c.formal_parameters.len() - k,
{
    if k < c.formal_parameters.len() {
        let name = number::decimal(i as nat);
        let place = number::decimal((k + 1) as nat);
        lemma_decimal_name(i as nat, (k + 1) as nat);
        match c.formal_parameters[k] {
            FormalParameter::Literal => {
                let value = if k < tokens.len() {
                    tokens[k]
                } else {
                    Seq::empty()
                };
                collections::law_put_lookup(b.params, place, value, name);
                lemma_bind_keeps(c, tokens, state, k + 1, bind_literal(b, k + 1, value), i);
            },
            FormalParameter::Track => {
                let uri = track_for(tokens, state, k)->0;
                let path = paths::joined(c.music_dir, uri);
                collections::law_put_lookup(b.params, place, path, name);
                collections::law_put_lookup(
                    collections::put(b.params, place, path),
                    "full-file"@,
                    path,
                    name,
                );
                lemma_bind_keeps(
                    c,
                    tokens,
                    state,
                    k + 1,
                    bind_track(b, k + 1, c.music_dir, uri),
                    i,
                );
            },
        }
    }
}

/// The value of the parameter in place `i`: for a general parameter, what was given or else nothing; for a
/// song, the absolute path to what was given, if it is not empty, or else to the current track.
pub open spec fn parameter(
    c: CommandView,
    tokens: Seq<Seq<char>>,
    state: clients::StatusView,
    i: int,
) -> Seq<char> {
    match c.formal_parameters[i - 1] {
        FormalParameter::Literal => if i <= tokens.len() {
            tokens[i - 1]
        } else {
            Seq::empty()
        },
        FormalParameter::Track => paths::joined(c.music_dir, track_for(tokens, state, i - 1)->0),
    }
}

proof fn lemma_bind_place(
    c: CommandView,
    tokens: Seq<Seq<char>>,
    state: clients::StatusView,
    k: int,
    b: Binding,
    i: int,
)
    requires
        0 <= k < i <= c.formal_parameters.len(),
        bind_from(c, tokens, state, k, b) is Ok,
    ensures
        collections::lookup(
            bind_from(c, tokens, state, k, b)->Ok_0.params,
            number::decimal(i as nat),
        ) == Some(parameter(c, tokens, state, i)),
    decreases i - k,
{
    let place = number::decimal((k + 1) as nat);
    lemma_decimal_name((k + 1) as nat, (k + 1) as nat);
    match c.formal_parameters[k] {
        FormalParameter::Literal => {
            let value = if k < tokens.len() {
                tokens[k]
            } else {
                Seq::empty()
            };
            let next = bind_literal(b, k + 1, value);
            if i == k + 1 {
                collections::law_put_lookup(b.params, place, value, place);
                lemma_bind_keeps(c, tokens, state, k + 1, next, i);
            } else {
                lemma_bind_place(c, tokens, state, k + 1, next, i);
            }
        },
        FormalParameter::Track => {
            let uri = track_for(tokens, state, k)->0;
            let path = paths::joined(c.music_dir, uri);
            let next = bind_track(b, k + 1, c.music_dir, uri);
            if i == k + 1 {
                collections::law_put_lookup(b.params, place, path, place);
                collections::law_put_lookup(
                    collections::put(b.params, place, path),
                    "full-file"@,
                    path,
                    place,
                );
                lemma_bind_keeps(c, tokens, state, k + 1, next, i);
            } else {
                lemma_bind_place(c, tokens, state, k + 1, next, i);
            }
        },
    }
}

/// %1, %2, %3... are replaced with the parameter in the corresponding position.
pub proof fn law_positions(
    c: CommandView,
    tokens: Seq<Seq<char>>,
    state: clients::StatusView,
    i: int,
)
    requires
        1 <= i <= c.formal_parameters.len(),
        bind_spec(c, tokens, state) is Ok,
    ensures
        collections::lookup(
            bind_spec(c, tokens, state)->Ok_0.params,
            number::decimal(i as nat),
        ) == Some(parameter(c, tokens, state, i)),
{
    lemma_bind_place(c, tokens, state, 0, initial_binding(c, state), i);
}

/// An empty song parameter means the current track: a command comes to what it does if that is written out.
pub proof fn law_empty_track(
    c: CommandView,
    tokens: Seq<Seq<char>>,
    state: clients::StatusView,
    stickers: Stickers,
    s: Session,
    i: int,
)
    requires
        0 <= i < tokens.len(),
        i < c.formal_parameters.len(),
        c.formal_parameters[i] == FormalParameter::Track,
        tokens[i].len() == 0,
        clients::song_of(state) is Some,
    ensures
        execute_spec(c, tokens, state, stickers, s) == execute_spec(
            c,
            tokens.update(i, clients::song_of(state)->0.file),
            state,
            stickers,
            s,
        ),
{
    lemma_empty_track(c, tokens, state, i, 0, initial_binding(c, state));
}

proof fn lemma_empty_track(
    c: CommandView,
    tokens: Seq<Seq<char>>,
    state: clients::StatusView,
    i: int,
    k: int,
    b: Binding,
)
    requires
        0 <= i < tokens.len(),
        i < c.formal_parameters.len(),
        0 <= k <= c.formal_parameters.len(),
        c.formal_parameters[i] == FormalParameter::Track,
        tokens[i].len() == 0,
        clients::song_of(state) is Some,
    ensures
        bind_from(c, tokens, state, k, b) == bind_from(
            c,
            tokens.update(i, clients::song_of(state)->0.file),
            state,
            k,
            b,
        ),
    decreases c.formal_parameters.len() - k,
{
    if k < c.formal_parameters.len() {
        let written = tokens.update(i, clients::song_of(state)->0.file);
        assert(track_for(written, state, k) == track_for(tokens, state, k));
        match c.formal_parameters[k] {
            FormalParameter::Literal => {
                let value = if k < tokens.len() {
                    tokens[k]
                } else {
                    Seq::empty()
                };
                lemma_empty_track(c, tokens, state, i, k + 1, bind_literal(b, k + 1, value));
            },
            FormalParameter::Track => {
                let uri = track_for(tokens, state, k)->0;
                lemma_empty_track(
                    c,
                    tokens,
                    state,
                    i,
                    k + 1,
                    bind_track(b, k + 1, c.music_dir, uri),
                );
            },
        }
    }
}

/// The first `default_after` parameters must be given: without one of them, there is no command to be run.
pub proof fn law_mandatory(
    c: CommandView,
    tokens: Seq<Seq<char>>,
    state: clients::StatusView,
    stickers: Stickers,
    s: Session,
)
    requires
        tokens.len() < c.formal_parameters.len(),
        tokens.len() < c.default_after,
    ensures
        execute_spec(c, tokens, state, stickers, s).0 is Err,
        execute_spec(c, tokens, state, stickers, s).1 == s,
{
    lemma_mandatory(c, tokens, state, 0, initial_binding(c, state));
}

proof fn lemma_mandatory(
    c: CommandView,
    tokens: Seq<Seq<char>>,
    state: clients::StatusView,
    k: int,
    b: Binding,
)
    requires
        0 <= k <= tokens.len() < c.formal_parameters.len(),
        tokens.len() < c.default_after,
    ensures
        bind_from(c, tokens, state, k, b) is Err,
    decreases tokens.len() - k,
{
    if k < tokens.len() {
        lemma_mandatory(c, tokens, state, k + 1, bind_literal(b, k + 1, tokens[k]));
        let uri = track_for(tokens, state, k)->0;
        lemma_mandatory(c, tokens, state, k + 1, bind_track(b, k + 1, c.music_dir, uri));
    }
}

/// The arguments of a process are the expansions of those that the command is configured with, one by one,
/// & its program is the command's; there is one if & only if each of them can be expanded.
pub proof fn law_spawned(cmd: Seq<char>, args: Seq<Seq<char>>, params: replstrings::Params)
    ensures
        spawn_spec(cmd, args, params) is Ok <==> forall|k: int|
            0 <= k < args.len() ==> #[trigger] replstrings::expansion(args[k], params) is Ok,
        spawn_spec(cmd, args, params) matches Ok(p) ==> {
            &&& p.program == cmd
            &&& p.args.len() == args.len()
            &&& forall|k: int|
                0 <= k < args.len() ==> Ok::<Seq<char>, replstrings::ErrorView>(
                    #[trigger] p.args[k],
                ) == replstrings::expansion(args[k], params)
        },
{
    lemma_expansions(args, args.len() as int, params);
}

proof fn lemma_expansions(args: Seq<Seq<char>>, n: int, params: replstrings::Params)
    requires
        0 <= n <= args.len(),
    ensures
        expansions(args, n, params) is Ok <==> forall|k: int|
            0 <= k < n ==> #[trigger] replstrings::expansion(args[k], params) is Ok,
        expansions(args, n, params) matches Ok(r) ==> r.len() == n && forall|k: int|
            0 <= k < n ==> Ok::<Seq<char>, replstrings::ErrorView>(#[trigger] r[k])
                == replstrings::expansion(args[k], params),
    decreases n,
{
    if n > 0 {
        lemma_expansions(args, n - 1, params);
        let last = replstrings::expansion(args[n - 1], params);
    }
}

/// A track stays the same, once it has been seen.
proof fn lemma_track_stays(
    c: CommandView,
    tokens: Seq<Seq<char>>,
    state: clients::StatusView,
    k: int,
    b: Binding,
)
    requires
        0 <= k,
        b.track is Some,
        bind_from(c, tokens, state, k, b) is Ok,
    ensures
        ({
            let r = bind_from(c, tokens, state, k, b)->Ok_0;
            &&& r.track == b.track
            &&& collections::lookup(r.params, "full-file"@) == collections::lookup(
                b.params,
                "full-file"@,
            )
        }),
    decreases c.formal_parameters.len() - k,
{
    if k < c.formal_parameters.len() {
        let value = if k < tokens.len() {
            tokens[k]
        } else {
            Seq::empty()
        };
        lemma_decimal_name((k + 1) as nat, (k + 1) as nat);
        collections::law_put_lookup(
            b.params,
            number::decimal((k + 1) as nat),
            value,
            "full-file"@,
        );
        lemma_track_stays(c, tokens, state, k + 1, bind_literal(b, k + 1, value));
    }
}

/// The track is that of the song parameter; without one, there is none.
proof fn lemma_track(
    c: CommandView,
    tokens: Seq<Seq<char>>,
    state: clients::StatusView,
    k: int,
    b: Binding,
)
    requires
        0 <= k,
        b.track is None,
        bind_from(c, tokens, state, k, b) is Ok,
    ensures
        ({
            let r = bind_from(c, tokens, state, k, b)->Ok_0;
            &&& forall|i: int|
                k <= i < c.formal_parameters.len() && #[trigger] c.formal_parameters[i]
                    == FormalParameter::Track ==> {
                    let uri = track_for(tokens, state, i)->0;
                    let path = paths::joined(c.music_dir, uri);
                    &&& track_for(tokens, state, i) is Some
                    &&& r.track == Some(TrackView { uri, path })
                    &&& collections::lookup(r.params, "full-file"@) == Some(path)
                }
            &&& (forall|i: int|
                k <= i < c.formal_parameters.len() ==> #[trigger] c.formal_parameters[i]
                    != FormalParameter::Track) ==> r.track is None && collections::lookup(
                r.params,
                "full-file"@,
            ) == collections::lookup(b.params, "full-file"@)
        }),
    decreases c.formal_parameters.len() - k,
{
    if k < c.formal_parameters.len() {
        lemma_decimal_name((k + 1) as nat, (k + 1) as nat);
        let place = number::decimal((k + 1) as nat);
        match c.formal_parameters[k] {
            FormalParameter::Literal => {
                let value = if k < tokens.len() {
                    tokens[k]
                } else {
                    Seq::empty()
                };
                collections::law_put_lookup(b.params, place, value, "full-file"@);
                lemma_track(c, tokens, state, k + 1, bind_literal(b, k + 1, value));
            },
            FormalParameter::Track => {
                let uri = track_for(tokens, state, k)->0;
                let path = paths::joined(c.music_dir, uri);
                let next = bind_track(b, k + 1, c.music_dir, uri);
                collections::law_put_lookup(
                    collections::put(b.params, place, path),
                    "full-file"@,
                    path,
                    "full-file"@,
                );
                lemma_track_stays(c, tokens, state, k + 1, next);
                lemma_one_track(c, tokens, state, k + 1, next);
            },
        }
    }
}

/// There is no other track after one.
proof fn lemma_one_track(
    c: CommandView,
    tokens: Seq<Seq<char>>,
    state: clients::StatusView,
    k: int,
    b: Binding,
)
    requires
        0 <= k,
        b.track is Some,
        bind_from(c, tokens, state, k, b) is Ok,
    ensures
        forall|i: int|
            k <= i < c.formal_parameters.len() ==> #[trigger] c.formal_parameters[i]
                != FormalParameter::Track,
    decreases c.formal_parameters.len() - k,
{
    if k < c.formal_parameters.len() {
        let value = if k < tokens.len() {
            tokens[k]
        } else {
            Seq::empty()
        };
        lemma_one_track(c, tokens, state, k + 1, bind_literal(b, k + 1, value));
    }
}

/// The current track's path stays under its name.
proof fn lemma_current_stays(
    c: CommandView,
    tokens: Seq<Seq<char>>,
    state: clients::StatusView,
    k: int,
    b: Binding,
)
    requires
        0 <= k,
        bind_from(c, tokens, state, k, b) is Ok,
    ensures
        collections::lookup(bind_from(c, tokens, state, k, b)->Ok_0.params, "current-file"@)
            == collections::lookup(b.params, "current-file"@),
    decreases c.formal_parameters.len() - k,
{
    if k < c.formal_parameters.len() {
        lemma_decimal_name((k + 1) as nat, (k + 1) as nat);
        let place = number::decimal((k + 1) as nat);
        reveal_strlit("full-file");
        reveal_strlit("current-file");
        assert("full-file"@[0] != "current-file"@[0]);
        match c.formal_parameters[k] {
            FormalParameter::Literal => {
                let value = if k < tokens.len() {
                    tokens[k]
                } else {
                    Seq::empty()
                };
                collections::law_put_lookup(b.params, place, value, "current-file"@);
                lemma_current_stays(c, tokens, state, k + 1, bind_literal(b, k + 1, value));
            },
            FormalParameter::Track => {
                let uri = track_for(tokens, state, k)->0;
                let path = paths::joined(c.music_dir, uri);
                collections::law_put_lookup(b.params, place, path, "current-file"@);
                collections::law_put_lookup(
                    collections::put(b.params, place, path),
                    "full-file"@,
                    path,
                    "current-file"@,
                );
                lemma_current_stays(
                    c,
                    tokens,
                    state,
                    k + 1,
                    bind_track(b, k + 1, c.music_dir, uri),
                );
            },
        }
    }
}

/// Whether a name is none of those that stand for stickers.
spec fn is_no_sticker(name: Seq<char>) -> bool {
    name != "rating"@ && name != "play-count"@ && name != "last-played"@
}

/// The values of stickers leave everything else alone.
proof fn lemma_stickers_leave(c: CommandView, b: Binding, stickers: Stickers, s: Session, name: Seq<char>)
    requires
        is_no_sticker(name),
        bind_stickers_spec(c, b, stickers, s).0 is Ok,
    ensures
        ({
            let r = bind_stickers_spec(c, b, stickers, s).0->Ok_0;
            &&& r.track == b.track
            &&& collections::lookup(r.params, name) == collections::lookup(b.params, name)
        }),
{
    let (r1, s1) = bind_sticker_spec(c, b, "rating"@, stickers.0, s);
    let b1 = r1->Ok_0;
    let (r2, s2) = bind_sticker_spec(c, b1, "play-count"@, stickers.1, s1);
    let b2 = r2->Ok_0;
    let (r3, s3) = bind_sticker_spec(c, b2, "last-played"@, stickers.2, s2);
    lemma_sticker_leaves(c, b, "rating"@, stickers.0, s, name);
    lemma_sticker_leaves(c, b1, "play-count"@, stickers.1, s1, name);
    lemma_sticker_leaves(c, b2, "last-played"@, stickers.2, s2, name);
}

proof fn lemma_sticker_leaves(
    c: CommandView,
    b: Binding,
    name: Seq<char>,
    sticker: Seq<char>,
    s: Session,
    other: Seq<char>,
)
    requires
        bind_sticker_spec(c, b, name, sticker, s).0 is Ok,
        name != other,
    ensures
        ({
            let r = bind_sticker_spec(c, b, name, sticker, s).0->Ok_0;
            &&& r.track == b.track
            &&& collections::lookup(r.params, other) == collections::lookup(b.params, other)
        }),
{
    if let Some(track) = b.track {
        if let Ok(value) = clients::get_sticker_spec::<String>(s, track.uri, sticker).0 {
            let value = match value {
                Some(value) => value,
                None => "0"@,
            };
            collections::law_put_lookup(b.params, name, value, other);
        }
    }
}

/// An argument that is a parameter alone is replaced with what stands under it.
proof fn lemma_alone(templ: Seq<char>, name: Seq<char>, params: replstrings::Params)
    requires
        templ == seq!['%'] + name,
        name.len() > 0,
        forall|i: int| 0 <= i < name.len() ==> replstrings::is_name_char(#[trigger] name[i]),
        replstrings::expansion(templ, params) is Ok,
    ensures
        collections::lookup(params, name) == Some(replstrings::expansion(templ, params)->Ok_0),
{
    replstrings::law_parameter(name, params);
}

/// What a general command runs. Its program is the one configured. Of the arguments configured, one without
/// percent signs is passed as it is; "%i" is replaced with the parameter in that place, which is what was
/// given or else nothing, or, for a song, the absolute path to what was given or else to the current track;
/// "%full-file" is replaced with that path, & "%current-file" with the current track's.
pub proof fn law_executed(
    c: CommandView,
    tokens: Seq<Seq<char>>,
    state: clients::StatusView,
    stickers: Stickers,
    s: Session,
    k: int,
    i: int,
)
    requires
        execute_spec(c, tokens, state, stickers, s).0 is Ok,
        0 <= k < c.args.len(),
        0 <= i,
    ensures
        ({
            let process = execute_spec(c, tokens, state, stickers, s).0->Ok_0.process;
            let given = if i < tokens.len() {
                tokens[i]
            } else {
                Seq::empty()
            };
            let path = paths::joined(
                c.music_dir,
                if given.len() > 0 {
                    given
                } else {
                    clients::song_of(state)->0.file
                },
            );
            &&& process.program == c.cmd
            &&& process.args.len() == c.args.len()
            &&& !c.args[k].contains('%') ==> process.args[k] == c.args[k]
            &&& i < c.formal_parameters.len() && c.args[k] == seq!['%'] + number::decimal(
                (i + 1) as nat,
            ) ==> process.args[k] == (match c.formal_parameters[i] {
                FormalParameter::Literal => given,
                FormalParameter::Track => path,
            })
            &&& i < c.formal_parameters.len() && c.args[k] == "%full-file"@ && c.formal_parameters[i]
                == FormalParameter::Track ==> process.args[k] == path
            &&& c.args[k] == "%current-file"@ && clients::song_of(state) is Some ==> process.args[k]
                == paths::joined(c.music_dir, clients::song_of(state)->0.file)
        }),
{
    let bound = bind_spec(c, tokens, state)->Ok_0;
    let b = bind_stickers_spec(c, bound, stickers, s).0->Ok_0;
    let process = execute_spec(c, tokens, state, stickers, s).0->Ok_0.process;
    law_spawned(c.cmd, c.args, b.params);
    assert(Ok::<Seq<char>, replstrings::ErrorView>(process.args[k]) == replstrings::expansion(
        c.args[k],
        b.params,
    ));
    reveal_strlit("rating");
    reveal_strlit("play-count");
    reveal_strlit("last-played");
    reveal_strlit("full-file");
    reveal_strlit("current-file");
    reveal_strlit("%full-file");
    reveal_strlit("%current-file");
    if !c.args[k].contains('%') {
        assert forall|j: int| 0 <= j < c.args[k].len() implies c.args[k][j] != '%' by {
            if c.args[k][j] == '%' {
                assert(c.args[k].contains('%'));
            }
        }
        replstrings::law_no_percent(c.args[k], b.params);
    }
    // the parameter in place i
    let place = number::decimal((i + 1) as nat);
    number::lemma_decimal((i + 1) as nat);
    assert(number::is_digit(place[0]));
    assert("rating"@[0] == 'r' && "play-count"@[0] == 'p' && "last-played"@[0] == 'l');
    assert("full-file"@[0] == 'f' && "current-file"@[0] == 'c');
    lemma_stickers_leave(c, bound, stickers, s, place);
    if i < c.formal_parameters.len() && c.args[k] == seq!['%'] + place {
        law_positions(c, tokens, state, i + 1);
        assert forall|j: int| 0 <= j < place.len() implies replstrings::is_name_char(
            #[trigger] place[j],
        ) by {
            assert(number::is_digit(place[j]));
        }
        lemma_alone(c.args[k], place, b.params);
    }
    // the paths
    lemma_stickers_leave(c, bound, stickers, s, "full-file"@);
    lemma_stickers_leave(c, bound, stickers, s, "current-file"@);
    lemma_track(c, tokens, state, 0, initial_binding(c, state));
    lemma_current_stays(c, tokens, state, 0, initial_binding(c, state));
    if c.args[k] == "%full-file"@ {
        assert("%full-file"@ =~= seq!['%'] + "full-file"@);
        lemma_alone(c.args[k], "full-file"@, b.params);
    }
    if c.args[k] == "%current-file"@ {
        assert("%current-file"@ =~= seq!['%'] + "current-file"@);
        lemma_alone(c.args[k], "current-file"@, b.params);
    }
}

/// What is updated once a general command completes: nothing, the whole database, or one track, which is
/// the one that the song parameter stands for or else, if there is no such parameter, the current one.
pub proof fn law_updated(
    c: CommandView,
    tokens: Seq<Seq<char>>,
    state: clients::StatusView,
    stickers: Stickers,
    s: Session,
    i: int,
)
    requires
        execute_spec(c, tokens, state, stickers, s).0 is Ok,
    ensures
        ({
            let upd = execute_spec(c, tokens, state, stickers, s).0->Ok_0.upd;
            match c.update {
                Update::NoUpdate => upd is None,
                Update::FullDatabase => upd == Some(Seq::<char>::empty()),
                Update::TrackOnly => {
                    &&& 0 <= i < c.formal_parameters.len() && c.formal_parameters[i]
                        == FormalParameter::Track ==> upd == Some(
                        "song "@ + paths::joined(
                            c.music_dir,
                            if i < tokens.len() && tokens[i].len() > 0 {
                                tokens[i]
                            } else {
                                clients::song_of(state)->0.file
                            },
                        ),
                    )
                    &&& (forall|j: int|
                        0 <= j < c.formal_parameters.len() ==> #[trigger] c.formal_parameters[j]
                            != FormalParameter::Track) ==> clients::song_of(state) is Some && upd
                        == Some(
                        "song "@ + paths::joined(c.music_dir, clients::song_of(state)->0.file),
                    )
                },
            }
        }),
{
    let bound = bind_spec(c, tokens, state)->Ok_0;
    reveal_strlit("rating");
    reveal_strlit("play-count");
    reveal_strlit("last-played");
    reveal_strlit("full-file");
    assert("rating"@[0] == 'r' && "play-count"@[0] == 'p' && "last-played"@[0] == 'l');
    assert("full-file"@[0] == 'f');
    lemma_stickers_leave(c, bound, stickers, s, "full-file"@);
    lemma_track(c, tokens, state, 0, initial_binding(c, state));
}

/// The stickers that a general command uses are those of the track that its song parameter stands for:
/// "%rating" is replaced with the value of the rating's sticker, "%play-count" with that of the play
/// count's & "%last-played" with that of the last played time's, as the server gives them, or else with
/// zero.
pub proof fn law_sticker_parameters(
    c: CommandView,
    tokens: Seq<Seq<char>>,
    state: clients::StatusView,
    stickers: Stickers,
    s: Session,
    k: int,
    i: int,
)
    requires
        execute_spec(c, tokens, state, stickers, s).0 is Ok,
        0 <= k < c.args.len(),
        0 <= i < c.formal_parameters.len(),
        c.formal_parameters[i] == FormalParameter::Track,
    ensures
        ({
            let arg = execute_spec(c, tokens, state, stickers, s).0->Ok_0.process.args[k];
            let uri = if i < tokens.len() && tokens[i].len() > 0 {
                tokens[i]
            } else {
                clients::song_of(state)->0.file
            };
            let (rating, s1) = if uses(c, "rating"@) {
                clients::get_sticker_spec::<String>(s, uri, stickers.0)
            } else {
                (Ok(None), s)
            };
            let (count, s2) = if uses(c, "play-count"@) {
                clients::get_sticker_spec::<String>(s1, uri, stickers.1)
            } else {
                (Ok(None), s1)
            };
            let (time, _) = if uses(c, "last-played"@) {
                clients::get_sticker_spec::<String>(s2, uri, stickers.2)
            } else {
                (Ok(None), s2)
            };
            &&& rating is Ok && count is Ok && time is Ok
            &&& c.args[k] == "%rating"@ ==> uses(c, "rating"@) && arg == rating->Ok_0.unwrap_or("0"@)
            &&& c.args[k] == "%play-count"@ ==> uses(c, "play-count"@) && arg
                == count->Ok_0.unwrap_or("0"@)
            &&& c.args[k] == "%last-played"@ ==> uses(c, "last-played"@) && arg
                == time->Ok_0.unwrap_or("0"@)
        }),
{
    let bound = bind_spec(c, tokens, state)->Ok_0;
    let b = bind_stickers_spec(c, bound, stickers, s).0->Ok_0;
    let arg = execute_spec(c, tokens, state, stickers, s).0->Ok_0.process.args[k];
    law_spawned(c.cmd, c.args, b.params);
    assert(Ok::<Seq<char>, replstrings::ErrorView>(arg) == replstrings::expansion(
        c.args[k],
        b.params,
    ));
    lemma_track(c, tokens, state, 0, initial_binding(c, state));
    let uri = track_for(tokens, state, i)->0;
    assert(bound.track->0.uri == uri);
    reveal_strlit("rating");
    reveal_strlit("play-count");
    reveal_strlit("last-played");
    reveal_strlit("%rating");
    reveal_strlit("%play-count");
    reveal_strlit("%last-played");
    assert("rating"@[0] == 'r' && "play-count"@[0] == 'p' && "last-played"@[0] == 'l');
    let (r1, s1) = bind_sticker_spec(c, bound, "rating"@, stickers.0, s);
    let b1 = r1->Ok_0;
    let (r2, s2) = bind_sticker_spec(c, b1, "play-count"@, stickers.1, s1);
    let b2 = r2->Ok_0;
    let b3 = bind_sticker_spec(c, b2, "last-played"@, stickers.2, s2).0->Ok_0;
    assert(b3 == b);
    if uses(c, "rating"@) {
        lemma_sticker_put(c, bound, "rating"@, stickers.0, s);
    }
    if uses(c, "play-count"@) {
        lemma_sticker_put(c, b1, "play-count"@, stickers.1, s1);
    }
    if uses(c, "last-played"@) {
        lemma_sticker_put(c, b2, "last-played"@, stickers.2, s2);
    }
    lemma_sticker_leaves(c, b1, "play-count"@, stickers.1, s1, "rating"@);
    lemma_sticker_leaves(c, b2, "last-played"@, stickers.2, s2, "rating"@);
    lemma_sticker_leaves(c, b2, "last-played"@, stickers.2, s2, "play-count"@);
    lemma_sticker_leaves(c, bound, "rating"@, stickers.0, s, "play-count"@);
    lemma_sticker_leaves(c, b1, "play-count"@, stickers.1, s1, "last-played"@);
    if c.args[k] == "%rating"@ {
        assert("%rating"@ =~= seq!['%'] + "rating"@);
        lemma_alone(c.args[k], "rating"@, b.params);
        lemma_names_alone(c.args[k], "rating"@);
        assert(replstrings::names(c.args[k], "rating"@));
    }
    if c.args[k] == "%play-count"@ {
        assert("%play-count"@ =~= seq!['%'] + "play-count"@);
        lemma_alone(c.args[k], "play-count"@, b.params);
        lemma_names_alone(c.args[k], "play-count"@);
        assert(replstrings::names(c.args[k], "play-count"@));
    }
    if c.args[k] == "%last-played"@ {
        assert("%last-played"@ =~= seq!['%'] + "last-played"@);
        lemma_alone(c.args[k], "last-played"@, b.params);
        lemma_names_alone(c.args[k], "last-played"@);
        assert(replstrings::names(c.args[k], "last-played"@));
    }
}

proof fn lemma_sticker_put(
    c: CommandView,
    b: Binding,
    name: Seq<char>,
    sticker: Seq<char>,
    s: Session,
)
    requires
        bind_sticker_spec(c, b, name, sticker, s).0 is Ok,
        b.track is Some,
        uses(c, name),
    ensures
        clients::get_sticker_spec::<String>(s, b.track->0.uri, sticker).0 matches Ok(value)
            && collections::lookup(
            bind_sticker_spec(c, b, name, sticker, s).0->Ok_0.params,
            name,
        ) == Some(value.unwrap_or("0"@)),
{
    let value = clients::get_sticker_spec::<String>(s, b.track->0.uri, sticker).0->Ok_0;
    collections::law_put_lookup(b.params, name, value.unwrap_or("0"@), name);
}

/// A parameter alone is named.
proof fn lemma_names_alone(templ: Seq<char>, name: Seq<char>)
    requires
        templ == seq!['%'] + name,
        name.len() > 0,
        forall|i: int| 0 <= i < name.len() ==> replstrings::is_name_char(#[trigger] name[i]),
    ensures
        replstrings::names(templ, name),
{
    assert(templ[0] == '%' && templ[1] == name[0]);
    assert forall|i: int| 1 <= i < templ.len() implies replstrings::is_name_char(
        #[trigger] templ[i],
    ) by {
        assert(templ[i] == name[i - 1]);
    }
    replstrings::lemma_name_end_at(templ, 1, templ.len() as int);
    assert(templ.subrange(1, templ.len() as int) =~= name);
}

/// Arguments beyond those that a general command takes have no bearing on what it comes to.
pub proof fn law_extra_arguments(
    c: CommandView,
    tokens: Seq<Seq<char>>,
    more: Seq<Seq<char>>,
    state: clients::StatusView,
    stickers: Stickers,
    s: Session,
)
    requires
        tokens.len() >= c.formal_parameters.len(),
    ensures
        execute_spec(c, tokens + more, state, stickers, s) == execute_spec(
            c,
            tokens,
            state,
            stickers,
            s,
        ),
{
    lemma_extra(c, tokens, more, state, 0, initial_binding(c, state));
}

proof fn lemma_extra(
    c: CommandView,
    tokens: Seq<Seq<char>>,
    more: Seq<Seq<char>>,
    state: clients::StatusView,
    k: int,
    b: Binding,
)
    requires
        0 <= k,
        tokens.len() >= c.formal_parameters.len(),
    ensures
        bind_from(c, tokens + more, state, k, b) == bind_from(c, tokens, state, k, b),
    decreases c.formal_parameters.len() - k,
{
    if k < c.formal_parameters.len() {
        assert((tokens + more)[k] == tokens[k]);
        assert(track_for(tokens + more, state, k) == track_for(tokens, state, k));
        lemma_extra(c, tokens, more, state, k + 1, bind_literal(b, k + 1, tokens[k]));
        let uri = track_for(tokens, state, k)->0;
        lemma_extra(c, tokens, more, state, k + 1, bind_track(b, k + 1, c.music_dir, uri));
    }
}

/// A general command that takes one song at most, & is given all that it must be & a song if there is no
/// current one, is run, whatever it is given, if its arguments are plain & it need not update a track.
pub proof fn law_run(
    c: CommandView,
    tokens: Seq<Seq<char>>,
    state: clients::StatusView,
    stickers: Stickers,
    s: Session,
)
    requires
        tokens.len() >= c.default_after || tokens.len() >= c.formal_parameters.len(),
        forall|i: int, j: int|
            0 <= i < c.formal_parameters.len() && 0 <= j < c.formal_parameters.len()
                && #[trigger] c.formal_parameters[i] == FormalParameter::Track
                && #[trigger] c.formal_parameters[j] == FormalParameter::Track ==> i == j,
        clients::song_of(state) is Some || forall|i: int|
            0 <= i < c.formal_parameters.len() && #[trigger] c.formal_parameters[i]
                == FormalParameter::Track ==> i < tokens.len() && tokens[i].len() > 0,
        forall|k: int| 0 <= k < c.args.len() ==> !(#[trigger] c.args[k]).contains('%'),
        c.update != Update::TrackOnly,
    ensures
        execute_spec(c, tokens, state, stickers, s).0 is Ok,
        execute_spec(c, tokens, state, stickers, s).1 == s,
{
    lemma_bound(c, tokens, state, 0, initial_binding(c, state));
    reveal_strlit("rating");
    reveal_strlit("play-count");
    reveal_strlit("last-played");
    assert forall|k: int, name: Seq<char>| 0 <= k < c.args.len() implies !#[trigger]
        replstrings::names(c.args[k], name) by {
        let arg = c.args[k];
        assert forall|j: int| 0 <= j < arg.len() implies arg[j] != '%' by {
            if arg[j] == '%' {
                assert(arg.contains('%'));
            }
        }
        lemma_names_nothing(arg, 0, name);
    }
    law_no_stickers(c, tokens, state, stickers, s);
    let b = bind_spec(c, tokens, state)->Ok_0;
    assert forall|k: int| 0 <= k < c.args.len() implies #[trigger] replstrings::expansion(
        c.args[k],
        b.params,
    ) is Ok by {
        let arg = c.args[k];
        assert forall|j: int| 0 <= j < arg.len() implies arg[j] != '%' by {
            if arg[j] == '%' {
                assert(arg.contains('%'));
            }
        }
        replstrings::law_no_percent(arg, b.params);
    }
    law_spawned(c.cmd, c.args, b.params);
}

proof fn lemma_names_nothing(templ: Seq<char>, i: int, name: Seq<char>)
    requires
        0 <= i,
        forall|j: int| 0 <= j < templ.len() ==> templ[j] != '%',
    ensures
        !replstrings::names_from(templ, i, name),
    decreases templ.len() - i,
{
    if i + 1 < templ.len() {
        lemma_names_nothing(templ, i + 1, name);
    }
}

proof fn lemma_bound(
    c: CommandView,
    tokens: Seq<Seq<char>>,
    state: clients::StatusView,
    k: int,
    b: Binding,
)
    requires
        0 <= k,
        tokens.len() >= c.default_after || tokens.len() >= c.formal_parameters.len(),
        forall|i: int, j: int|
            0 <= i < c.formal_parameters.len() && 0 <= j < c.formal_parameters.len()
                && #[trigger] c.formal_parameters[i] == FormalParameter::Track
                && #[trigger] c.formal_parameters[j] == FormalParameter::Track ==> i == j,
        b.track is Some ==> forall|i: int|
            k <= i < c.formal_parameters.len() ==> #[trigger] c.formal_parameters[i]
                != FormalParameter::Track,
        clients::song_of(state) is Some || forall|i: int|
            0 <= i < c.formal_parameters.len() && #[trigger] c.formal_parameters[i]
                == FormalParameter::Track ==> i < tokens.len() && tokens[i].len() > 0,
    ensures
        bind_from(c, tokens, state, k, b) is Ok,
    decreases c.formal_parameters.len() - k,
{
    if k < c.formal_parameters.len() {
        match c.formal_parameters[k] {
            FormalParameter::Literal => {
                let value = if k < tokens.len() {
                    tokens[k]
                } else {
                    Seq::empty()
                };
                lemma_bound(c, tokens, state, k + 1, bind_literal(b, k + 1, value));
            },
            FormalParameter::Track => {
                let uri = track_for(tokens, state, k)->0;
                lemma_bound(c, tokens, state, k + 1, bind_track(b, k + 1, c.music_dir, uri));
            },
        }
    }
}

/// Whether an argument that a general command is configured with is plain, or stands for a parameter: the
/// one in a place that there is, or the song.
pub open spec fn is_answered(c: CommandView, arg: Seq<char>) -> bool {
    ||| !arg.contains('%')
    ||| exists|i: nat| 1 <= i <= c.formal_parameters.len() && arg == seq!['%'] + #[trigger] number::decimal(i)
    ||| arg == "%full-file"@ && c.formal_parameters.contains(FormalParameter::Track)
}

/// A general command that takes one song at most, & is given all that it must be & a song if there is no
/// current one, is run if its arguments are plain or stand for its parameters, & there is a track to
/// update, if it must; nothing is asked of the server for it.
pub proof fn law_run_with_parameters(
    c: CommandView,
    tokens: Seq<Seq<char>>,
    state: clients::StatusView,
    stickers: Stickers,
    s: Session,
)
    requires
        tokens.len() >= c.default_after || tokens.len() >= c.formal_parameters.len(),
        forall|i: int, j: int|
            0 <= i < c.formal_parameters.len() && 0 <= j < c.formal_parameters.len()
                && #[trigger] c.formal_parameters[i] == FormalParameter::Track
                && #[trigger] c.formal_parameters[j] == FormalParameter::Track ==> i == j,
        clients::song_of(state) is Some || forall|i: int|
            0 <= i < c.formal_parameters.len() && #[trigger] c.formal_parameters[i]
                == FormalParameter::Track ==> i < tokens.len() && tokens[i].len() > 0,
        forall|k: int| 0 <= k < c.args.len() ==> is_answered(c, #[trigger] c.args[k]),
        c.update == Update::TrackOnly ==> clients::song_of(state) is Some
            || c.formal_parameters.contains(FormalParameter::Track),
    ensures
        execute_spec(c, tokens, state, stickers, s).0 is Ok,
        execute_spec(c, tokens, state, stickers, s).1 == s,
{
    lemma_bound(c, tokens, state, 0, initial_binding(c, state));
    let b = bind_spec(c, tokens, state)->Ok_0;
    lemma_track(c, tokens, state, 0, initial_binding(c, state));
    if c.formal_parameters.contains(FormalParameter::Track) {
        let i = c.formal_parameters.index_of(FormalParameter::Track);
        assert(c.formal_parameters[i] == FormalParameter::Track);
        assert(b.track is Some);
    }
    reveal_strlit("rating");
    reveal_strlit("play-count");
    reveal_strlit("last-played");
    assert("rating"@[0] == 'r' && "play-count"@[0] == 'p' && "last-played"@[0] == 'l');
    assert forall|k: int| 0 <= k < c.args.len() implies !replstrings::names(
        #[trigger] c.args[k],
        "rating"@,
    ) && !replstrings::names(c.args[k], "play-count"@) && !replstrings::names(
        c.args[k],
        "last-played"@,
    ) && replstrings::expansion(c.args[k], b.params) is Ok by {
        lemma_answered(c, tokens, state, c.args[k], "rating"@);
        lemma_answered(c, tokens, state, c.args[k], "play-count"@);
        lemma_answered(c, tokens, state, c.args[k], "last-played"@);
    }
    law_no_stickers(c, tokens, state, stickers, s);
    law_spawned(c.cmd, c.args, b.params);
}

proof fn lemma_answered(
    c: CommandView,
    tokens: Seq<Seq<char>>,
    state: clients::StatusView,
    arg: Seq<char>,
    other: Seq<char>,
)
    requires
        is_answered(c, arg),
        bind_spec(c, tokens, state) is Ok,
        other.len() > 0,
        other[0] == 'r' || other[0] == 'p' || other[0] == 'l',
    ensures
        !replstrings::names(arg, other),
        replstrings::expansion(arg, bind_spec(c, tokens, state)->Ok_0.params) is Ok,
{
    let b = bind_spec(c, tokens, state)->Ok_0;
    if !arg.contains('%') {
        assert forall|j: int| 0 <= j < arg.len() implies arg[j] != '%' by {
            if arg[j] == '%' {
                assert(arg.contains('%'));
            }
        }
        lemma_names_nothing(arg, 0, other);
        replstrings::law_no_percent(arg, b.params);
    } else if arg == "%full-file"@ {
        reveal_strlit("full-file");
        reveal_strlit("%full-file");
        assert("%full-file"@ =~= seq!['%'] + "full-file"@);
        assert("full-file"@[0] == 'f');
        if c.formal_parameters.contains(FormalParameter::Track) {
            let i = c.formal_parameters.index_of(FormalParameter::Track);
            assert(c.formal_parameters[i] == FormalParameter::Track);
            lemma_track(c, tokens, state, 0, initial_binding(c, state));
        }
        lemma_names_one("full-file"@, other);
        replstrings::law_parameter("full-file"@, b.params);
    }
    if exists|i: nat|
        1 <= i <= c.formal_parameters.len() && arg == seq!['%'] + #[trigger] number::decimal(i) {
        let i = choose|i: nat|
            1 <= i <= c.formal_parameters.len() && arg == seq!['%'] + #[trigger] number::decimal(i);
        let name = number::decimal(i);
        number::lemma_decimal(i);
        assert forall|j: int| 0 <= j < name.len() implies replstrings::is_name_char(
            #[trigger] name[j],
        ) by {
            assert(number::is_digit(name[j]));
        }
        assert(number::is_digit(name[0]));
        lemma_names_one(name, other);
        law_positions(c, tokens, state, i as int);
        replstrings::law_parameter(name, b.params);
    }
}

proof fn lemma_names_one(name: Seq<char>, other: Seq<char>)
    requires
        name.len() > 0,
        name[0] != '%',
        forall|i: int| 0 <= i < name.len() ==> replstrings::is_name_char(#[trigger] name[i]),
        other != name,
    ensures
        !replstrings::names(seq!['%'] + name, other),
{
    let t = seq!['%'] + name;
    assert(t[0] == '%' && t[1] == name[0]);
    assert forall|i: int| 1 <= i < t.len() implies replstrings::is_name_char(#[trigger] t[i]) by {
        assert(t[i] == name[i - 1]);
    }
    replstrings::lemma_name_end_at(t, 1, t.len() as int);
    assert(t.subrange(1, t.len() as int) =~= name);
    assert(!replstrings::names_from(t, t.len() as int, other));
}

} // verus!
