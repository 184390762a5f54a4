//! Managing play counts & lastplayed times
//!
//! # Introduction
//!
//! Play counts & last played timestamps are maintained so long as [`PlayState::update`] is called
//! regularly (every few seconds, say). For purposes of library maintenance, however, they can be
//! set explicitly:
//!
//! - `setpc PLAYCOUNT( TRACK)?`
//! - `setlp LASTPLAYED( TRACK)?`

use vstd::prelude::*;

use crate::clients;
use crate::clients::{Client, CurrentSong, PlayerStatus, RequestResponse, Session, StatusView};
use crate::commands;
use crate::commands::{TaggedCommand, TaggedView};
use crate::number;
use crate::paths;
use crate::ratings;
use crate::text;

verus! {

// ---------------------------------------------------------------------------------------------
// Errors
// ---------------------------------------------------------------------------------------------

/// What can go wrong with play counts
#[derive(Debug)]
#[allow(inconsistent_fields)]
pub enum Error {
    /// The clock could not be read; the payload says why
    SystemTime { source: String },
    /// The server could not be asked or told
    Client { source: clients::Error },
    /// The play count command could not be put together
    Command { source: commands::Error },
}

/// An [`Error`], as a mathematical value.
#[allow(inconsistent_fields)]
pub enum ErrorView {
    SystemTime { source: Seq<char> },
    Client { source: clients::ErrorView },
    Command { source: commands::ErrorView },
}

impl DeepView for Error {
    type V = ErrorView;

    open spec fn deep_view(&self) -> ErrorView {
        match self {
            Error::SystemTime { source } => ErrorView::SystemTime { source: source@ },
            Error::Client { source } => ErrorView::Client { source: source.deep_view() },
            Error::Command { source } => ErrorView::Command { source: source.deep_view() },
        }
    }
}

/// The words in which an error is reported.
pub open spec fn error_message(e: ErrorView) -> Seq<char> {
    match e {
        ErrorView::SystemTime { source } => "Couldn't get system time: "@ + source,
        ErrorView::Client { source } => "Client error: "@ + clients::error_message(source),
        ErrorView::Command { source } => "Command error: "@ + commands::error_message(source),
    }
}

impl Error {
    /// The words in which the error is reported.
    pub fn message(&self) -> (r: String)
        ensures
            r@ == error_message(self.deep_view()),
    {
        match self {
            Error::SystemTime { source } => text::join2(
                "Couldn't get system time: ",
                source.as_str(),
            ),
            Error::Client { source } => text::join2("Client error: ", source.message().as_str()),
            Error::Command { source } => text::join2("Command error: ", source.message().as_str()),
        }
    }
}

// ---------------------------------------------------------------------------------------------
// Play count operations
// ---------------------------------------------------------------------------------------------

/// The play count of a track, if it has one.
pub open spec fn get_play_count_spec(s: Session, sticker: Seq<char>, file: Seq<char>) -> (
    Result<Option<usize>, ErrorView>,
    Session,
) {
    let (count, s1) = clients::get_sticker_spec::<usize>(s, file, sticker);
    match count {
        Err(source) => (Err(ErrorView::Client { source }), s1),
        Ok(count) => (Ok(count), s1),
    }
}

/// Retrieve the play count for a track
pub fn get_play_count<S: RequestResponse>(client: &mut Client<S>, sticker: &str, file: &str) -> (r:
    Result<Option<usize>, Error>)
    ensures
        (text::outcome(r), final(client).session()) == get_play_count_spec(
            old(client).session(),
            sticker@,
            file@,
        ),
{
    match client.get_sticker::<usize>(file, sticker) {
        Ok(count) => Ok(count),
        Err(source) => Err(Error::Client { source }),
    }
}

/// Setting a play count: set the sticker, & then run the command, if there is one.
pub open spec fn set_play_count_spec(
    s: Session,
    sticker: Seq<char>,
    file: Seq<char>,
    play_count: usize,
    cmd: Seq<char>,
    args: Seq<Seq<char>>,
    music_dir: Seq<char>,
) -> (Result<Option<TaggedView>, ErrorView>, Session) {
    let (set, s1) = clients::set_sticker_spec(s, file, sticker, number::decimal(play_count as nat));
    match set {
        Err(source) => (Err(ErrorView::Client { source }), s1),
        Ok(_) => match ratings::track_command(
            cmd,
            args,
            paths::joined(music_dir, file),
            "playcount"@,
            play_count as nat,
        ) {
            Err(source) => (Err(ErrorView::Command { source }), s1),
            Ok(command) => (Ok(command), s1),
        },
    }
}

/// Set the play count for a track-- this will run the associated command, if any
pub fn set_play_count<S: RequestResponse>(
    client: &mut Client<S>,
    sticker: &str,
    file: &str,
    play_count: usize,
    cmd: &str,
    args: &Vec<String>,
    music_dir: &str,
) -> (r: Result<Option<TaggedCommand>, Error>)
    ensures
        (text::outcome(r), final(client).session()) == set_play_count_spec(
            old(client).session(),
            sticker@,
            file@,
            play_count,
            cmd@,
            text::texts(args@),
            music_dir@,
        ),
{
    let value = number::write_usize(play_count);
    match client.set_sticker(file, sticker, value.as_str()) {
        Ok(_) => {},
        Err(source) => {
            return Err(Error::Client { source });
        },
    }
    match ratings::run_for_track(cmd, args, music_dir, file, "playcount", play_count as u64) {
        Ok(command) => Ok(command),
        Err(source) => Err(Error::Command { source }),
    }
}

/// The time at which a track was last played, if it has been.
pub open spec fn get_last_played_spec(s: Session, sticker: Seq<char>, file: Seq<char>) -> (
    Result<Option<u64>, ErrorView>,
    Session,
) {
    let (time, s1) = clients::get_sticker_spec::<u64>(s, file, sticker);
    match time {
        Err(source) => (Err(ErrorView::Client { source }), s1),
        Ok(time) => (Ok(time), s1),
    }
}

/// Retrieve the last played timestamp for a track (seconds since Unix epoch)
pub fn get_last_played<S: RequestResponse>(client: &mut Client<S>, sticker: &str, file: &str) -> (r:
    Result<Option<u64>, Error>)
    ensures
        (text::outcome(r), final(client).session()) == get_last_played_spec(
            old(client).session(),
            sticker@,
            file@,
        ),
{
    match client.get_sticker::<u64>(file, sticker) {
        Ok(time) => Ok(time),
        Err(source) => Err(Error::Client { source }),
    }
}

/// Setting the time at which a track was last played.
pub open spec fn set_last_played_spec(
    s: Session,
    sticker: Seq<char>,
    file: Seq<char>,
    last_played: u64,
) -> (Result<(), ErrorView>, Session) {
    let (set, s1) = clients::set_sticker_spec(
        s,
        file,
        sticker,
        number::decimal(last_played as nat),
    );
    match set {
        Err(source) => (Err(ErrorView::Client { source }), s1),
        Ok(_) => (Ok(()), s1),
    }
}

/// Set the last played for a track
pub fn set_last_played<S: RequestResponse>(
    client: &mut Client<S>,
    sticker: &str,
    file: &str,
    last_played: u64,
) -> (r: Result<(), Error>)
    ensures
        (text::outcome(r), final(client).session()) == set_last_played_spec(
            old(client).session(),
            sticker@,
            file@,
            last_played,
        ),
{
    let value = number::write_u64(last_played);
    match client.set_sticker(file, sticker, value.as_str()) {
        Ok(_) => Ok(()),
        Err(source) => Err(Error::Client { source }),
    }
}

// ---------------------------------------------------------------------------------------------
// PlayState
// ---------------------------------------------------------------------------------------------

/// How far playback has got, as far as play counts go; decided by the times in two successive
/// statuses & the threshold for considering a song to have been played
#[derive(Clone, Copy, Debug, PartialEq, Eq, Structural)]
pub struct Progress {
    /// Less time has elapsed in the current track than had elapsed in the last
    pub rewound: bool,
    /// No more than a tenth of the current track has elapsed
    pub near_start: bool,
    /// At least the threshold's share of the current track has elapsed
    pub past_threshold: bool,
}

/// Current server state in terms of the play status (stopped/paused/playing, current track, elapsed
/// time in current track, &c)
#[derive(Debug)]
pub struct PlayState {
    /// Last known server status
    last_server_stat: PlayerStatus,
    /// Sticker under which to store play counts
    playcount_sticker: String,
    /// Sticker under which to store the last played timestamp
    lastplayed_sticker: String,
    /// true iff we have already incremented the last known track's playcount
    incr_play_count: bool,
}

/// A [`PlayState`], as a mathematical value.
pub struct PlayView {
    pub last: StatusView,
    pub playcount_sticker: Seq<char>,
    pub lastplayed_sticker: Seq<char>,
    pub counted: bool,
}

impl DeepView for PlayState {
    type V = PlayView;

    closed spec fn deep_view(&self) -> PlayView {
        PlayView {
            last: self.last_server_stat.deep_view(),
            playcount_sticker: self.playcount_sticker@,
            lastplayed_sticker: self.lastplayed_sticker@,
            counted: self.incr_play_count,
        }
    }
}

/// Whether the current track still counts as played, given the status before & after. It does not if
/// there is another track, if the player was started or stopped, or if the track is being played
/// again: if it was rewound, to near its start.
pub open spec fn still_counted(
    counted: bool,
    last: StatusView,
    new: StatusView,
    progress: Progress,
) -> bool {
    match (clients::song_of(last), clients::song_of(new)) {
        (Some(last), Some(curr)) => counted && last.songid == curr.songid && !(progress.rewound
            && progress.near_start),
        (None, None) => counted,
        _ => false,
    }
}

/// Whether a play is to be counted now: a track is playing, has not been counted, & is past the
/// threshold.
pub open spec fn is_due(counted: bool, new: StatusView, progress: Progress) -> bool {
    new is Play && !counted && progress.past_threshold
}

/// Counting a play of a track at a time: look up the play count, set the time of last play, & set the
/// play count to one more. The second component says whether the play has been counted: it has once the
/// play count has been set.
pub open spec fn count_play_spec(
    s: Session,
    state: PlayView,
    file: Seq<char>,
    now: Result<u64, Seq<char>>,
    cmd: Seq<char>,
    args: Seq<Seq<char>>,
    music_dir: Seq<char>,
) -> (Result<Option<TaggedView>, ErrorView>, bool, Session) {
    let (count, s1) = get_play_count_spec(s, state.playcount_sticker, file);
    match (count, now) {
        (Err(e), _) => (Err(e), false, s1),
        (Ok(_), Err(source)) => (Err(ErrorView::SystemTime { source }), false, s1),
        (Ok(count), Ok(now)) => {
            let (set, s2) = set_last_played_spec(s1, state.lastplayed_sticker, file, now);
            match set {
                Err(e) => (Err(e), false, s2),
                Ok(_) => {
                    let (command, s3) = set_play_count_spec(
                        s2,
                        state.playcount_sticker,
                        file,
                        next_count(count),
                        cmd,
                        args,
                        music_dir,
                    );
                    let (set, _) = clients::set_sticker_spec(
                        s2,
                        file,
                        state.playcount_sticker,
                        number::decimal(next_count(count) as nat),
                    );
                    (command, set is Ok, s3)
                },
            }
        },
    }
}

/// The play count after one more play; a count that is as great as can be starts over.
pub open spec fn next_count(count: Option<usize>) -> usize {
    match count {
        None => 1,
        Some(n) => if n == usize::MAX {
            0
        } else {
            (n + 1) as usize
        },
    }
}

/// What comes of a new status: perhaps a play is counted. The status becomes the last one known unless
/// that fails.
pub open spec fn observe_spec(
    s: Session,
    state: PlayView,
    new: StatusView,
    progress: Progress,
    now: Result<u64, Seq<char>>,
    cmd: Seq<char>,
    args: Seq<Seq<char>>,
    music_dir: Seq<char>,
) -> (Result<Option<TaggedView>, ErrorView>, PlayView, Session) {
    let counted = still_counted(state.counted, state.last, new, progress);
    if is_due(counted, new, progress) {
        let (command, done, s1) = count_play_spec(
            s,
            state,
            new->Play_0.file,
            now,
            cmd,
            args,
            music_dir,
        );
        let last = if command is Ok {
            new
        } else {
            state.last
        };
        (command, PlayView { last, counted: done, ..state }, s1)
    } else {
        (Ok(None), PlayView { last: new, counted, ..state }, s)
    }
}

/// [`std::time::SystemTime::elapsed`] of the Unix epoch: the number of seconds since then, or an account
/// of why there is none. It depends on the clock; nothing is claimed of it.
#[verifier::external_body]
fn now() -> (r: Result<u64, String>) {
    match std::time::SystemTime::UNIX_EPOCH.elapsed() {
        Ok(elapsed) => Ok(elapsed.as_secs()),
        Err(err) => Err(err.to_string()),
    }
}

/// What comes of polling the server: ask for the status & take note of it, given how far playback has got &
/// the time.
pub open spec fn poll_spec(
    s: Session,
    state: PlayView,
    progress: Progress,
    now: Result<u64, Seq<char>>,
    cmd: Seq<char>,
    args: Seq<Seq<char>>,
    music_dir: Seq<char>,
) -> (Result<Option<TaggedView>, ErrorView>, PlayView, Session) {
    let (status, s1) = clients::status_spec(s);
    match status {
        Err(source) => (Err(ErrorView::Client { source }), state, s1),
        Ok(new) => observe_spec(s1, state, new, progress, now, cmd, args, music_dir),
    }
}

/// What may come of polling the server: ask for the status, have `judge` decide how far playback has got,
/// & take note of the status, at whatever time it is.
pub open spec fn is_update<F: Fn(&PlayerStatus, &PlayerStatus) -> Progress>(
    judge: F,
    last: PlayerStatus,
    state: PlayView,
    s: Session,
    cmd: Seq<char>,
    args: Seq<Seq<char>>,
    music_dir: Seq<char>,
    r: (Result<Option<TaggedView>, ErrorView>, PlayView, Session),
) -> bool {
    match clients::status_spec(s).0 {
        Err(source) => r == (
            Err::<Option<TaggedView>, ErrorView>(ErrorView::Client { source }),
            state,
            clients::status_spec(s).1,
        ),
        Ok(status) => exists|new: PlayerStatus, progress: Progress, now: Result<u64, String>|
            #![trigger judge.ensures((&last, &new), progress), text::outcome(now)]
            {
                &&& new.deep_view() == status
                &&& judge.ensures((&last, &new), progress)
                &&& r == poll_spec(s, state, progress, text::outcome(now), cmd, args, music_dir)
            },
    }
}

impl PlayState {
    /// The last known player status.
    pub closed spec fn last(&self) -> PlayerStatus {
        self.last_server_stat
    }

    /// The last known player status is what is known of it.
    pub proof fn law_last(&self)
        ensures
            self.last().deep_view() == self.deep_view().last,
    {
    }

    /// Create a new PlayState instance; will reach out to the mpd server to get current status.
    pub fn new<S: RequestResponse>(
        client: &mut Client<S>,
        playcount_sticker: &str,
        lastplayed_sticker: &str,
    ) -> (r: Result<PlayState, clients::Error>)
        ensures
            ({
                let (status, s) = clients::status_spec(old(client).session());
                &&& final(client).session() == s
                &&& text::outcome(r) == (match status {
                    Err(e) => Err(e),
                    Ok(last) => Ok(
                        PlayView {
                            last,
                            playcount_sticker: playcount_sticker@,
                            lastplayed_sticker: lastplayed_sticker@,
                            counted: false,
                        },
                    ),
                })
            }),
    {
        let last_server_stat = client.status()?;
        Ok(
            PlayState {
                last_server_stat,
                playcount_sticker: text::owned(playcount_sticker),
                lastplayed_sticker: text::owned(lastplayed_sticker),
                incr_play_count: false,
            },
        )
    }

    /// Retrieve a copy of the last known player status
    pub fn last_status(&self) -> (r: PlayerStatus)
        ensures
            r.deep_view() == self.deep_view().last,
    {
        self.last_server_stat.clone()
    }

    /// Count a play of `curr` at a time.
    fn count_play<S: RequestResponse>(
        &mut self,
        client: &mut Client<S>,
        curr: &CurrentSong,
        now: Result<u64, String>,
        playcount_cmd: &str,
        playcount_cmd_args: &Vec<String>,
        music_dir: &str,
    ) -> (r: Result<Option<TaggedCommand>, Error>)
        requires
            !old(self).deep_view().counted,
        ensures
            ({
                let (command, done, s) = count_play_spec(
                    old(client).session(),
                    old(self).deep_view(),
                    curr.file@,
                    text::outcome(now),
                    playcount_cmd@,
                    text::texts(playcount_cmd_args@),
                    music_dir@,
                );
                &&& text::outcome(r) == command
                &&& final(client).session() == s
                &&& final(self).deep_view() == (PlayView { counted: done, ..old(self).deep_view() })
            }),
    {
        let file = curr.file.as_str();
        let curr_pc: usize = match get_play_count(client, self.playcount_sticker.as_str(), file)? {
            Some(pc) => pc,
            None => 0,
        };
        let now: u64 = match now {
            Ok(now) => now,
            Err(source) => {
                return Err(Error::SystemTime { source });
            },
        };
        set_last_played(client, self.lastplayed_sticker.as_str(), file, now)?;
        let command = set_play_count(
            client,
            self.playcount_sticker.as_str(),
            file,
            curr_pc.wrapping_add(1),
            playcount_cmd,
            playcount_cmd_args,
            music_dir,
        );
        // The play has been counted even if the command cannot be put together
        self.incr_play_count = match &command {
            Err(Error::Client { source: _ }) => false,
            _ => true,
        };
        command
    }

    /// Take note of a new status: maybe increment the current track's play count, with `now` as the time
    /// at which it was last played. Yields the command to be run, if there is one.
    pub fn observe<S: RequestResponse>(
        &mut self,
        client: &mut Client<S>,
        new_stat: PlayerStatus,
        progress: Progress,
        now: Result<u64, String>,
        playcount_cmd: &str,
        playcount_cmd_args: &Vec<String>,
        music_dir: &str,
    ) -> (r: Result<Option<TaggedCommand>, Error>)
        ensures
            (text::outcome(r), final(self).deep_view(), final(client).session()) == observe_spec(
                old(client).session(),
                old(self).deep_view(),
                new_stat.deep_view(),
                progress,
                text::outcome(now),
                playcount_cmd@,
                text::texts(playcount_cmd_args@),
                music_dir@,
            ),
    {
        match (self.last_server_stat.current_song(), new_stat.current_song()) {
            (Some(last), Some(curr)) => {
                // Last we knew, there was a current song, and there is one now.
                if last.songid != curr.songid {
                    self.incr_play_count = false;
                } else if progress.rewound && self.incr_play_count && progress.near_start {
                    self.incr_play_count = false;
                }
            },
            (None, None) => {},
            _ => {
                self.incr_play_count = false;
            },
        }
        let command = match &new_stat {
            PlayerStatus::Play(curr) => {
                if !self.incr_play_count && progress.past_threshold {
                    self.count_play(
                        client,
                        curr,
                        now,
                        playcount_cmd,
                        playcount_cmd_args,
                        music_dir,
                    )?
                } else {
                    None
                }
            },
            _ => None,
        };
        self.last_server_stat = new_stat;
        Ok(command)
    }

    /// Poll the server-- update our status; maybe increment the current track's play count; the
    /// caller must arrange to have this method invoked periodically to keep our state fresh
    ///
    /// `judge` decides how far playback has got, given the last known status & the current one.
    pub fn update<S: RequestResponse, F: Fn(&PlayerStatus, &PlayerStatus) -> Progress>(
        &mut self,
        client: &mut Client<S>,
        judge: F,
        playcount_cmd: &str,
        playcount_cmd_args: &Vec<String>,
        music_dir: &str,
    ) -> (r: Result<Option<TaggedCommand>, Error>)
        requires
            forall|last: &PlayerStatus, new: &PlayerStatus| #[trigger]
                judge.requires((last, new)),
        ensures
            is_update(
                judge,
                old(self).last(),
                old(self).deep_view(),
                old(client).session(),
                playcount_cmd@,
                text::texts(playcount_cmd_args@),
                music_dir@,
                (text::outcome(r), final(self).deep_view(), final(client).session()),
            ),
    {
        let new_stat = match client.status() {
            Ok(new_stat) => new_stat,
            Err(source) => {
                return Err(Error::Client { source });
            },
        };
        let progress = judge(&self.last_server_stat, &new_stat);
        let now = now();
        let ghost then = text::outcome(now);
        self.observe(
            client,
            new_stat,
            progress,
            now,
            playcount_cmd,
            playcount_cmd_args,
            music_dir,
        )
    }
}

// ---------------------------------------------------------------------------------------------
// Laws
// ---------------------------------------------------------------------------------------------

/// What an update of the play state goes by, besides the server: how far playback has got, & the time.
pub struct Poll {
    pub progress: Progress,
    pub now: Result<u64, Seq<char>>,
}

/// What is the same for all updates: the command that is run when a play is counted, its arguments, & the
/// music directory.
pub struct Setup {
    pub cmd: Seq<char>,
    pub args: Seq<Seq<char>>,
    pub music_dir: Seq<char>,
}

/// What comes of one update.
pub open spec fn polled(s: Session, state: PlayView, poll: Poll, setup: Setup) -> (
    Result<Option<TaggedView>, ErrorView>,
    PlayView,
    Session,
) {
    poll_spec(s, state, poll.progress, poll.now, setup.cmd, setup.args, setup.music_dir)
}

/// An update comes to what it comes to given how far playback is judged to have got, & a time.
pub proof fn law_update_polls<F: Fn(&PlayerStatus, &PlayerStatus) -> Progress>(
    judge: F,
    last: PlayerStatus,
    state: PlayView,
    s: Session,
    setup: Setup,
    r: (Result<Option<TaggedView>, ErrorView>, PlayView, Session),
)
    requires
        is_update(judge, last, state, s, setup.cmd, setup.args, setup.music_dir, r),
    ensures
        exists|poll: Poll| r == #[trigger] polled(s, state, poll, setup),
{
    match clients::status_spec(s).0 {
        Err(source) => {
            let poll = Poll {
                progress: Progress { rewound: false, near_start: false, past_threshold: false },
                now: Ok(0),
            };
            assert(r == polled(s, state, poll, setup));
        },
        Ok(status) => {
            let (new, progress, now) = choose|
                new: PlayerStatus,
                progress: Progress,
                now: Result<u64, String>,
            |
                #![trigger judge.ensures((&last, &new), progress), text::outcome(now)]
                {
                    &&& new.deep_view() == status
                    &&& judge.ensures((&last, &new), progress)
                    &&& r == poll_spec(
                        s,
                        state,
                        progress,
                        text::outcome(now),
                        setup.cmd,
                        setup.args,
                        setup.music_dir,
                    )
                };
            let poll = Poll { progress, now: text::outcome(now) };
            assert(r == polled(s, state, poll, setup));
        },
    }
}

/// The state, & the session, after the first `n` updates.
pub open spec fn state_after(s: Session, state: PlayView, polls: Seq<Poll>, n: int, setup: Setup) -> (
    PlayView,
    Session,
)
    decreases n,
{
    if n <= 0 {
        (state, s)
    } else {
        let (before, s1) = state_after(s, state, polls, n - 1, setup);
        let (_, after, s2) = polled(s1, before, polls[n - 1], setup);
        (after, s2)
    }
}

/// What comes of update `i`.
pub open spec fn outcome_of(s: Session, state: PlayView, polls: Seq<Poll>, i: int, setup: Setup)
    -> Result<Option<TaggedView>, ErrorView> {
    let (before, s1) = state_after(s, state, polls, i, setup);
    polled(s1, before, polls[i], setup).0
}

/// The status that update `i` gets.
pub open spec fn status_of(s: Session, state: PlayView, polls: Seq<Poll>, i: int, setup: Setup)
    -> Result<StatusView, clients::ErrorView> {
    clients::status_spec(state_after(s, state, polls, i, setup).1).0
}

/// The session once update `i` has got the status.
pub open spec fn asked_by(s: Session, state: PlayView, polls: Seq<Poll>, i: int, setup: Setup)
    -> Session {
    clients::status_spec(state_after(s, state, polls, i, setup).1).1
}

/// Whether update `i` asks nothing of the server but the status.
pub open spec fn only_asks(s: Session, state: PlayView, polls: Seq<Poll>, i: int, setup: Setup)
    -> bool {
    state_after(s, state, polls, i + 1, setup).1 == asked_by(s, state, polls, i, setup)
}

/// Whether what came between two sessions is that a play of a track was counted: its play count was looked up,
/// its last played time set, & then its play count, to one more.
pub open spec fn counts_play(
    before: Session,
    after: Session,
    state: PlayView,
    file: Seq<char>,
    now: Result<u64, Seq<char>>,
) -> bool {
    let count = get_play_count_spec(before, state.playcount_sticker, file).0;
    &&& count is Ok
    &&& now is Ok
    &&& after.server == before.server
    &&& after.sent == before.sent + seq![
        clients::get_sticker_request(file, state.playcount_sticker),
        clients::set_sticker_request(
            file,
            state.lastplayed_sticker,
            number::decimal(now->Ok_0 as nat),
        ),
        clients::set_sticker_request(
            file,
            state.playcount_sticker,
            number::decimal(next_count(count->Ok_0) as nat),
        ),
    ]
}

/// Whether update `i` sets the current track's play count to one more.
pub open spec fn increments(s: Session, state: PlayView, polls: Seq<Poll>, i: int, setup: Setup)
    -> bool {
    status_of(s, state, polls, i, setup) matches Ok(StatusView::Play(song)) && counts_play(
        asked_by(s, state, polls, i, setup),
        state_after(s, state, polls, i + 1, setup).1,
        state,
        song.file,
        polls[i].now,
    )
}

/// Whether the track was rewound to near its start.
pub open spec fn is_replay(poll: Poll) -> bool {
    poll.progress.rewound && poll.progress.near_start
}

/// Whether a status is of a song of the play queue.
pub open spec fn is_song(status: StatusView, songid: u64) -> bool {
    clients::song_of(status) matches Some(song) && song.songid == songid
}

/// The stickers stay the same.
proof fn lemma_stickers_stay(s: Session, state: PlayView, polls: Seq<Poll>, n: int, setup: Setup)
    ensures
        ({
            let after = state_after(s, state, polls, n, setup).0;
            &&& after.playcount_sticker == state.playcount_sticker
            &&& after.lastplayed_sticker == state.lastplayed_sticker
        }),
    decreases n,
{
    if n > 0 {
        lemma_stickers_stay(s, state, polls, n - 1, setup);
    }
}

/// What a new status that goes well comes to: a play is counted if it is due, & otherwise nothing is asked of
/// the server.
proof fn lemma_observed(
    s: Session,
    state: PlayView,
    new: StatusView,
    progress: Progress,
    now: Result<u64, Seq<char>>,
    setup: Setup,
)
    requires
        observe_spec(s, state, new, progress, now, setup.cmd, setup.args, setup.music_dir).0 is Ok,
    ensures
        ({
            let counted = still_counted(state.counted, state.last, new, progress);
            let (_, after, s1) = observe_spec(
                s,
                state,
                new,
                progress,
                now,
                setup.cmd,
                setup.args,
                setup.music_dir,
            );
            &&& after.last == new
            &&& if is_due(counted, new, progress) {
                after.counted && counts_play(s, s1, state, new->Play_0.file, now)
            } else {
                after.counted == counted && s1 == s
            }
        }),
{
    let counted = still_counted(state.counted, state.last, new, progress);
    if is_due(counted, new, progress) {
        let s1 = observe_spec(
            s,
            state,
            new,
            progress,
            now,
            setup.cmd,
            setup.args,
            setup.music_dir,
        ).2;
        let file = new->Play_0.file;
        let count = get_play_count_spec(s, state.playcount_sticker, file).0;
        assert(s1.sent =~= s.sent + seq![
            clients::get_sticker_request(file, state.playcount_sticker),
            clients::set_sticker_request(
                file,
                state.lastplayed_sticker,
                number::decimal(now->Ok_0 as nat),
            ),
            clients::set_sticker_request(
                file,
                state.playcount_sticker,
                number::decimal(next_count(count->Ok_0) as nat),
            ),
        ]);
    }
}

/// What an update that goes well comes to.
proof fn lemma_polled(s: Session, state: PlayView, polls: Seq<Poll>, i: int, setup: Setup)
    requires
        0 <= i < polls.len(),
        outcome_of(s, state, polls, i, setup) is Ok,
    ensures
        ({
            let before = state_after(s, state, polls, i, setup).0;
            let after = state_after(s, state, polls, i + 1, setup).0;
            let new = status_of(s, state, polls, i, setup)->Ok_0;
            let counted = still_counted(before.counted, before.last, new, polls[i].progress);
            &&& status_of(s, state, polls, i, setup) is Ok
            &&& after.last == new
            &&& if is_due(counted, new, polls[i].progress) {
                &&& after.counted
                &&& increments(s, state, polls, i, setup)
                &&& !only_asks(s, state, polls, i, setup)
            } else {
                &&& after.counted == counted
                &&& only_asks(s, state, polls, i, setup)
                &&& !increments(s, state, polls, i, setup)
            }
        }),
{
    let (before, s1) = state_after(s, state, polls, i, setup);
    let s2 = asked_by(s, state, polls, i, setup);
    let new = status_of(s, state, polls, i, setup)->Ok_0;
    lemma_stickers_stay(s, state, polls, i, setup);
    lemma_observed(s2, before, new, polls[i].progress, polls[i].now, setup);
    let s3 = state_after(s, state, polls, i + 1, setup).1;
    assert((s3.sent.len() == s2.sent.len() + 3) ==> s3 != s2);
    if is_due(
        still_counted(before.counted, before.last, new, polls[i].progress),
        new,
        polls[i].progress,
    ) {
        assert(s3.sent.len() == s2.sent.len() + 3);
    }
}

/// Whether update `i` is the first that is past the threshold.
pub open spec fn is_first_past(polls: Seq<Poll>, i: int) -> bool {
    polls[i].progress.past_threshold && forall|j: int|
        0 <= j < i ==> !(#[trigger] polls[j]).progress.past_threshold
}

proof fn lemma_exactly_once(
    s: Session,
    state: PlayView,
    polls: Seq<Poll>,
    songid: u64,
    setup: Setup,
    n: int,
)
    requires
        0 <= n <= polls.len(),
        !state.counted || !is_song(state.last, songid),
        forall|i: int|
            0 <= i < polls.len() ==> {
                &&& #[trigger] outcome_of(s, state, polls, i, setup) is Ok
                &&& status_of(s, state, polls, i, setup) matches Ok(StatusView::Play(song))
                    && song.songid == songid
            },
        forall|i: int| 0 < i < polls.len() ==> !is_replay(#[trigger] polls[i]),
    ensures
        ({
            let after = state_after(s, state, polls, n, setup).0;
            &&& n > 0 ==> is_song(after.last, songid)
            &&& n > 0 ==> (after.counted <==> exists|j: int|
                0 <= j < n && (#[trigger] polls[j]).progress.past_threshold)
        }),
    decreases n,
{
    if n > 0 {
        lemma_exactly_once(s, state, polls, songid, setup, n - 1);
        assert(outcome_of(s, state, polls, n - 1, setup) is Ok);
        lemma_polled(s, state, polls, n - 1, setup);
        let past = polls[n - 1].progress.past_threshold;
        if n > 1 {
            assert(!is_replay(polls[n - 1]));
        }
    }
}

/// A play is counted exactly once. From a state in which nothing has been counted, say a new one, polling a
/// song that keeps playing & is not rewound to near its start sets its play count to one more at the first
/// update past the threshold, & at no other; no other update asks anything but the status.
pub proof fn law_counted_exactly_once(
    s: Session,
    state: PlayView,
    polls: Seq<Poll>,
    songid: u64,
    setup: Setup,
    i: int,
)
    requires
        !state.counted,
        forall|i: int|
            0 <= i < polls.len() ==> {
                &&& #[trigger] outcome_of(s, state, polls, i, setup) is Ok
                &&& status_of(s, state, polls, i, setup) matches Ok(StatusView::Play(song))
                    && song.songid == songid
            },
        forall|i: int| 0 < i < polls.len() ==> !is_replay(#[trigger] polls[i]),
        0 <= i < polls.len(),
    ensures
        increments(s, state, polls, i, setup) <==> is_first_past(polls, i),
        only_asks(s, state, polls, i, setup) <==> !is_first_past(polls, i),
{
    lemma_exactly_once(s, state, polls, songid, setup, i);
    assert(outcome_of(s, state, polls, i, setup) is Ok);
    lemma_polled(s, state, polls, i, setup);
    if i > 0 {
        assert(!is_replay(polls[i]));
    }
}

/// A change of song starts a new play. From any state, counted or not, in which another song was last
/// known, or none, polling a song that keeps playing & is not rewound to near its start sets its play count
/// to one more at the first update past the threshold, & at no other; no other update asks anything but the
/// status.
pub proof fn law_next_song(
    s: Session,
    state: PlayView,
    polls: Seq<Poll>,
    songid: u64,
    setup: Setup,
    i: int,
)
    requires
        clients::song_of(state.last) matches Some(song) ==> song.songid != songid,
        forall|i: int|
            0 <= i < polls.len() ==> {
                &&& #[trigger] outcome_of(s, state, polls, i, setup) is Ok
                &&& status_of(s, state, polls, i, setup) matches Ok(StatusView::Play(song))
                    && song.songid == songid
            },
        forall|i: int| 0 < i < polls.len() ==> !is_replay(#[trigger] polls[i]),
        0 <= i < polls.len(),
    ensures
        increments(s, state, polls, i, setup) <==> is_first_past(polls, i),
        only_asks(s, state, polls, i, setup) <==> !is_first_past(polls, i),
{
    lemma_exactly_once(s, state, polls, songid, setup, i);
    assert(outcome_of(s, state, polls, i, setup) is Ok);
    lemma_polled(s, state, polls, i, setup);
    if i > 0 {
        assert(!is_replay(polls[i]));
    }
}

/// Whether all updates are of one play of a song of the play queue: those that get a status find the song,
/// & not rewound to near its start.
pub open spec fn one_play(
    s: Session,
    state: PlayView,
    polls: Seq<Poll>,
    songid: u64,
    setup: Setup,
) -> bool {
    forall|i: int|
        0 <= i < polls.len() ==> (#[trigger] status_of(s, state, polls, i, setup) matches Ok(new)
            ==> is_song(new, songid) && !is_replay(polls[i]))
}

/// Whether update `i` counts a play: none had been counted before it, & one has been after it.
pub open spec fn has_counted(s: Session, state: PlayView, polls: Seq<Poll>, i: int, setup: Setup)
    -> bool {
    !state_after(s, state, polls, i, setup).0.counted && state_after(
        s,
        state,
        polls,
        i + 1,
        setup,
    ).0.counted
}

proof fn lemma_stays_counted(
    s: Session,
    state: PlayView,
    polls: Seq<Poll>,
    songid: u64,
    setup: Setup,
    i: int,
    n: int,
)
    requires
        0 <= i <= n <= polls.len(),
        is_song(state.last, songid),
        one_play(s, state, polls, songid, setup),
    ensures
        is_song(state_after(s, state, polls, n, setup).0.last, songid),
        state_after(s, state, polls, i, setup).0.counted ==> state_after(
            s,
            state,
            polls,
            n,
            setup,
        ).0.counted,
    decreases n,
{
    if n > 0 {
        if i < n {
            lemma_stays_counted(s, state, polls, songid, setup, i, n - 1);
        } else {
            lemma_stays_counted(s, state, polls, songid, setup, i - 1, n - 1);
        }
        let got = status_of(s, state, polls, n - 1, setup);
    }
}

/// However often the server is polled during one play of a song, & whether or not that goes well, the play is
/// counted once, at most; & not at all if that had been done before.
pub proof fn law_counted_once(
    s: Session,
    state: PlayView,
    polls: Seq<Poll>,
    songid: u64,
    setup: Setup,
    i: int,
    j: int,
)
    requires
        is_song(state.last, songid),
        one_play(s, state, polls, songid, setup),
        0 <= i < polls.len(),
        0 <= j < polls.len(),
        has_counted(s, state, polls, i, setup),
        has_counted(s, state, polls, j, setup),
    ensures
        i == j,
        !state.counted,
{
    lemma_stays_counted(s, state, polls, songid, setup, 0, i);
    if i < j {
        lemma_stays_counted(s, state, polls, songid, setup, i + 1, j);
    } else if j < i {
        lemma_stays_counted(s, state, polls, songid, setup, j + 1, i);
    }
}

proof fn lemma_counted_again(
    s: Session,
    state: PlayView,
    polls: Seq<Poll>,
    songid: u64,
    setup: Setup,
    n: int,
)
    requires
        0 <= n < polls.len(),
        state.counted,
        is_song(state.last, songid),
        forall|i: int|
            0 <= i < polls.len() ==> {
                &&& #[trigger] outcome_of(s, state, polls, i, setup) is Ok
                &&& status_of(s, state, polls, i, setup) matches Ok(new) && is_song(new, songid)
            },
        forall|i: int|
            0 <= i < polls.len() - 1 ==> !#[trigger] increments(s, state, polls, i, setup),
    ensures
        ({
            let after = state_after(s, state, polls, n, setup).0;
            &&& is_song(after.last, songid)
            &&& after.counted <==> forall|j: int| 0 <= j < n ==> !is_replay(#[trigger] polls[j])
        }),
    decreases n,
{
    if n > 0 {
        lemma_counted_again(s, state, polls, songid, setup, n - 1);
        assert(outcome_of(s, state, polls, n - 1, setup) is Ok);
        lemma_polled(s, state, polls, n - 1, setup);
        assert(!increments(s, state, polls, n - 1, setup));
        let last = is_replay(polls[n - 1]);
    }
}

/// A song that has been counted is counted again just when it is played again. Where updates go on to get
/// the song, playing or paused, & the last of them finds it playing past the threshold, that one sets its
/// play count to one more if & only if some update found it rewound to near its start; seeking back to a
/// later point than that does not make a play of its own.
pub proof fn law_counted_again(
    s: Session,
    state: PlayView,
    polls: Seq<Poll>,
    songid: u64,
    setup: Setup,
)
    requires
        polls.len() > 0,
        state.counted,
        is_song(state.last, songid),
        forall|i: int|
            0 <= i < polls.len() ==> {
                &&& #[trigger] outcome_of(s, state, polls, i, setup) is Ok
                &&& status_of(s, state, polls, i, setup) matches Ok(new) && is_song(new, songid)
            },
        forall|i: int|
            0 <= i < polls.len() - 1 ==> !#[trigger] increments(s, state, polls, i, setup),
        status_of(s, state, polls, polls.len() - 1, setup) matches Ok(new) && new is Play,
        polls.last().progress.past_threshold,
    ensures
        increments(s, state, polls, polls.len() - 1, setup) <==> exists|j: int|
            0 <= j < polls.len() && is_replay(#[trigger] polls[j]),
{
    let n = polls.len() - 1;
    lemma_counted_again(s, state, polls, songid, setup, n);
    assert(outcome_of(s, state, polls, n, setup) is Ok);
    lemma_polled(s, state, polls, n, setup);
    let last = is_replay(polls[n]);
}

/// The play count of the current track is taken as incremented just when it has been: if the server refuses the
/// new play count, the play is counted by a later update instead.
pub proof fn law_refused_is_not_counted(
    s: Session,
    state: PlayView,
    new: StatusView,
    progress: Progress,
    now: u64,
    count: Option<usize>,
    setup: Setup,
)
    requires
        new is Play,
        is_due(still_counted(state.counted, state.last, new, progress), new, progress),
        ({
            let file = new->Play_0.file;
            let (got, s1) = get_play_count_spec(s, state.playcount_sticker, file);
            let (played, s2) = set_last_played_spec(s1, state.lastplayed_sticker, file, now);
            &&& got == Ok::<Option<usize>, ErrorView>(count)
            &&& played is Ok
        }),
    ensures
        ({
            let file = new->Play_0.file;
            let s1 = get_play_count_spec(s, state.playcount_sticker, file).1;
            let s2 = set_last_played_spec(s1, state.lastplayed_sticker, file, now).1;
            let (r, after, _) = observe_spec(
                s,
                state,
                new,
                progress,
                Ok(now),
                setup.cmd,
                setup.args,
                setup.music_dir,
            );
            let (set, _) = clients::set_sticker_spec(
                s2,
                file,
                state.playcount_sticker,
                number::decimal(next_count(count) as nat),
            );
            &&& after.counted <==> set is Ok
            &&& set is Err ==> r is Err && after.last == state.last
        }),
{
}

/// Nothing but the status is asked of the server unless a song is playing.
pub proof fn law_only_while_playing(
    s: Session,
    state: PlayView,
    polls: Seq<Poll>,
    i: int,
    setup: Setup,
)
    requires
        0 <= i < polls.len(),
        status_of(s, state, polls, i, setup) matches Ok(new) && !(new is Play),
    ensures
        outcome_of(s, state, polls, i, setup) == Ok::<Option<TaggedView>, ErrorView>(None),
        only_asks(s, state, polls, i, setup),
{
}

/// A play adds one to the play count; a track that has none has been played once then.
pub proof fn law_one_more(count: Option<usize>)
    ensures
        count is None ==> next_count(count) == 1,
        count matches Some(n) ==> n < usize::MAX ==> next_count(count) == n + 1,
{
}

/// Setting a play count makes one request, & the command is run if the server grants it; if it does not,
/// setting it fails.
pub proof fn law_play_count_set(
    s: Session,
    sticker: Seq<char>,
    file: Seq<char>,
    play_count: usize,
    cmd: Seq<char>,
    args: Seq<Seq<char>>,
    music_dir: Seq<char>,
)
    ensures
        ({
            let (r, after) = set_play_count_spec(
                s,
                sticker,
                file,
                play_count,
                cmd,
                args,
                music_dir,
            );
            let request = clients::set_sticker_request(
                file,
                sticker,
                number::decimal(play_count as nat),
            );
            &&& after == s.ask(request).1
            &&& r matches Ok(command) ==> ratings::granted(s, request) && ratings::is_run_for(
                command,
                cmd,
                args,
                paths::joined(music_dir, file),
                "playcount"@,
                play_count as nat,
            )
            &&& ratings::granted(s, request) && ratings::are_simple(args, "playcount"@)
                ==> r is Ok
        }),
{
    ratings::lemma_run_for(
        cmd,
        args,
        paths::joined(music_dir, file),
        "playcount"@,
        play_count as nat,
    );
}

/// Setting the last played time makes one request, & succeeds just when the server grants it.
pub proof fn law_last_played_set(
    s: Session,
    sticker: Seq<char>,
    file: Seq<char>,
    last_played: u64,
)
    ensures
        ({
            let (r, after) = set_last_played_spec(s, sticker, file, last_played);
            let request = clients::set_sticker_request(
                file,
                sticker,
                number::decimal(last_played as nat),
            );
            &&& after == s.ask(request).1
            &&& r is Ok <==> ratings::granted(s, request)
        }),
{
}

/// When a play is counted, the command is run for the track that is playing, with its new play count, which
/// is one more than it was, or one; when none is counted, nothing is run & nothing asked.
pub proof fn law_counted_runs(
    s: Session,
    state: PlayView,
    new: StatusView,
    progress: Progress,
    now: Result<u64, Seq<char>>,
    setup: Setup,
)
    ensures
        ({
            let (r, after, s1) = observe_spec(
                s,
                state,
                new,
                progress,
                now,
                setup.cmd,
                setup.args,
                setup.music_dir,
            );
            &&& !(new is Play && progress.past_threshold) ==> r == Ok::<
                Option<TaggedView>,
                ErrorView,
            >(None) && s1 == s
            &&& s1 == s ==> r == Ok::<Option<TaggedView>, ErrorView>(None)
            &&& s1 != s && r is Ok ==> {
                let file = new->Play_0.file;
                let count = get_play_count_spec(s, state.playcount_sticker, file).0;
                &&& new is Play
                &&& count is Ok
                &&& (count->Ok_0 matches Some(n) ==> n < usize::MAX) ==> ratings::is_run_for(
                    r->Ok_0,
                    setup.cmd,
                    setup.args,
                    paths::joined(setup.music_dir, file),
                    "playcount"@,
                    match count->Ok_0 {
                        Some(n) => n as nat + 1,
                        None => 1,
                    },
                )
            }
        }),
{
    if new is Play {
        let file = new->Play_0.file;
        let count = get_play_count_spec(s, state.playcount_sticker, file).0;
        if count is Ok {
            ratings::lemma_run_for(
                setup.cmd,
                setup.args,
                paths::joined(setup.music_dir, file),
                "playcount"@,
                next_count(count->Ok_0) as nat,
            );
        }
        let s1 = observe_spec(
            s,
            state,
            new,
            progress,
            now,
            setup.cmd,
            setup.args,
            setup.music_dir,
        ).2;
        assert(s1 == s || s1.sent.len() > s.sent.len());
    }
}

} // verus!
