//! # Configuration
//!
//! ## Introduction
//!
//! This module defines the configuration struct & the handling of its versions.
//!
//! ## Discussion
//!
//! The first releases had no version field in the configuration structure. That leaves us with the
//! problem of handling the initial, un-tagged version:
//!
//!    1. attempt to deserialize as the most recent version
//!    2. if that succeeds, we're good
//!    3. if that fails, attempt to deserialize as the initial struct version
//!    4. if that succeeds, convert to the most recent
//!    5. if that fails, we're kind of stuck because we don't know what the user was trying to express;
//!       bundle-up all the errors & report 'em
//!
//! The share of a song that must have been played for it to count is a number between zero & one; its
//! type is the parameter of the configuration.

use vstd::prelude::*;

use crate::commands;
use crate::commands::{FormalParameter, GeneralizedCommand, Update};
use crate::number;
use crate::paths;
use crate::text;
use crate::vars;

verus! {

/// The definition of a general command
#[derive(Debug)]
pub struct GeneralizedCommandDefn {
    /// Command name
    pub name: String,
    /// An ordered collection of formal parameter types
    pub formal_parameters: Vec<FormalParameter>,
    /// Actual parameters may be defaulted after this many places
    pub default_after: usize,
    /// The command to be run; if not absolute, the `PATH` will be searched in an system-
    /// dependent way
    pub cmd: String,
    /// Command arguments; may contain replacement parameters (like "%full-file")
    pub args: Vec<String>,
    /// The sort of MPD music database update that needs to take place when this command finishes
    pub update: Update,
}

/// This is the initial version of the `mppopmd` configuration struct.
#[derive(Debug)]
pub struct Config0<T> {
    /// Location of log file
    pub log: String,
    /// Host on which `mpd` is listening
    pub host: String,
    /// TCP port on which `mpd` is listening
    pub port: u16,
    /// The `mpd' root music directory, relative to the host on which *this* daemon is running
    pub local_music_dir: String,
    /// Sticker name under which to store playcounts
    pub playcount_sticker: String,
    /// Sticker name under which to store the last played timestamp
    pub lastplayed_sticker: String,
    /// Threshold, expressed as a number between zero & one, for considering a song to have been played
    pub played_thresh: T,
    /// The interval, in milliseconds, at which to poll `mpd' for the current state
    pub poll_interval_ms: u64,
    /// Channel to setup for assorted commands-- channel names must satisfy "[-a-zA-Z-9_.:]+"
    pub commands_chan: String,
    /// Command, with replacement parameters, to be run when a song's playcount is incremented
    pub playcount_command: String,
    /// Args, with replacement parameters, for the playcount command
    pub playcount_command_args: Vec<String>,
    /// Sticker under which to store song ratings, as a textual representation of a number in
    /// `[0,255]`
    pub rating_sticker: String,
    /// Command, with replacement parameters, to be run when a song is rated
    pub ratings_command: String,
    /// Args, with replacement parameters, for the ratings command
    pub ratings_command_args: Vec<String>,
    /// Generalized commands
    pub gen_cmds: Vec<GeneralizedCommandDefn>,
}

/// We can communicate with MPD over either a local Unix socket, or over regular TCP
#[derive(Debug, PartialEq)]
pub enum Connection {
    /// Local Unix socket-- payload is the path to the socket
    Local { path: String },
    /// TCP-- payload is the hostname & port number
    TCP { host: String, port: u16 },
}

/// A [`Connection`], as a mathematical value.
pub enum ConnectionView {
    Local { path: Seq<char> },
    TCP { host: Seq<char>, port: u16 },
}

impl DeepView for Connection {
    type V = ConnectionView;

    open spec fn deep_view(&self) -> ConnectionView {
        match self {
            Connection::Local { path } => ConnectionView::Local { path: path@ },
            Connection::TCP { host, port } => ConnectionView::TCP { host: host@, port: *port },
        }
    }
}

impl Default for Connection {
    fn default() -> (r: Connection)
        ensures
            r.deep_view() == (ConnectionView::TCP { host: "localhost"@, port: 6600 }),
    {
        Connection::TCP { host: text::owned("localhost"), port: 6600 }
    }
}

/// The address of a host & port.
pub open spec fn address_spec(host: Seq<char>, port: u16) -> Seq<char> {
    host + ":"@ + number::decimal(port as nat)
}

/// The address to connect to for a host & port.
pub fn address(host: &str, port: u16) -> (r: String)
    ensures
        r@ == address_spec(host@, port),
{
    text::join3(host, ":", number::write_u64(port as u64).as_str())
}

/// This is the most recent `mppopmd` configuration struct.
#[derive(Debug)]
pub struct Config<T> {
    /// Configuration format version-- must be "1"
    pub version: String,
    /// Location of log file
    pub log: String,
    /// How to connect to mpd
    pub conn: Connection,
    /// The `mpd' root music directory, relative to the host on which *this* daemon is running
    pub local_music_dir: String,
    /// Sticker name under which to store playcounts
    pub playcount_sticker: String,
    /// Sticker name under which to store the last played timestamp
    pub lastplayed_sticker: String,
    /// Threshold, expressed as a number between zero & one, for considering a song to have been played
    pub played_thresh: T,
    /// The interval, in milliseconds, at which to poll `mpd' for the current state
    pub poll_interval_ms: u64,
    /// Channel to setup for assorted commands-- channel names must satisfy "[-a-zA-Z-9_.:]+"
    pub commands_chan: String,
    /// Command, with replacement parameters, to be run when a song's playcount is incremented
    pub playcount_command: String,
    /// Args, with replacement parameters, for the playcount command
    pub playcount_command_args: Vec<String>,
    /// Sticker under which to store song ratings, as a textual representation of a number in
    /// `[0,255]`
    pub rating_sticker: String,
    /// Command, with replacement parameters, to be run when a song is rated
    pub ratings_command: String,
    /// Args, with replacement parameters, for the ratings command
    pub ratings_command_args: Vec<String>,
    /// Generalized commands
    pub gen_cmds: Vec<GeneralizedCommandDefn>,
}

/// Whether a configuration is the default one.
pub open spec fn is_default<T>(cfg: Config<T>, played_thresh: T) -> bool {
    &&& cfg.version@ == "1"@
    &&& cfg.log@ == paths::joined(paths::joined(vars::LOCALSTATEDIR@, "log"@), "mppopmd.log"@)
    &&& cfg.conn.deep_view() == (ConnectionView::TCP { host: "localhost"@, port: 6600 })
    &&& cfg.local_music_dir@ == paths::joined(vars::PREFIX@, "Music"@)
    &&& cfg.playcount_sticker@ == "unwoundstack.com:playcount"@
    &&& cfg.lastplayed_sticker@ == "unwoundstack.com:lastplayed"@
    &&& cfg.played_thresh == played_thresh
    &&& cfg.poll_interval_ms == 5000
    &&& cfg.commands_chan@ == "unwoundstack.com:commands"@
    &&& cfg.playcount_command@ == ""@
    &&& cfg.playcount_command_args@.len() == 0
    &&& cfg.rating_sticker@ == "unwoundstack.com:rating"@
    &&& cfg.ratings_command@ == ""@
    &&& cfg.ratings_command_args@.len() == 0
    &&& cfg.gen_cmds@.len() == 0
}

/// Whether a configuration is the one that an initial configuration stands for: the same, with its host &
/// port for a connection.
pub open spec fn is_upgrade<T>(cfg: Config<T>, cfg0: Config0<T>) -> bool {
    &&& cfg.version@ == "1"@
    &&& cfg.log == cfg0.log
    &&& cfg.conn == (Connection::TCP { host: cfg0.host, port: cfg0.port })
    &&& cfg.local_music_dir == cfg0.local_music_dir
    &&& cfg.playcount_sticker == cfg0.playcount_sticker
    &&& cfg.lastplayed_sticker == cfg0.lastplayed_sticker
    &&& cfg.played_thresh == cfg0.played_thresh
    &&& cfg.poll_interval_ms == cfg0.poll_interval_ms
    &&& cfg.commands_chan == cfg0.commands_chan
    &&& cfg.playcount_command == cfg0.playcount_command
    &&& cfg.playcount_command_args == cfg0.playcount_command_args
    &&& cfg.rating_sticker == cfg0.rating_sticker
    &&& cfg.ratings_command == cfg0.ratings_command
    &&& cfg.ratings_command_args == cfg0.ratings_command_args
    &&& cfg.gen_cmds == cfg0.gen_cmds
}

/// The view of a general command's definition, below a music directory.
pub open spec fn defn_view(defn: GeneralizedCommandDefn, music_dir: Seq<char>)
    -> commands::CommandView {
    commands::CommandView {
        formal_parameters: defn.formal_parameters@,
        default_after: defn.default_after,
        music_dir,
        cmd: defn.cmd@,
        args: text::texts(defn.args@),
        update: defn.update,
    }
}

impl<T> Config<T> {
    /// The default configuration, but for the threshold.
    pub fn default_with(played_thresh: T) -> (r: Config<T>)
        ensures
            is_default(r, played_thresh),
    {
        proof {
            reveal_strlit("");
            assert(""@ =~= Seq::<char>::empty());
        }
        Config {
            version: text::owned("1"),
            log: paths::join(paths::join(vars::LOCALSTATEDIR, "log").as_str(), "mppopmd.log"),
            conn: Connection::default(),
            local_music_dir: paths::join(vars::PREFIX, "Music"),
            playcount_sticker: text::owned("unwoundstack.com:playcount"),
            lastplayed_sticker: text::owned("unwoundstack.com:lastplayed"),
            played_thresh,
            poll_interval_ms: 5000,
            commands_chan: text::owned("unwoundstack.com:commands"),
            playcount_command: String::new(),
            playcount_command_args: Vec::new(),
            rating_sticker: text::owned("unwoundstack.com:rating"),
            ratings_command: String::new(),
            ratings_command_args: Vec::new(),
            gen_cmds: Vec::new(),
        }
    }

    /// The configuration that an initial configuration stands for.
    pub fn from(cfg0: Config0<T>) -> (r: Config<T>)
        ensures
            is_upgrade(r, cfg0),
    {
        Config {
            version: text::owned("1"),
            log: cfg0.log,
            conn: Connection::TCP { host: cfg0.host, port: cfg0.port },
            local_music_dir: cfg0.local_music_dir,
            playcount_sticker: cfg0.playcount_sticker,
            lastplayed_sticker: cfg0.lastplayed_sticker,
            played_thresh: cfg0.played_thresh,
            poll_interval_ms: cfg0.poll_interval_ms,
            commands_chan: cfg0.commands_chan,
            playcount_command: cfg0.playcount_command,
            playcount_command_args: cfg0.playcount_command_args,
            rating_sticker: cfg0.rating_sticker,
            ratings_command: cfg0.ratings_command,
            ratings_command_args: cfg0.ratings_command_args,
            gen_cmds: cfg0.gen_cmds,
        }
    }

    /// The general commands, by name.
    pub fn generalized_commands(&self) -> (r: Vec<(String, GeneralizedCommand)>)
        ensures
            r@.len() == self.gen_cmds@.len(),
            forall|i: int|
                0 <= i < r@.len() ==> {
                    &&& (#[trigger] r@[i]).0@ == self.gen_cmds@[i].name@
                    &&& r@[i].1.deep_view() == defn_view(
                        self.gen_cmds@[i],
                        self.local_music_dir@,
                    )
                },
    {
        let mut r: Vec<(String, GeneralizedCommand)> = Vec::new();
        let mut i: usize = 0;
        while i < self.gen_cmds.len()
            invariant
                i <= self.gen_cmds@.len(),
                r@.len() == i,
                forall|k: int|
                    0 <= k < i ==> {
                        &&& (#[trigger] r@[k]).0@ == self.gen_cmds@[k].name@
                        &&& r@[k].1.deep_view() == defn_view(
                            self.gen_cmds@[k],
                            self.local_music_dir@,
                        )
                    },
            decreases self.gen_cmds@.len() - i,
        {
            let defn = &self.gen_cmds[i];
            let params = vstd::slice::slice_to_vec(defn.formal_parameters.as_slice());
            let command = GeneralizedCommand::new(
                params,
                defn.default_after,
                self.local_music_dir.as_str(),
                defn.cmd.as_str(),
                text::copies(&defn.args),
                defn.update,
            );
            r.push((defn.name.clone(), command));
            i = i + 1;
        }
        r
    }
}

/// Whether to proceed with the default configuration when the configuration file could not be read. If the
/// user simply accepted the default file, & it's not there, that's fine. But if they explicitly named a
/// file, & it's not there, they presumably want to know about that.
pub fn may_default(not_found: bool, accepted: bool) -> (r: bool)
    ensures
        r <==> not_found && accepted,
{
    not_found && accepted
}

/// What can go wrong with a configuration
#[derive(Debug)]
pub enum Error {
    /// Failure to parse, as the most recent version & as the initial one
    ParseFail { outer: String, inner: String },
}

/// The words in which an error is reported.
pub open spec fn error_message(e: Error) -> Seq<char> {
    match e {
        Error::ParseFail { outer, inner: _ } => "Parse failure: "@ + outer@,
    }
}

impl Error {
    /// The words in which the error is reported.
    pub fn message(&self) -> (r: String)
        ensures
            r@ == error_message(*self),
    {
        match self {
            Error::ParseFail { outer, inner: _ } => text::join2("Parse failure: ", outer.as_str()),
        }
    }
}

/// The configuration that a text stands for, given what comes of reading it as the most recent version & as
/// the initial one.
pub fn settle<T>(latest: Result<Config<T>, String>, initial: Result<Config0<T>, String>) -> (r:
    Result<Config<T>, Error>)
    ensures
        match (latest, initial) {
            (Ok(cfg), _) => r is Ok && r->Ok_0 == cfg,
            (Err(_), Ok(cfg0)) => r is Ok && is_upgrade(r->Ok_0, cfg0),
            (Err(outer), Err(inner)) => r is Err && r->Err_0 == (Error::ParseFail { outer, inner }),
        },
{
    match latest {
        Ok(cfg) => Ok(cfg),
        Err(outer) => match initial {
            Ok(cfg0) => Ok(Config::from(cfg0)),
            Err(inner) => Err(Error::ParseFail { outer, inner }),
        },
    }
}

// ---------------------------------------------------------------------------------------------
// Laws
// ---------------------------------------------------------------------------------------------

/// A general command is what its definition says, below the music directory.
pub proof fn law_definition(defn: GeneralizedCommandDefn, music_dir: Seq<char>)
    ensures
        ({
            let c = defn_view(defn, music_dir);
            &&& c.cmd == defn.cmd@
            &&& c.music_dir == music_dir
            &&& c.formal_parameters == defn.formal_parameters@
            &&& c.default_after == defn.default_after
            &&& c.update == defn.update
            &&& c.args.len() == defn.args@.len()
            &&& forall|i: int| 0 <= i < c.args.len() ==> #[trigger] c.args[i] == defn.args@[i]@
        }),
{
}

/// An address is a host & a port, in base ten, with a colon between them.
pub proof fn law_address(host: Seq<char>, port: u16)
    ensures
        ({
            let a = address_spec(host, port);
            let n = host.len() as int;
            &&& a.len() > n + 1
            &&& a.take(n) == host
            &&& a[n] == ':'
            &&& number::parsed(a.skip(n + 1), 0, u16::MAX as int) == Ok::<int, number::ParseError>(
                port as int,
            )
        }),
{
    reveal_strlit(":");
    let a = address_spec(host, port);
    number::lemma_decimal(port as nat);
    number::law_parsed_decimal(port as nat, u16::MAX as int);
    assert(a.take(host.len() as int) =~= host);
    assert(a.skip(host.len() as int + 1) =~= number::decimal(port as nat));
}

} // verus!
