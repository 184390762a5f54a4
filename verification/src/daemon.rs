//! Core `mppopmd' logic.
//!
//! The daemon waits on several things at once: signals, a timer, the completion of commands it has
//! started, & the server's word that something has changed. Each of these is an [`Event`]; what is to be
//! done about one is a [`Reaction`].

use vstd::prelude::*;

use crate::clients;
use crate::clients::{
    Client, IdleClient, IdleSubSystem, PlayerStatus, RequestResponse, Session,
};
use crate::commands::{TaggedCommand, TaggedView};
use crate::config;
use crate::config::Config;
use crate::filters_ast;
use crate::filters_ast::FilterStickerNames;
use crate::messages;
use crate::messages::MessageProcessor;
use crate::playcounts;
use crate::playcounts::{PlayState, Progress};
use crate::text;

verus! {

/// What can stop the daemon
#[derive(Debug)]
#[allow(inconsistent_fields)]
#[non_exhaustive]
pub enum Error {
    /// The server could not be asked or told
    Client { source: clients::Error },
    /// A play could not be counted
    Playcounts { source: playcounts::Error },
}

/// An [`Error`], as a mathematical value.
#[allow(inconsistent_fields)]
pub enum ErrorView {
    Client { source: clients::ErrorView },
    Playcounts { source: playcounts::ErrorView },
}

impl DeepView for Error {
    type V = ErrorView;

    open spec fn deep_view(&self) -> ErrorView {
        match self {
            Error::Client { source } => ErrorView::Client { source: source.deep_view() },
            Error::Playcounts { source } => ErrorView::Playcounts { source: source.deep_view() },
        }
    }
}

/// The words in which an error is reported.
pub open spec fn error_message(e: ErrorView) -> Seq<char> {
    match e {
        ErrorView::Client { source } => "Client error: "@ + clients::error_message(source),
        ErrorView::Playcounts { source } => "Playcount error: "@ + playcounts::error_message(
            source,
        ),
    }
}

impl Error {
    /// The words in which the error is reported.
    pub fn message(&self) -> (r: String)
        ensures
            r@ == error_message(self.deep_view()),
    {
        match self {
            Error::Client { source } => text::join2("Client error: ", source.message().as_str()),
            Error::Playcounts { source } => text::join2(
                "Playcount error: ",
                source.message().as_str(),
            ),
        }
    }
}

/// Something that the daemon was waiting on
#[derive(Debug)]
pub enum Event {
    /// Ctrl-C
    Interrupt,
    /// SIGHUP
    Hangup,
    /// SIGTERM
    Terminate,
    /// The polling interval has passed
    Tick,
    /// A command has completed; the payload is the URI that needs to be updated, if any
    Completed(Option<String>),
    /// There are no commands to wait on
    NoCommands,
    /// The server has something to say about a change
    Changed(Result<IdleSubSystem, clients::Error>),
}

/// What is to be done about an event
#[derive(Debug)]
pub struct Reaction {
    /// The daemon is to exit
    pub done: bool,
    /// The timer is to be set again
    pub rearm: bool,
    /// The server is to be asked for changes again
    pub idle: bool,
    /// There are messages to be read, before that
    pub check: bool,
    /// A command to be started
    pub command: Option<TaggedCommand>,
}

/// A [`Reaction`], as a mathematical value.
pub struct ReactionView {
    pub done: bool,
    pub rearm: bool,
    pub idle: bool,
    pub check: bool,
    pub command: Option<TaggedView>,
}

impl DeepView for Reaction {
    type V = ReactionView;

    open spec fn deep_view(&self) -> ReactionView {
        ReactionView {
            done: self.done,
            rearm: self.rearm,
            idle: self.idle,
            check: self.check,
            command: self.command.deep_view(),
        }
    }
}

/// The work that an event makes for the daemon itself
pub enum Work {
    /// None
    Nothing,
    /// Poll the server
    Poll,
    /// Update the server's database
    Update(Seq<char>),
}

/// The work that an event makes for the daemon itself: the player is polled when the interval has passed
/// or the server says that it has changed, & the database is updated when a command that needs it has
/// completed.
pub open spec fn work_of(event: Event) -> Work {
    match event {
        Event::Tick => Work::Poll,
        Event::Completed(Some(uri)) => Work::Update(uri@),
        Event::Changed(Ok(IdleSubSystem::Player)) => Work::Poll,
        _ => Work::Nothing,
    }
}

/// What is to be done about an event, but for a command that its work may lead to. Signals & a failure to
/// wait on the server end the daemon; a change ends the waiting on the server, which is then done anew.
pub open spec fn reaction_to(event: Event) -> ReactionView {
    let wait = ReactionView { done: false, rearm: false, idle: false, check: false, command: None };
    match event {
        Event::Interrupt => ReactionView { done: true, idle: true, ..wait },
        Event::Hangup => ReactionView { done: true, idle: true, ..wait },
        Event::Terminate => ReactionView { done: true, idle: true, ..wait },
        Event::Tick => ReactionView { rearm: true, ..wait },
        Event::Completed(_) => wait,
        Event::NoCommands => wait,
        Event::Changed(Ok(IdleSubSystem::Player)) => ReactionView { idle: true, ..wait },
        Event::Changed(Ok(IdleSubSystem::Message)) => ReactionView {
            idle: true,
            check: true,
            ..wait
        },
        Event::Changed(Err(_)) => ReactionView { done: true, idle: true, ..wait },
    }
}

/// What may come of an event, given the play state & the session before & after.
pub open spec fn is_handling<F: Fn(&PlayerStatus, &PlayerStatus) -> Progress>(
    event: Event,
    judge: F,
    last: PlayerStatus,
    before: (playcounts::PlayView, Session),
    command: (Seq<char>, Seq<Seq<char>>, Seq<char>),
    r: Result<ReactionView, ErrorView>,
    after: (playcounts::PlayView, Session),
) -> bool {
    match work_of(event) {
        Work::Nothing => r == Ok::<ReactionView, ErrorView>(reaction_to(event)) && after == before,
        Work::Poll => exists|polled: Result<Option<TaggedView>, playcounts::ErrorView>|
            {
                &&& #[trigger] playcounts::is_update(
                    judge,
                    last,
                    before.0,
                    before.1,
                    command.0,
                    command.1,
                    command.2,
                    (polled, after.0, after.1),
                )
                &&& r == (match polled {
                    Ok(command) => Ok(ReactionView { command, ..reaction_to(event) }),
                    Err(source) => Err(ErrorView::Playcounts { source }),
                })
            },
        Work::Update(uri) => {
            let (job, s) = clients::asked(
                before.1,
                clients::update_request(uri),
                |reply: Seq<char>| clients::job_spec(reply),
            );
            &&& after == (before.0, s)
            &&& r == (match job {
                Ok(_) => Ok(reaction_to(event)),
                Err(source) => Err(ErrorView::Client { source }),
            })
        },
    }
}

/// The daemon's state: its connection, what it knows of the player, & what it needs to process messages
pub struct Daemon<'a, S: RequestResponse> {
    client: Client<S>,
    state: PlayState,
    mproc: MessageProcessor<'a>,
    stickers: FilterStickerNames<'a>,
    playcount_cmd: &'a str,
    playcount_cmd_args: &'a Vec<String>,
    music_dir: &'a str,
    commands_chan: &'a str,
}

/// The names of the stickers that a configuration gives.
pub open spec fn names_of<T>(cfg: Config<T>) -> filters_ast::NamesView {
    filters_ast::NamesView {
        rating: cfg.rating_sticker@,
        playcount: cfg.playcount_sticker@,
        lastplayed: cfg.lastplayed_sticker@,
    }
}

/// The table of the first `n` general commands that a configuration defines.
pub open spec fn gen_cmds_of<T>(cfg: Config<T>, n: int) -> Seq<
    (Seq<char>, crate::commands::CommandView),
>
    decreases n,
{
    if n <= 0 {
        Seq::empty()
    } else {
        crate::collections::put(
            gen_cmds_of(cfg, n - 1),
            cfg.gen_cmds@[n - 1].name@,
            config::defn_view(cfg.gen_cmds@[n - 1], cfg.local_music_dir@),
        )
    }
}

/// The message processor that a configuration asks for.
pub open spec fn processor_of<T>(cfg: Config<T>) -> messages::ProcessorView {
    messages::ProcessorView {
        music_dir: cfg.local_music_dir@,
        rating_sticker: cfg.rating_sticker@,
        ratings_cmd: cfg.ratings_command@,
        ratings_cmd_args: text::texts(cfg.ratings_command_args@),
        playcount_sticker: cfg.playcount_sticker@,
        playcount_cmd: cfg.playcount_command@,
        playcount_cmd_args: text::texts(cfg.playcount_command_args@),
        lastplayed_sticker: cfg.lastplayed_sticker@,
        gen_cmds: gen_cmds_of(cfg, cfg.gen_cmds@.len() as int),
    }
}

/// The message processor that a configuration asks for.
pub fn processor<'a, T>(cfg: &'a Config<T>) -> (r: MessageProcessor<'a>)
    ensures
        r.deep_view() == processor_of(*cfg),
{
    let defns = cfg.generalized_commands();
    proof {
        lemma_table(*cfg, defns@, defns@.len() as int);
    }
    MessageProcessor::new(
        cfg.local_music_dir.as_str(),
        cfg.rating_sticker.as_str(),
        cfg.ratings_command.as_str(),
        text::copies(&cfg.ratings_command_args),
        cfg.playcount_sticker.as_str(),
        cfg.playcount_command.as_str(),
        text::copies(&cfg.playcount_command_args),
        cfg.lastplayed_sticker.as_str(),
        defns,
    )
}

proof fn lemma_table<T>(
    cfg: Config<T>,
    defns: Seq<(String, crate::commands::GeneralizedCommand)>,
    n: int,
)
    requires
        n <= defns.len() == cfg.gen_cmds@.len(),
        forall|i: int|
            0 <= i < defns.len() ==> {
                &&& (#[trigger] defns[i]).0@ == cfg.gen_cmds@[i].name@
                &&& defns[i].1.deep_view() == config::defn_view(
                    cfg.gen_cmds@[i],
                    cfg.local_music_dir@,
                )
            },
    ensures
        messages::command_table(defns, n) == gen_cmds_of(cfg, n),
    decreases n,
{
    if n > 0 {
        lemma_table(cfg, defns, n - 1);
        assert(defns[n - 1].0@ == cfg.gen_cmds@[n - 1].name@);
    }
}

impl<'a, S: RequestResponse> Daemon<'a, S> {
    /// The conversation with the server so far.
    pub closed spec fn session(&self) -> Session {
        self.client.session()
    }

    /// What is known of the player.
    pub closed spec fn play_state(&self) -> playcounts::PlayView {
        self.state.deep_view()
    }

    /// The last known player status.
    pub closed spec fn last(&self) -> PlayerStatus {
        self.state.last()
    }

    /// The last known player status is what is known of it.
    pub proof fn law_last(&self)
        ensures
            self.last().deep_view() == self.play_state().last,
    {
        self.state.law_last();
    }

    /// The command that is run when a play is counted, its arguments, & the music directory.
    pub closed spec fn playcount_command(&self) -> (Seq<char>, Seq<Seq<char>>, Seq<char>) {
        (self.playcount_cmd@, text::texts(self.playcount_cmd_args@), self.music_dir@)
    }

    /// What messages are processed with.
    pub closed spec fn processor(&self) -> messages::ProcessorView {
        self.mproc.deep_view()
    }

    /// The names of the stickers.
    pub closed spec fn names(&self) -> filters_ast::NamesView {
        self.stickers.deep_view()
    }

    /// The channel that commands arrive on.
    pub closed spec fn channel(&self) -> Seq<char> {
        self.commands_chan@
    }

    /// What does not change.
    pub open spec fn same_setup(&self, other: &Self) -> bool {
        &&& self.playcount_command() == other.playcount_command()
        &&& self.processor() == other.processor()
        &&& self.names() == other.names()
        &&& self.channel() == other.channel()
    }

    /// Start: reach out to the server to get the current status.
    pub fn new<T>(cfg: &'a Config<T>, client: Client<S>) -> (r: Result<Daemon<'a, S>, Error>)
        ensures
            ({
                let (status, s) = clients::status_spec(client.session());
                match status {
                    Err(source) => text::outcome_err(r, ErrorView::Client { source }),
                    Ok(last) => {
                        &&& r is Ok
                        &&& r->Ok_0.session() == s
                        &&& r->Ok_0.play_state() == (playcounts::PlayView {
                            last,
                            playcount_sticker: cfg.playcount_sticker@,
                            lastplayed_sticker: cfg.lastplayed_sticker@,
                            counted: false,
                        })
                        &&& r->Ok_0.playcount_command() == (
                            cfg.playcount_command@,
                            text::texts(cfg.playcount_command_args@),
                            cfg.local_music_dir@,
                        )
                        &&& r->Ok_0.processor() == processor_of(*cfg)
                        &&& r->Ok_0.names() == names_of(*cfg)
                        &&& r->Ok_0.channel() == cfg.commands_chan@
                    },
                }
            }),
    {
        let mut client = client;
        let state = match PlayState::new(
            &mut client,
            cfg.playcount_sticker.as_str(),
            cfg.lastplayed_sticker.as_str(),
        ) {
            Ok(state) => state,
            Err(source) => {
                return Err(Error::Client { source });
            },
        };
        let stickers = FilterStickerNames::new(
            cfg.rating_sticker.as_str(),
            cfg.playcount_sticker.as_str(),
            cfg.lastplayed_sticker.as_str(),
        );
        Ok(
            Daemon {
                client,
                state,
                mproc: processor(cfg),
                stickers,
                playcount_cmd: cfg.playcount_command.as_str(),
                playcount_cmd_args: &cfg.playcount_command_args,
                music_dir: cfg.local_music_dir.as_str(),
                commands_chan: cfg.commands_chan.as_str(),
            },
        )
    }

    /// Subscribe to the channel that commands arrive on.
    pub fn subscribe<T: RequestResponse>(&self, idle_client: &mut IdleClient<T>) -> (r: Result<
        (),
        Error,
    >)
        ensures
            ({
                let (done, s) = clients::asked(
                    old(idle_client).session(),
                    clients::subscribe_request(self.channel()),
                    |reply: Seq<char>| clients::ok_spec(reply, clients::Operation::Connect, reply),
                );
                &&& final(idle_client).session() == s
                &&& text::outcome(r) == (match done {
                    Ok(_) => Ok(()),
                    Err(source) => Err(ErrorView::Client { source }),
                })
            }),
    {
        match idle_client.subscribe(self.commands_chan) {
            Ok(_) => Ok(()),
            Err(source) => Err(Error::Client { source }),
        }
    }

    /// Do what an event asks for.
    ///
    /// `judge` decides how far playback has got, given the last known status & the current one.
    pub fn handle<F: Fn(&PlayerStatus, &PlayerStatus) -> Progress>(
        &mut self,
        event: Event,
        judge: F,
    ) -> (r: Result<Reaction, Error>)
        requires
            forall|last: &PlayerStatus, new: &PlayerStatus| #[trigger]
                judge.requires((last, new)),
        ensures
            is_handling(
                event,
                judge,
                old(self).last(),
                (old(self).play_state(), old(self).session()),
                old(self).playcount_command(),
                text::outcome(r),
                (final(self).play_state(), final(self).session()),
            ),
            final(self).same_setup(old(self)),
    {
        let mut reaction = Reaction {
            done: false,
            rearm: false,
            idle: false,
            check: false,
            command: None,
        };
        let poll: bool = match &event {
            Event::Interrupt | Event::Hangup | Event::Terminate => {
                reaction.done = true;
                reaction.idle = true;
                false
            },
            Event::Tick => {
                reaction.rearm = true;
                true
            },
            Event::Completed(upd) => {
                if let Some(uri) = upd {
                    if let Err(source) = self.client.update(uri.as_str()) {
                        return Err(Error::Client { source });
                    }
                }
                false
            },
            Event::NoCommands => false,
            Event::Changed(Ok(subsystem)) => {
                reaction.idle = true;
                match subsystem {
                    IdleSubSystem::Player => true,
                    IdleSubSystem::Message => {
                        reaction.check = true;
                        false
                    },
                }
            },
            Event::Changed(Err(_)) => {
                reaction.done = true;
                reaction.idle = true;
                false
            },
        };
        if poll {
            let polled = self.state.update(
                &mut self.client,
                judge,
                self.playcount_cmd,
                self.playcount_cmd_args,
                self.music_dir,
            );
            let ghost outcome = text::outcome(polled);
            assert(playcounts::is_update(
                judge,
                old(self).last(),
                old(self).play_state(),
                old(self).session(),
                old(self).playcount_command().0,
                old(self).playcount_command().1,
                old(self).playcount_command().2,
                (outcome, self.play_state(), self.session()),
            ));
            match polled {
                Ok(command) => {
                    reaction.command = command;
                },
                Err(source) => {
                    assert(outcome == Err::<Option<TaggedView>, playcounts::ErrorView>(
                        source.deep_view(),
                    ));
                    return Err(Error::Playcounts { source });
                },
            }
        }
        Ok(reaction)
    }

    /// Read messages off the commands channel & dispatch 'em; commands to be started are added to `cmds`.
    pub fn check_messages<T: RequestResponse>(
        &mut self,
        idle_client: &mut IdleClient<T>,
        cmds: &mut Vec<TaggedCommand>,
    ) -> (r: Result<(), messages::Error>)
        ensures
            ({
                let (inbox, t) = clients::get_messages_spec(old(idle_client).session());
                &&& final(idle_client).session() == t
                &&& match inbox {
                    Err(source) => {
                        &&& text::outcome_err(r, messages::ErrorView::Client { source })
                        &&& final(self).session() == old(self).session()
                        &&& final(cmds)@ == old(cmds)@
                    },
                    Ok(inbox) => messages::is_handling(
                        old(self).processor(),
                        messages::our_messages(inbox, old(self).channel(), 0),
                        old(self).play_state().last,
                        old(self).names(),
                        old(self).session(),
                        messages::command_views(old(cmds)@),
                        (
                            text::outcome(r),
                            final(self).session(),
                            messages::command_views(final(cmds)@),
                        ),
                    ),
                }
            }),
            final(self).play_state() == old(self).play_state(),
            final(self).same_setup(old(self)),
    {
        let status = self.state.last_status();
        self.mproc.check_messages(
            &mut self.client,
            idle_client,
            &status,
            self.commands_chan,
            cmds,
            &self.stickers,
        )
    }
}

// ---------------------------------------------------------------------------------------------
// Laws
// ---------------------------------------------------------------------------------------------

/// Every general command that a configuration defines can be invoked: its name finds the last definition
/// that has it, & a name that no definition has finds nothing.
pub proof fn law_commands_found<T>(cfg: Config<T>, name: Seq<char>)
    ensures
        forall|i: int|
            0 <= i < cfg.gen_cmds@.len() && (#[trigger] cfg.gen_cmds@[i]).name@ == name && (forall|
                j: int,
            |
                i < j < cfg.gen_cmds@.len() ==> (#[trigger] cfg.gen_cmds@[j]).name@ != name)
                ==> crate::collections::lookup(processor_of(cfg).gen_cmds, name) == Some(
                config::defn_view(cfg.gen_cmds@[i], cfg.local_music_dir@),
            ),
        (forall|i: int| 0 <= i < cfg.gen_cmds@.len() ==> (#[trigger] cfg.gen_cmds@[i]).name@ != name)
            ==> crate::collections::lookup(processor_of(cfg).gen_cmds, name) is None,
{
    lemma_found(cfg, name, cfg.gen_cmds@.len() as int);
}

#[verifier::spinoff_prover]
#[verifier::rlimit(40)]
proof fn lemma_found<T>(cfg: Config<T>, name: Seq<char>, n: int)
    requires
        0 <= n <= cfg.gen_cmds@.len(),
    ensures
        forall|i: int|
            0 <= i < n && (#[trigger] cfg.gen_cmds@[i]).name@ == name && (forall|j: int|
                i < j < n ==> (#[trigger] cfg.gen_cmds@[j]).name@ != name)
                ==> crate::collections::lookup(gen_cmds_of(cfg, n), name) == Some(
                config::defn_view(cfg.gen_cmds@[i], cfg.local_music_dir@),
            ),
        (forall|i: int| 0 <= i < n ==> (#[trigger] cfg.gen_cmds@[i]).name@ != name)
            ==> crate::collections::lookup(gen_cmds_of(cfg, n), name) is None,
    decreases n,
{
    if n > 0 {
        lemma_found(cfg, name, n - 1);
        let last = cfg.gen_cmds@[n - 1];
        let earlier = gen_cmds_of(cfg, n - 1);
        crate::collections::law_put_lookup(
            earlier,
            last.name@,
            config::defn_view(last, cfg.local_music_dir@),
            name,
        );
    }
}

/// What is kept under which sticker, on which channel messages arrive, & what is run, is what the
/// configuration says, as it is for one that was upgraded.
pub proof fn law_configured<T>(cfg: Config<T>, cfg0: config::Config0<T>)
    ensures
        processor_of(cfg).rating_sticker == cfg.rating_sticker@,
        processor_of(cfg).playcount_sticker == cfg.playcount_sticker@,
        processor_of(cfg).lastplayed_sticker == cfg.lastplayed_sticker@,
        processor_of(cfg).ratings_cmd == cfg.ratings_command@,
        processor_of(cfg).playcount_cmd == cfg.playcount_command@,
        processor_of(cfg).music_dir == cfg.local_music_dir@,
        names_of(cfg).rating == cfg.rating_sticker@,
        names_of(cfg).playcount == cfg.playcount_sticker@,
        names_of(cfg).lastplayed == cfg.lastplayed_sticker@,
        config::is_upgrade(cfg, cfg0) ==> {
            &&& names_of(cfg).rating == cfg0.rating_sticker@
            &&& names_of(cfg).playcount == cfg0.playcount_sticker@
            &&& names_of(cfg).lastplayed == cfg0.lastplayed_sticker@
            &&& processor_of(cfg).music_dir == cfg0.local_music_dir@
            &&& processor_of(cfg).ratings_cmd == cfg0.ratings_command@
            &&& processor_of(cfg).ratings_cmd_args == text::texts(cfg0.ratings_command_args@)
            &&& processor_of(cfg).playcount_cmd == cfg0.playcount_command@
            &&& processor_of(cfg).playcount_cmd_args == text::texts(cfg0.playcount_command_args@)
            &&& cfg.commands_chan@ == cfg0.commands_chan@
            &&& cfg.log@ == cfg0.log@
            &&& cfg.poll_interval_ms == cfg0.poll_interval_ms
            &&& cfg.played_thresh == cfg0.played_thresh
            &&& cfg.gen_cmds == cfg0.gen_cmds
            &&& cfg.conn matches config::Connection::TCP { host, port } && host == cfg0.host && port
                == cfg0.port
        },
{
}

/// The daemon exits on a signal or when it can no longer wait on the server, & on nothing else; it polls
/// the player when the interval has passed or the player has changed, & reads its messages when there are
/// some.
pub proof fn law_events(event: Event)
    ensures
        reaction_to(event).done <==> (event is Interrupt || event is Hangup || event is Terminate || (
        event matches Event::Changed(r) && r is Err)),
        work_of(event) is Poll <==> (event is Tick || (event matches Event::Changed(Ok(
            IdleSubSystem::Player,
        )))),
        reaction_to(event).check <==> (event matches Event::Changed(Ok(IdleSubSystem::Message))),
        reaction_to(event).rearm <==> event is Tick,
        work_of(event) is Update <==> (event matches Event::Completed(upd) && upd is Some),
        event matches Event::Completed(Some(uri)) ==> work_of(event) == Work::Update(uri@),
        event is Changed ==> reaction_to(event).idle,
        event is Tick || event is Completed || event is NoCommands ==> !reaction_to(event).idle,
{
}

/// What comes of an event: the player is polled, & what that yields is to be run, if the event asks for
/// that; the database is updated, if it asks for that; & nothing else is done or asked of the server.
pub proof fn law_handled<F: Fn(&PlayerStatus, &PlayerStatus) -> Progress>(
    event: Event,
    judge: F,
    last: PlayerStatus,
    before: (playcounts::PlayView, Session),
    command: (Seq<char>, Seq<Seq<char>>, Seq<char>),
    r: Result<ReactionView, ErrorView>,
    after: (playcounts::PlayView, Session),
)
    requires
        is_handling(event, judge, last, before, command, r, after),
    ensures
        event is Tick || (event matches Event::Changed(Ok(IdleSubSystem::Player))) ==> exists|
            polled: Result<Option<TaggedView>, playcounts::ErrorView>,
        |
            {
                &&& #[trigger] playcounts::is_update(
                    judge,
                    last,
                    before.0,
                    before.1,
                    command.0,
                    command.1,
                    command.2,
                    (polled, after.0, after.1),
                )
                &&& polled is Ok <==> r is Ok
                &&& polled matches Ok(run) ==> r->Ok_0.command == run
            },
        event matches Event::Completed(Some(uri)) ==> {
            &&& after.0 == before.0
            &&& after.1 == before.1.ask(clients::update_request(uri@)).1
            &&& r matches Ok(reaction) ==> reaction.command is None
            &&& r is Ok <==> (before.1.ask(clients::update_request(uri@)).0 matches Ok(reply)
                && clients::job_spec(reply) is Ok)
        },
        event is Interrupt || event is Hangup || event is Terminate || event is NoCommands || (
        event matches Event::Completed(None)) || (event matches Event::Changed(Ok(
            IdleSubSystem::Message,
        ))) || (event matches Event::Changed(Err(_))) ==> after == before && (r matches Ok(reaction)
            && reaction.command is None),
        r matches Ok(reaction) ==> {
            &&& reaction.done == reaction_to(event).done
            &&& reaction.rearm == reaction_to(event).rearm
            &&& reaction.idle == reaction_to(event).idle
            &&& reaction.check == reaction_to(event).check
        },
{
}

} // verus!
