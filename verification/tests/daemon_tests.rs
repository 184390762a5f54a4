//! The daemon & its configuration.

use mpdpopm::clients::{self, Client, IdleClient, IdleSubSystem, PlayerStatus};
use mpdpopm::commands::{FormalParameter, Update};
use mpdpopm::config::{address, settle, Config, Config0, Connection, GeneralizedCommandDefn};
use mpdpopm::daemon::{Daemon, Error, Event};
use mpdpopm::mock::Mock;
use mpdpopm::playcounts::Progress;

fn script(convo: &[(&str, &str)]) -> Mock {
    Mock::new(
        convo
            .iter()
            .map(|(request, reply)| (request.to_string(), reply.to_string()))
            .collect(),
    )
}

const STOPPED: (&str, &str) = ("status", "state: stop\nOK\n");

fn config() -> Config<u8> {
    let mut cfg = Config::default_with(60u8);
    cfg.local_music_dir = String::from("/music");
    cfg.playcount_sticker = String::from("pc");
    cfg.lastplayed_sticker = String::from("lp");
    cfg.rating_sticker = String::from("rating");
    cfg.commands_chan = String::from("commands");
    cfg.gen_cmds.push(GeneralizedCommandDefn {
        name: String::from("tag"),
        formal_parameters: vec![FormalParameter::Literal],
        default_after: 1,
        cmd: String::from("/bin/tag"),
        args: vec![String::from("%1")],
        update: Update::NoUpdate,
    });
    cfg
}

fn start(_last: &PlayerStatus, _new: &PlayerStatus) -> Progress {
    Progress {
        rewound: false,
        near_start: true,
        past_threshold: false,
    }
}

#[test]
fn signals_end_the_daemon() {
    let cfg = config();
    let mut daemon = Daemon::new(&cfg, Client::new(script(&[STOPPED])).unwrap()).unwrap();
    for event in [Event::Interrupt, Event::Hangup, Event::Terminate] {
        let reaction = daemon.handle(event, start).unwrap();
        assert!(reaction.done);
    }
    let reaction = daemon
        .handle(
            Event::Changed(Err(clients::Error::Io {
                source: String::from("gone"),
            })),
            start,
        )
        .unwrap();
    assert!(reaction.done);
}

#[test]
fn the_daemon_polls() {
    let cfg = config();
    let mut daemon = Daemon::new(
        &cfg,
        Client::new(script(&[STOPPED, STOPPED, STOPPED, ("status", "splat")])).unwrap(),
    )
    .unwrap();
    let reaction = daemon.handle(Event::Tick, start).unwrap();
    assert!(reaction.rearm && !reaction.done && !reaction.idle && reaction.command.is_none());
    let reaction = daemon
        .handle(Event::Changed(Ok(IdleSubSystem::Player)), start)
        .unwrap();
    assert!(reaction.idle && !reaction.rearm && !reaction.check && !reaction.done);
    assert!(matches!(
        daemon.handle(Event::Tick, start),
        Err(Error::Playcounts { .. })
    ));
}

#[test]
fn the_daemon_updates_the_database() {
    let cfg = config();
    let mut daemon = Daemon::new(
        &cfg,
        Client::new(script(&[
            STOPPED,
            ("update \"song /music/a.mp3\"", "updating_db: 1\nOK\n"),
            ("update \"x\"", "ACK no\n"),
        ]))
        .unwrap(),
    )
    .unwrap();
    assert!(!daemon.handle(Event::Completed(None), start).unwrap().done);
    assert!(!daemon.handle(Event::NoCommands, start).unwrap().done);
    let event = Event::Completed(Some(String::from("song /music/a.mp3")));
    assert!(!daemon.handle(event, start).unwrap().idle);
    assert!(matches!(
        daemon.handle(Event::Completed(Some(String::from("x"))), start),
        Err(Error::Client { .. })
    ));
}

#[test]
fn the_daemon_reads_messages() {
    let cfg = config();
    let mut daemon = Daemon::new(
        &cfg,
        Client::new(script(&[STOPPED, ("sticker set song a rating 1", "OK\n")])).unwrap(),
    )
    .unwrap();
    let mut idle = IdleClient::new(script(&[
        ("subscribe commands", "OK\n"),
        (
            "readmessages",
            "channel: commands\nmessage: rate * a\nmessage: tag Rock\nOK\n",
        ),
    ]))
    .unwrap();
    daemon.subscribe(&mut idle).unwrap();
    let reaction = daemon
        .handle(Event::Changed(Ok(IdleSubSystem::Message)), start)
        .unwrap();
    assert!(reaction.check && reaction.idle && !reaction.done);
    let mut cmds = Vec::new();
    daemon.check_messages(&mut idle, &mut cmds).unwrap();
    assert_eq!(cmds.len(), 1);
    assert_eq!(cmds[0].process.program, "/bin/tag");
    assert_eq!(cmds[0].process.args, vec!["Rock"]);
}

#[test]
fn the_daemon_needs_a_server() {
    let cfg = config();
    match Daemon::new(&cfg, Client::new(script(&[])).unwrap()) {
        Err(err) => assert!(err.message().starts_with("Client error: ")),
        Ok(_) => panic!(),
    }
}

#[test]
fn default_configuration() {
    let cfg = Config::default_with(60u8);
    assert_eq!(cfg.commands_chan, "unwoundstack.com:commands");
    assert_eq!(cfg.log, "/usr/local/var/log/mppopmd.log");
    assert_eq!(cfg.local_music_dir, "/usr/local/Music");
    assert_eq!(cfg.poll_interval_ms, 5000);
    assert_eq!(cfg.played_thresh, 60);
    match cfg.conn {
        Connection::TCP { host, port } => assert_eq!(address(&host, port), "localhost:6600"),
        _ => panic!(),
    }
}

#[test]
fn configurations_of_either_version_will_do() {
    let initial = || Config0 {
        log: String::from("/log"),
        host: String::from("192.168.1.14"),
        port: 6601,
        local_music_dir: String::from("/space/mp3"),
        playcount_sticker: String::from("pc"),
        lastplayed_sticker: String::from("lp"),
        played_thresh: 50u8,
        poll_interval_ms: 1,
        playcount_command: String::from("/bin/pc"),
        playcount_command_args: vec![String::from("%playcount")],
        commands_chan: String::from("chan"),
        rating_sticker: String::from("rating"),
        ratings_command: String::new(),
        ratings_command_args: Vec::new(),
        gen_cmds: Vec::new(),
    };
    let cfg = settle(Err(String::from("no")), Ok(initial())).unwrap();
    assert_eq!(cfg.log, "/log");
    assert_eq!(cfg.playcount_command_args, vec!["%playcount"]);
    match cfg.conn {
        Connection::TCP { host, port } => assert_eq!(address(&host, port), "192.168.1.14:6601"),
        _ => panic!(),
    }
    let cfg = settle(Ok(config()), Ok(initial())).unwrap();
    assert_eq!(cfg.commands_chan, "commands");
    assert!(settle::<u8>(Err(String::from("outer")), Err(String::from("inner"))).is_err());
}
