//! The command-line client.

use mpdpopm::clients::Client;
use mpdpopm::config::may_default;
use mpdpopm::mock::Mock;
use mpdpopm::mppopm::{
    choose_host, choose_port, findadd, get_last_playeds, get_play_counts, get_playlists,
    get_ratings, last_played_arg, map_tracks, play_count_arg, send_command, set_last_playeds,
    set_play_counts, set_rating, verbosity, Config, Error, Verbosity,
};
use mpdpopm::order::sort;

fn client(convo: &[(&str, &str)]) -> Client<Mock> {
    Client::new(Mock::new(
        convo
            .iter()
            .map(|(request, reply)| (request.to_string(), reply.to_string()))
            .collect(),
    ))
    .unwrap()
}

fn texts(v: &[&str]) -> Vec<String> {
    v.iter().map(|s| s.to_string()).collect()
}

const NONE: &str = "ACK [50@0] {sticker} no such sticker\n";

#[test]
fn tracks() {
    assert_eq!(
        map_tracks(&mut client(&[]), Some(texts(&["a", "b"]))).unwrap(),
        texts(&["a", "b"])
    );
    assert_eq!(
        map_tracks(
            &mut client(&[
                ("status", "state: pause\nsongid: 3\nelapsed: 1\nOK\n"),
                ("playlistid 3", "file: x y.mp3\nduration: 2\nOK\n"),
            ]),
            None
        )
        .unwrap(),
        texts(&["x y.mp3"])
    );
    assert!(matches!(
        map_tracks(&mut client(&[("status", "state: stop\nOK\n")]), None),
        Err(Error::PlayerStopped)
    ));
    assert!(matches!(
        map_tracks(&mut client(&[]), None),
        Err(Error::Client { .. })
    ));
}

#[test]
fn showing_ratings() {
    let convo = [
        ("sticker get song a rating", "sticker: rating=255\nOK\n"),
        ("sticker get song b rating", NONE),
    ];
    assert_eq!(
        get_ratings(&mut client(&convo), "rating", Some(texts(&["a", "b"])), false).unwrap(),
        texts(&["a: 255", "b: 0"])
    );
    assert_eq!(
        get_ratings(&mut client(&convo), "rating", Some(texts(&["a"])), false).unwrap(),
        texts(&["255"])
    );
    assert_eq!(
        get_ratings(&mut client(&convo), "rating", Some(texts(&["a"])), true).unwrap(),
        texts(&["a: 255"])
    );
    assert!(matches!(
        get_ratings(&mut client(&convo), "rating", Some(texts(&["a", "c"])), true),
        Err(Error::Ratings { .. })
    ));
}

#[test]
fn showing_play_counts_and_times() {
    assert_eq!(
        get_play_counts(
            &mut client(&[
                ("sticker get song a pc", NONE),
                ("sticker get song b pc", "sticker: pc=12\nOK\n"),
            ]),
            "pc",
            Some(texts(&["a", "b"])),
            false
        )
        .unwrap(),
        texts(&["a: 0", "b: 12"])
    );
    assert_eq!(
        get_last_playeds(
            &mut client(&[
                ("sticker get song a lp", NONE),
                ("sticker get song b lp", "sticker: lp=1616812013\nOK\n"),
            ]),
            "lp",
            Some(texts(&["a", "b"])),
            false
        )
        .unwrap(),
        texts(&["a: N/A", "b: 1616812013"])
    );
    assert!(matches!(
        get_last_playeds(&mut client(&[]), "lp", Some(texts(&["a"])), false),
        Err(Error::Playcounts { .. })
    ));
}

#[test]
fn telling_the_daemon() {
    let mut cli = client(&[
        ("sendmessage chan \"rate *** a b.mp3\"", "OK\n"),
        ("sendmessage chan \"rate 5\"", "OK\n"),
        ("sendmessage chan \"setpc 3 a.mp3\"", "OK\n"),
        ("sendmessage chan \"setpc 3\"", "OK\n"),
        ("sendmessage chan \"setlp 7 a.mp3\"", "OK\n"),
        ("sendmessage chan \"setlp 7\"", "OK\n"),
        (
            "sendmessage chan \"findadd \\\"(artist =~ \\\\\\\"x\\\\\\\")\\\"\"",
            "OK\n",
        ),
        ("sendmessage chan \"searchadd (rating>5)\"", "OK\n"),
        ("sendmessage chan \"tag \\\"Classic Rock\\\" a.mp3\"", "OK\n"),
        ("sendmessage chan ping", "ACK no\n"),
    ]);
    set_rating(&mut cli, "chan", "***", Some("a b.mp3")).unwrap();
    set_rating(&mut cli, "chan", "5", None).unwrap();
    set_play_counts(&mut cli, "chan", 3, Some("a.mp3")).unwrap();
    set_play_counts(&mut cli, "chan", 3, None).unwrap();
    set_last_playeds(&mut cli, "chan", 7, Some("a.mp3")).unwrap();
    set_last_playeds(&mut cli, "chan", 7, None).unwrap();
    findadd(&mut cli, "chan", "(artist =~ \"x\")", true).unwrap();
    findadd(&mut cli, "chan", "(rating>5)", false).unwrap();
    send_command(&mut cli, "chan", &texts(&["tag", "Classic Rock", "a.mp3"])).unwrap();
    assert!(matches!(
        send_command(&mut cli, "chan", &texts(&["ping"])),
        Err(Error::Client { .. })
    ));
}

#[test]
fn playlists_are_sorted() {
    assert_eq!(
        get_playlists(&mut client(&[(
            "listplaylists",
            "playlist: morning\nplaylist: Evening\nplaylist: mornings\nplaylist: afternoon\nOK\n",
        )]))
        .unwrap(),
        texts(&["Stored playlists:", "Evening", "afternoon", "morning", "mornings"])
    );
}

#[test]
fn sorting() {
    let mut expected = texts(&["b", "", "ab", "a", "é", "b", "Z", "\u{1f600}", "\u{ffff}"]);
    let got = sort(expected.clone());
    expected.sort();
    assert_eq!(got, expected);
}

#[test]
fn where_to_connect() {
    assert_eq!(choose_host(Some("a"), "b", Some("c")), "a");
    assert_eq!(choose_host(None, "b", Some("c")), "b");
    assert_eq!(choose_host(None, "", Some("c")), "c");
    assert_eq!(choose_host(None, "", None), "localhost");
    assert_eq!(choose_port(Some(1), 2, Some("3")).unwrap(), 1);
    assert_eq!(choose_port(None, 2, Some("3")).unwrap(), 2);
    assert_eq!(choose_port(None, 0, Some("3")).unwrap(), 3);
    assert_eq!(choose_port(None, 0, None).unwrap(), 6600);
    let err = choose_port(None, 0, Some("65536")).unwrap_err();
    assert_eq!(
        err.message(),
        "Expected integer: number too large to fit in target type"
    );
}

#[test]
fn what_the_user_asked_for() {
    assert!(may_default(true, true));
    assert!(!may_default(true, false));
    assert!(!may_default(false, true));
    assert_eq!(Config::default().commands_chan, "unwoundstack.com:commands");
    assert_eq!(verbosity(false, false), Verbosity::Warn);
    assert_eq!(verbosity(true, false), Verbosity::Debug);
    assert_eq!(verbosity(false, true), Verbosity::Trace);
    assert_eq!(verbosity(true, true), Verbosity::Trace);
    assert_eq!(play_count_arg("12").unwrap(), 12);
    assert!(matches!(play_count_arg("-1"), Err(Error::ExpectedInt { .. })));
    assert_eq!(last_played_arg("18446744073709551615").unwrap(), u64::MAX);
    assert!(last_played_arg("").is_err());
}
