//! The minimal client, & the commands that rely on it being there.

use mpdpopm::client::{parse_greeting, Client, IdleClient};
use mpdpopm::clients::{response_text, CurrentSong, IdleSubSystem, PlayerStatus};
use mpdpopm::mock::Mock;
use mpdpopm::scribbu;

fn script(convo: &[(&str, &str)]) -> Mock {
    Mock::new(
        convo
            .iter()
            .map(|(request, reply)| (request.to_string(), reply.to_string()))
            .collect(),
    )
}

#[test]
fn minimal_status() {
    let mut cli = Client::new(script(&[
        ("status", "state: play\nsongid: 15\nelapsed: 140.585\nOK\n"),
        ("playlistid 15", "file: a b.mp3\nduration: 249.994\nOK\n"),
        ("status", "state: stop\nOK\n"),
        ("status", "state: splat\nOK\n"),
        ("status", "state: play\nsongid: 99999999999999999999\nOK\n"),
        ("status", "state: play\nsongid: 1\nelapsed: 1.2.3\nOK\n"),
    ]));
    match cli.status().unwrap() {
        PlayerStatus::Play(curr) => {
            assert_eq!(curr.songid, 15);
            assert_eq!(curr.file, "a b.mp3");
            assert_eq!(curr.elapsed, "140.585");
            assert_eq!(curr.duration, "249.994");
        }
        _ => panic!(),
    }
    assert!(matches!(cli.status().unwrap(), PlayerStatus::Stopped));
    assert_eq!(
        cli.status().unwrap_err().message(),
        "Error in regex matching on mpd output state: splat\nOK\n"
    );
    assert_eq!(
        cli.status().unwrap_err().message(),
        "Cause: Some(ParseIntError { kind: PosOverflow })"
    );
    assert_eq!(
        cli.status().unwrap_err().message(),
        "Cause: Some(ParseFloatError { kind: Invalid })"
    );
    assert_eq!(
        cli.status().unwrap_err().message(),
        "Cause: Some(Io { source: \"unexpected request\" })"
    );
}

#[test]
fn errors_underneath_are_given_in_full() {
    let digits = "99999999999999999999";
    let mut cli = Client::new(script(&[
        ("status", "state: play\nsongid: 99999999999999999999\nOK\n"),
        ("status", "state: play\nsongid: 1\nelapsed: 1.2.3\nOK\n"),
        ("status", "state: play\nsongid: 1\nelapsed: 1\nOK\n"),
        ("playlistid 1", "file: a\nduration: \nOK\n"),
    ]));
    assert_eq!(
        cli.status().unwrap_err().message(),
        format!("Cause: {:?}", digits.parse::<u64>().err())
    );
    assert_eq!(
        cli.status().unwrap_err().message(),
        format!("Cause: {:?}", "1.2.3".parse::<f64>().err())
    );
    assert_eq!(
        cli.status().unwrap_err().message(),
        format!("Cause: {:?}", "".parse::<f64>().err())
    );
    let bytes = vec![b'O', b'K', 0xff];
    assert_eq!(
        parse_greeting(bytes.clone()).unwrap_err().message(),
        format!("Cause: {:?}", response_text(bytes).err())
    );
}

#[test]
fn minimal_stickers() {
    let mut cli = Client::new(script(&[
        (
            "sticker get song \"a b\" \"pc\"",
            "sticker: pc=1\nsticker: pc=2\nOK\n",
        ),
        ("sticker get song \"a b\" \"pc\"", "ACK [50@0] no\n"),
        ("sticker set song \"a b\" \"pc\" \"3\"", "OK\n"),
        ("sticker set song \"a b\" \"pc\" \"3\"", "what\nACK no\n"),
    ]));
    assert_eq!(cli.get_sticker("a b", "pc").unwrap().unwrap(), "2");
    assert!(cli.get_sticker("a b", "pc").unwrap().is_none());
    cli.set_sticker("a b", "pc", "3").unwrap();
    assert_eq!(
        cli.set_sticker("a b", "pc", "3").unwrap_err().message(),
        "While setting sticker: ACK no"
    );
}

#[test]
fn minimal_idling() {
    let mut cli = IdleClient::new(script(&[
        ("subscribe chan", "OK\n"),
        ("subscribe chan", "no"),
        ("idle player message", "changed: Player\nOK\n"),
        ("idle player message", "changed: mixer\nOK\n"),
        ("idle player message", "OK\n"),
        (
            "readmessages",
            "channel: a\nmessage: 1\nchannel: a\nmessage: 2\nchannel: b\nOK\n",
        ),
    ]));
    cli.subscribe("chan").unwrap();
    assert_eq!(cli.subscribe("chan").unwrap_err().message(), "While subscribing: no");
    assert_eq!(cli.idle().unwrap(), IdleSubSystem::Player);
    assert_eq!(cli.idle().unwrap_err().message(), "Unknown idle subsystem mixer");
    assert_eq!(cli.idle().unwrap_err().message(), "In response to idle: OK\n");
    // the later messages come after the ones before
    let m = cli.get_messages().unwrap();
    assert_eq!(m.get("a").unwrap(), &vec![String::from("1"), String::from("2")]);
    assert!(m.get("b").unwrap().is_empty());
}

#[test]
fn minimal_greeting() {
    assert_eq!(parse_greeting(b"OK MPD 0.19\n".to_vec()).unwrap(), "0.19");
    assert_eq!(
        parse_greeting(b"hello \n".to_vec()).unwrap_err().message(),
        "Connect error: hello"
    );
    assert!(parse_greeting(vec![0xff]).is_err());
}

#[test]
fn tagging() {
    let playing = PlayerStatus::Play(CurrentSong::new(
        1,
        String::from("now.mp3"),
        String::from("1"),
        String::from("2"),
    ));
    let got = scribbu::set_genre("Rock", &playing, "/music").unwrap();
    assert_eq!(got.process.program, "scribbu");
    assert_eq!(
        got.process.args,
        vec!["genre", "-a", "-C", "-g", "Rock", "/music/now.mp3"]
    );
    assert_eq!(got.upd.unwrap(), "now.mp3");
    let got = scribbu::set_genre("Rock a.mp3", &PlayerStatus::Stopped, "/music").unwrap();
    assert_eq!(got.process.args[5], "/music/a.mp3");
    assert!(matches!(
        scribbu::set_genre("Rock", &PlayerStatus::Stopped, "/music"),
        Err(scribbu::Error::PlayerStopped)
    ));
    assert_eq!(
        scribbu::set_genre("Rock a b", &playing, "/music").unwrap_err().message(),
        "Mal-formed command `Rock a b'"
    );

    let got = scribbu::set_xtag("a=b", &playing, "/music").unwrap();
    assert_eq!(
        got.process.args,
        vec!["xtag", "-A", "-o", "sp1ff@pobox.com", "-T", "a=b", "/music/now.mp3"]
    );
    assert!(got.upd.is_none());
    let got = scribbu::set_xtag("a=b no x.mp3", &playing, "/music").unwrap();
    assert_eq!(
        got.process.args,
        vec!["xtag", "-A", "-a", "-o", "sp1ff@pobox.com", "-T", "a=b", "/music/x.mp3"]
    );
    let got = scribbu::set_xtag("a=b yes", &playing, "/music").unwrap();
    assert_eq!(got.process.args[2], "-m");
    assert!(scribbu::set_xtag("a b c d", &playing, "/music").is_err());
}
