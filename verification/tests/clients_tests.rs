//! Talking to a server.

use mpdpopm::clients::{
    frame, parse_connect_rsp, quote, response_complete, response_text, Client, Error, IdleClient,
    IdleSubSystem, Operation, PlayerStatus, RequestResponse,
};
use mpdpopm::mock::Mock;
use mpdpopm::number::ParseError;

fn script(convo: &[(&str, &str)]) -> Mock {
    Mock::new(
        convo
            .iter()
            .map(|(request, reply)| (request.to_string(), reply.to_string()))
            .collect(),
    )
}

#[test]
fn mock_smoke_test() {
    let mut mock = script(&[("ping", "pong"), ("from", "to")]);
    assert_eq!(mock.req("ping").unwrap(), "pong");
    assert_eq!(mock.req("from").unwrap(), "to");
}

#[test]
#[should_panic]
fn mock_negative_test() {
    let mut mock = script(&[("ping", "pong")]);
    assert_eq!(mock.req("ping").unwrap(), "pong");
    let _should_panic = mock.req("not there!").unwrap();
}

/// Some basic "smoke" tests
#[test]
fn client_smoke_test() {
    let mock = script(&[(
        "sticker get song foo.mp3 stick",
        "sticker: stick=splat\nOK\n",
    )]);
    let mut cli = Client::new(mock).unwrap();
    let val = cli
        .get_sticker::<String>("foo.mp3", "stick")
        .unwrap()
        .unwrap();
    assert_eq!(val, "splat");
}

/// Test the `status' method
#[test]
fn test_status() {
    let mock = script(&[
        (
            "status",
            // When the server is playing or paused, the response will look something like this:
            "volume: -1
repeat: 0
random: 0
single: 0
consume: 0
playlist: 3
playlistlength: 87
mixrampdb: 0.000000
state: play
song: 14
songid: 15
time: 141:250
bitrate: 128
audio: 44100:24:2
nextsong: 15
nextsongid: 16
elapsed: 140.585
OK",
        ),
        // Should respond with a playlist id request
        (
            "playlistid 15",
            // Should look something like this:
            "file: U-Z/U2 - Who's Gonna RIDE Your WILD HORSES.mp3
Last-Modified: 2004-12-24T19:26:13Z
Artist: U2
Title: Who's Gonna RIDE Your WILD HOR
Genre: Pop
Time: 316
Pos: 41
Id: 42
duration: 249.994
OK",
        ),
        (
            "status",
            // But if the state is "stop", much of that will be missing; it will look more like:
            "volume: -1
repeat: 0
random: 0
single: 0
consume: 0
playlist: 84
playlistlength: 27
mixrampdb: 0.000000
state: stop
OK",
        ),
        // Finally, let's simulate something being really wrong
        (
            "status",
            "volume: -1
repeat: 0
state: no-idea!?",
        ),
    ]);
    let mut cli = Client::new(mock).unwrap();
    let stat = cli.status().unwrap();
    match stat {
        PlayerStatus::Play(curr) => {
            assert_eq!(curr.songid, 15);
            assert_eq!(
                curr.file,
                "U-Z/U2 - Who's Gonna RIDE Your WILD HORSES.mp3"
            );
            assert_eq!(curr.elapsed.parse::<f64>().unwrap(), 140.585);
            assert_eq!(curr.duration.parse::<f64>().unwrap(), 249.994);
        }
        _ => panic!(),
    }

    let stat = cli.status().unwrap();
    match stat {
        PlayerStatus::Stopped => (),
        _ => panic!(),
    }

    let stat = cli.status();
    match stat {
        Err(_) => (),
        Ok(_) => panic!(),
    }
}

/// Test the `get_sticker' method
#[test]
fn test_get_sticker() {
    let mock = script(&[
        (
            "sticker get song foo.mp3 stick",
            // On success, should get something like this...
            "sticker: stick=2\nOK\n",
        ),
        (
            "sticker get song foo.mp3 stick",
            // and on failure, something like this:
            "ACK [50@0] {sticker} no such sticker\n",
        ),
        (
            "sticker get song foo.mp3 stick",
            // Finally, let's try something nuts
            "",
        ),
        (
            "sticker get song \"filename_with\\\"doublequotes\\\".flac\" unwoundstack.com:playcount",
            "sticker: unwoundstack.com:playcount=11\nOK\n",
        ),
    ]);
    let mut cli = Client::new(mock).unwrap();
    let val = cli
        .get_sticker::<String>("foo.mp3", "stick")
        .unwrap()
        .unwrap();
    assert_eq!(val, "2");
    let val = cli.get_sticker::<String>("foo.mp3", "stick").unwrap();
    assert!(val.is_none());
    let _val = cli
        .get_sticker::<String>("foo.mp3", "stick")
        .unwrap_err();
    let val = cli
        .get_sticker::<String>(
            "filename_with\"doublequotes\".flac",
            "unwoundstack.com:playcount",
        )
        .unwrap()
        .unwrap();
    assert_eq!(val, "11");
}

/// Test the `set_sticker' method
#[test]
fn test_set_sticker() {
    let mock = script(&[
        ("sticker set song foo.mp3 stick 2", "OK\n"),
        (
            "sticker set song foo.mp3 stick 2",
            "ACK [50@0] {sticker} some error",
        ),
        (
            "sticker set song foo.mp3 stick 2",
            "this makes no sense as a response",
        ),
    ]);
    let mut cli = Client::new(mock).unwrap();
    let _val = cli.set_sticker("foo.mp3", "stick", "2").unwrap();
    let _val = cli.set_sticker("foo.mp3", "stick", "2").unwrap_err();
    let _val = cli.set_sticker("foo.mp3", "stick", "2").unwrap_err();
}

/// Test the `send_to_playlist' method
#[test]
fn test_send_to_playlist() {
    let mock = script(&[
        ("playlistadd foo.m3u foo.mp3", "OK\n"),
        (
            "playlistadd foo.m3u foo.mp3",
            "ACK [101@0] {playlist} some error\n",
        ),
    ]);
    let mut cli = Client::new(mock).unwrap();
    let _val = cli.send_to_playlist("foo.mp3", "foo.m3u").unwrap();
    let _val = cli.send_to_playlist("foo.mp3", "foo.m3u").unwrap_err();
}

/// Test the `update' method
#[test]
fn test_update() {
    let mock = script(&[
        ("update \"foo.mp3\"", "updating_db: 2\nOK\n"),
        ("update \"foo.mp3\"", "ACK [50@0] {update} blahblahblah"),
        ("update \"foo.mp3\"", "this makes no sense as a response"),
    ]);
    let mut cli = Client::new(mock).unwrap();
    assert_eq!(cli.update("foo.mp3").unwrap(), 2);
    let _val = cli.update("foo.mp3").unwrap_err();
    let _val = cli.update("foo.mp3").unwrap_err();
}

/// Test retrieving stored playlists
#[test]
fn test_get_stored_playlists() {
    let mock = script(&[
        (
            "listplaylists",
            "playlist: saturday-afternoons-in-santa-cruz
Last-Modified: 2020-03-13T17:20:16Z
playlist: gaelic-punk
Last-Modified: 2020-05-24T00:36:02Z
playlist: morning-coffee
Last-Modified: 2020-03-13T17:20:16Z
OK
",
        ),
        ("listplaylists", "ACK [1@0] {listplaylists} blahblahblah"),
    ]);

    let mut cli = Client::new(mock).unwrap();
    let val = cli.get_stored_playlists().unwrap();
    assert_eq!(
        val,
        vec![
            String::from("saturday-afternoons-in-santa-cruz"),
            String::from("gaelic-punk"),
            String::from("morning-coffee")
        ]
    );
    let _val = cli.get_stored_playlists().unwrap_err();
}

/// Some basic "smoke" tests
#[test]
fn test_get_messages() {
    let mock = script(&[(
        "readmessages",
        // If a ratings message is sent, we'll get: "changed: message\nOK\n", to which we
        // respond "readmessages", which should give us something like:
        //
        //     channel: ratings
        //     message: 255
        //     OK
        //
        // We remain subscribed, but we need to send a new idle message.
        "channel: ratings
message: 255
message: 128
channel: send-to-playlist
message: foo.m3u
OK
",
    )]);
    let mut cli = IdleClient::new(mock).unwrap();
    let hm = cli.get_messages().unwrap();
    let val = hm.get("ratings").unwrap();
    assert_eq!(val.len(), 2);
    let val = hm.get("send-to-playlist").unwrap();
    assert!(val.len() == 1);
}

/// Messages for a channel that is named twice are all delivered
#[test]
fn test_issue_1() {
    let mock = script(&[(
        "readmessages",
        "channel: playcounts
message: a
channel: playcounts
message: b
OK
",
    )]);
    let mut cli = IdleClient::new(mock).unwrap();
    let hm = cli.get_messages().unwrap();
    let val = hm.get("playcounts").unwrap();
    assert_eq!(val.len(), 2);
}

#[test]
fn quote_plain_and_special() {
    assert_eq!(quote("foo.mp3"), "foo.mp3");
    assert_eq!(quote("foo bar"), "\"foo bar\"");
    assert_eq!(quote("it's"), "\"it's\"");
    assert_eq!(quote("a\tb"), "\"a\tb\"");
    assert_eq!(quote("say \"hi\" \\ bye"), "\"say \\\"hi\\\" \\\\ bye\"");
    assert_eq!(quote("back\\slash"), "back\\slash");
    assert_eq!(quote(""), "");
}

#[test]
fn frames_end_in_a_newline() {
    assert_eq!(frame("status"), "status\n");
}

#[test]
fn responses_end_in_ok_or_ack() {
    assert!(response_complete(b"OK\n"));
    assert!(response_complete(b"volume: 1\nOK\n"));
    assert!(response_complete(b"ACK [50@0] {sticker} no such sticker\n"));
    assert!(!response_complete(b"volume: 1\n"));
    assert!(!response_complete(b"volume: 1\nOK"));
    assert!(!response_complete(b""));
}

#[test]
fn greetings() {
    assert_eq!(
        parse_connect_rsp(b"OK MPD 0.21.11\n".to_vec()).unwrap(),
        "0.21.11"
    );
    match parse_connect_rsp(b" go away \n".to_vec()) {
        Err(Error::Protocol { op, msg }) => {
            assert_eq!(op, Operation::Connect);
            assert_eq!(msg, "go away");
        }
        _ => panic!(),
    }
    match parse_connect_rsp(vec![0x4f, 0xff]) {
        Err(Error::Encoding { source }) => assert!(!source.is_empty()),
        _ => panic!(),
    }
    assert_eq!(response_text("schön".as_bytes().to_vec()).unwrap(), "schön");
}

#[test]
fn sticker_conversion_fails() {
    let mut cli = Client::new(script(&[(
        "sticker get song a rating",
        "sticker: rating=256\nOK\n",
    )]))
    .unwrap();
    match cli.get_sticker::<u8>("a", "rating") {
        Err(Error::StickerConversion { sticker, source }) => {
            assert_eq!(sticker, "rating");
            assert_eq!(source, ParseError::PosOverflow);
        }
        _ => panic!(),
    }
}

#[test]
fn io_errors_pass_through() {
    let mut cli = Client::new(script(&[])).unwrap();
    match cli.status() {
        Err(Error::Io { source }) => assert_eq!(source, "unexpected request"),
        _ => panic!(),
    }
}

#[test]
fn client_errors_are_reported() {
    let mut cli = Client::new(script(&[("add foo", "ACK [50@0] {add} No such directory\n")])).unwrap();
    let err = cli.add("foo").unwrap_err();
    assert!(err.message().contains("ACK [50@0] {add} No such directory"));
}

#[test]
fn finding_songs() {
    let mut cli = Client::new(script(&[
        (
            "find \"(base \\\"foo\\\")\"",
            "file: foo/a.mp3\nArtist: A\nfile: foo/b.mp3\nOK\n",
        ),
        ("search \"(base \\\"foo\\\")\"", "OK\n"),
        (
            "find \"(artist =~ \\\"x\\\")\"",
            "ACK [2@0] {find} Unknown filter operator\n",
        ),
        (
            "find \"(base '')\"",
            "file: foo/a.mp3\nfile: foo/b.mp3\nfile: bar/c.mp3\nOK\n",
        ),
    ]))
    .unwrap();
    assert_eq!(
        cli.find1("base", "\"foo\"", true).unwrap(),
        vec!["foo/a.mp3", "foo/b.mp3"]
    );
    assert!(cli.find1("base", "\"foo\"", false).unwrap().is_empty());
    assert!(cli.find2("artist", "=~", "\"x\"", true).is_err());
    assert_eq!(cli.get_all_songs().unwrap().len(), 3);
}

#[test]
fn all_stickers_of_a_name() {
    let mut cli = Client::new(script(&[
        (
            "sticker find song \"\" rating",
            "file: a.mp3\nsticker: rating=255\nfile: b/c.mp3\nsticker: rating=64\nOK\n",
        ),
        ("sticker find song \"\" rating", "ACK [1@0] {sticker} no\n"),
    ]))
    .unwrap();
    let m = cli.get_stickers("rating").unwrap();
    assert_eq!(m.len(), 2);
    assert_eq!(m.get("a.mp3").unwrap(), "255");
    assert_eq!(m.get("b/c.mp3").unwrap(), "64");
    assert!(cli.get_stickers("rating").is_err());
}

#[test]
fn waiting_for_changes() {
    let mut cli = IdleClient::new(script(&[
        ("subscribe ratings", "OK\n"),
        ("idle player message", "changed: player\nOK\n"),
        ("idle player message", "changed: MESSAGE\nOK\n"),
        ("idle player message", "changed: mixer\nOK\n"),
        ("idle player message", "changed: player"),
        ("subscribe ratings", "ACK no\n"),
    ]))
    .unwrap();
    cli.subscribe("ratings").unwrap();
    assert_eq!(cli.idle().unwrap(), IdleSubSystem::Player);
    assert_eq!(cli.idle().unwrap(), IdleSubSystem::Message);
    match cli.idle() {
        Err(Error::IdleSubSystem { text }) => assert_eq!(text, "mixer"),
        _ => panic!(),
    }
    assert!(cli.idle().is_err());
    assert!(cli.subscribe("ratings").is_err());
}

#[test]
fn messages_that_make_no_sense() {
    for reply in [
        "message: 255\nOK\n",
        "channel: ratings\nsplat\nOK\n",
        "channel: ratings\nOK\nmore\n",
    ] {
        let mut cli = IdleClient::new(script(&[("readmessages", reply)])).unwrap();
        match cli.get_messages() {
            Err(Error::Protocol { op, .. }) => assert_eq!(op, Operation::GetMessages),
            _ => panic!(),
        }
    }
}

#[test]
fn a_rating_that_was_set_is_retrieved() {
    let mut cli = Client::new(script(&[
        ("sticker set song a.mp3 rating 196", "OK\n"),
        ("sticker get song a.mp3 rating", "sticker: rating=196\nOK\n"),
    ]))
    .unwrap();
    mpdpopm::ratings::set_rating(&mut cli, "rating", "a.mp3", 196, "", &Vec::new(), "/music")
        .unwrap();
    assert_eq!(
        mpdpopm::ratings::get_rating(&mut cli, "rating", "a.mp3").unwrap(),
        196
    );
}

#[test]
fn the_order_of_lines_does_not_matter() {
    let track = ["file: a b.mp3", "Time: 9", "duration: 8.5", "OK", ""];
    let status = ["volume: 1", "state: pause", "songid: 7", "elapsed: 2.5", "OK", ""];
    for turn in 0..status.len() {
        let mut a = status.to_vec();
        a.rotate_left(turn);
        let mut b = track.to_vec();
        b.rotate_left(turn % track.len());
        let mut cli = Client::new(script(&[
            ("status", &a.join("\n")),
            ("playlistid 7", &b.join("\n")),
        ]))
        .unwrap();
        match cli.status().unwrap() {
            PlayerStatus::Pause(curr) => {
                assert_eq!(curr.songid, 7);
                assert_eq!(curr.file, "a b.mp3");
                assert_eq!(curr.elapsed, "2.5");
                assert_eq!(curr.duration, "8.5");
            }
            _ => panic!(),
        }
    }
    let mut cli = Client::new(script(&[
        ("status", "songid: x\nelapsed: y\nstate: stop\nOK\n"),
        ("status", "songid: 7\nelapsed: 1\nstate: plays\nOK\n"),
    ]))
    .unwrap();
    assert!(matches!(cli.status().unwrap(), PlayerStatus::Stopped));
    assert!(matches!(
        cli.status(),
        Err(Error::Protocol { op: Operation::Status, .. })
    ));
}
