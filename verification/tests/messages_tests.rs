//! Messages to the daemon.

use mpdpopm::clients::{quote, Client, CurrentSong, IdleClient, PlayerStatus};
use mpdpopm::commands::{FormalParameter, GeneralizedCommand, TaggedCommand, Update};
use mpdpopm::filters_ast::FilterStickerNames;
use mpdpopm::messages::{tokenize, Error, MessageProcessor};
use mpdpopm::mock::Mock;
use mpdpopm::ratings::{RatedTrack, RatingRequest};

fn script(convo: &[(&str, &str)]) -> Mock {
    Mock::new(
        convo
            .iter()
            .map(|(request, reply)| (request.to_string(), reply.to_string()))
            .collect(),
    )
}

fn client(convo: &[(&str, &str)]) -> Client<Mock> {
    Client::new(script(convo)).unwrap()
}

fn playing() -> PlayerStatus {
    PlayerStatus::Play(CurrentSong::new(
        7,
        String::from("now/playing.mp3"),
        String::from("1.0"),
        String::from("100.0"),
    ))
}

fn names() -> FilterStickerNames<'static> {
    FilterStickerNames::new("rating", "pc", "lp")
}

fn processor(ratings_cmd: &'static str, playcount_cmd: &'static str) -> MessageProcessor<'static> {
    MessageProcessor::new(
        "/music",
        "rating",
        ratings_cmd,
        vec![String::from("-r%rating"), String::from("%full-file")],
        "pc",
        playcount_cmd,
        vec![String::from("%playcount")],
        "lp",
        vec![(
            String::from("tag"),
            GeneralizedCommand::new(
                vec![FormalParameter::Literal, FormalParameter::Track],
                1,
                "/music",
                "/bin/tag",
                vec![String::from("%1"), String::from("%full-file")],
                Update::TrackOnly,
            ),
        )],
    )
}

fn run(msg: &str, convo: &[(&str, &str)], state: &PlayerStatus) -> Result<Option<TaggedCommand>, Error> {
    processor("/bin/rate", "").process(msg, &mut client(convo), state, &names())
}

#[test]
fn tokenize_smoke() {
    let x1 = tokenize(b"some-command").unwrap();
    assert_eq!(x1[0], b"some-command");

    let x2 = tokenize(b"a b").unwrap();
    assert_eq!(x2[0], b"a");
    assert_eq!(x2[1], b"b");

    let x3 = tokenize(b"a \"b c\"").unwrap();
    assert_eq!(x3[0], b"a");
    assert_eq!(x3[1], b"b c");

    let x4 = tokenize(b"a \"b c\" d").unwrap();
    assert_eq!(x4[0], b"a");
    assert_eq!(x4[1], b"b c");
    assert_eq!(x4[2], b"d");

    let x5 = tokenize(b"simple-command \"with space\" \"with '\"").unwrap();
    assert_eq!(x5[0], b"simple-command");
    assert_eq!(x5[1], b"with space");
    assert_eq!(x5[2], b"with '");

    let x6 = tokenize(b"cmd \"with\\\\slash and space\"").unwrap();
    assert_eq!(x6[0], b"cmd");
    assert_eq!(x6[1], b"with\\slash and space");

    let x7 = tokenize(b" cmd  \"with\\\\slash and space\"	").unwrap();
    assert_eq!(x7[0], b"cmd");
    assert_eq!(x7[1], b"with\\slash and space");
}

#[test]
fn tokenize_filter() {
    let x1 = tokenize(r#""(artist =~ \"foo\\\\bar\\\"\")""#.as_bytes()).unwrap();
    assert_eq!(1, x1.len());
    assert_eq!(
        std::str::from_utf8(&x1[0]).unwrap(),
        r#"(artist =~ "foo\\bar\"")"#
    );
}

#[test]
fn tokenizing_fails() {
    assert!(matches!(
        tokenize(b"a \"b"),
        Err(Error::NoClosingQuotes)
    ));
    assert!(matches!(
        tokenize(b"a \"b\\"),
        Err(Error::TrailingBackslash)
    ));
    assert!(matches!(
        tokenize(b"it's"),
        Err(Error::InvalidChar { c: 0x27 })
    ));
    assert!(matches!(tokenize(b"\""), Err(Error::NoClosingQuotes)));
    assert!(tokenize(b"").unwrap().is_empty());
    assert!(tokenize(b" \t ").unwrap().is_empty());
}

#[test]
fn tokenizing_undoes_quoting() {
    for text in ["plain", "two words", "it's", "a \"b\" \\c", "schön war's", "\u{65e5} \u{672c}"] {
        let tokens = tokenize(quote(text).as_bytes()).unwrap();
        assert_eq!(tokens.len(), 1);
        assert_eq!(std::str::from_utf8(&tokens[0]).unwrap(), text);
    }
}

#[test]
fn blanks_only_separate_tokens() {
    let tokens = tokenize(b" cmd  \"with\\\\slash and space\"\t").unwrap();
    assert_eq!(tokens, vec![b"cmd".to_vec(), b"with\\slash and space".to_vec()]);
    let tokens = tokenize(b"\t\"a b\"\t \tc\t\"\"\t").unwrap();
    assert_eq!(tokens, vec![b"a b".to_vec(), b"c".to_vec(), b"".to_vec()]);
}

#[test]
fn tokens_are_texts() {
    let tokens = tokenize("naïve \"caf\\é 日本\"x\\ü".as_bytes()).unwrap();
    let texts: Vec<String> = tokens
        .into_iter()
        .map(|token| String::from_utf8(token).unwrap())
        .collect();
    assert_eq!(texts, vec!["naïve", "café 日本", "x\\ü"]);
}

#[test]
fn rating_request_smoke() {
    let req = RatingRequest::try_from("*** foo bar splat.mp3").unwrap();
    assert_eq!(req.rating, 128);
    assert_eq!(req.track, RatedTrack::File(String::from("foo bar splat.mp3")));
    let req = RatingRequest::try_from("255").unwrap();
    assert_eq!(req.rating, 255);
    assert_eq!(req.track, RatedTrack::Current);
    let _req = RatingRequest::try_from("******").unwrap_err();
}

#[test]
fn stars() {
    for (text, rating) in [
        ("", 0),
        ("*", 1),
        ("**", 64),
        ("***", 128),
        ("****", 196),
        ("*****", 255),
        ("0", 0),
        ("77", 77),
    ] {
        assert_eq!(RatingRequest::try_from(text).unwrap().rating, rating);
    }
    assert!(RatingRequest::try_from("256").is_err());
    assert!(RatingRequest::try_from("-1").is_err());
    assert!(RatingRequest::try_from("five stars").is_err());
    // what looks like an offset is a track like any other
    assert_eq!(
        RatingRequest::try_from("5 1").unwrap().track,
        RatedTrack::File(String::from("1"))
    );
}

#[test]
fn rating_a_track() {
    let command = run(
        "rate ** a b.mp3",
        &[("sticker set song \"a b.mp3\" rating 64", "OK\n")],
        &PlayerStatus::Stopped,
    )
    .unwrap()
    .unwrap();
    assert_eq!(command.process.program, "/bin/rate");
    assert_eq!(command.process.args, vec!["-r64", "/music/a b.mp3"]);
    assert!(command.upd.is_none());

    let command = run(
        "rate 5",
        &[("sticker set song now/playing.mp3 rating 5", "OK\n")],
        &playing(),
    )
    .unwrap()
    .unwrap();
    assert_eq!(command.process.args, vec!["-r5", "/music/now/playing.mp3"]);

    assert!(matches!(
        run("rate 5", &[], &PlayerStatus::Stopped),
        Err(Error::PlayerStopped)
    ));
    assert!(matches!(
        run("rate 500 x", &[], &PlayerStatus::Stopped),
        Err(Error::Ratings { .. })
    ));
}

#[test]
fn setting_a_play_count() {
    assert!(run(
        "setpc 12 a b.mp3",
        &[("sticker set song \"a b.mp3\" pc 12", "OK\n")],
        &PlayerStatus::Stopped
    )
    .unwrap()
    .is_none());
    let command = processor("", "/bin/pc")
        .process(
            "setpc 3",
            &mut client(&[("sticker set song now/playing.mp3 pc 3", "OK\n")]),
            &playing(),
            &names(),
        )
        .unwrap()
        .unwrap();
    assert_eq!(command.process.args, vec!["3"]);
    assert!(matches!(
        run("setpc many", &[], &playing()),
        Err(Error::ExpectedInt { .. })
    ));
    assert!(matches!(
        run("setpc 1", &[], &PlayerStatus::Stopped),
        Err(Error::PlayerStopped)
    ));
    assert!(matches!(
        run("setpc 1 x", &[("sticker set song x pc 1", "ACK no\n")], &playing()),
        Err(Error::Playcount { .. })
    ));
}

#[test]
fn setting_a_last_played_time() {
    assert!(run(
        "setlp 1616812013 a.mp3",
        &[("sticker set song a.mp3 lp 1616812013", "OK\n")],
        &PlayerStatus::Stopped
    )
    .unwrap()
    .is_none());
    assert!(run(
        "setlp 0",
        &[("sticker set song now/playing.mp3 lp 0", "OK\n")],
        &playing()
    )
    .unwrap()
    .is_none());
}

#[test]
fn adding_songs() {
    assert!(run(
        "findadd \"(base \\\"foo\\\")\"",
        &[
            ("find \"(base \\\"foo\\\")\"", "file: a.mp3\nfile: b c.mp3\nOK\n"),
            ("add a.mp3", "OK\n"),
            ("add \"b c.mp3\"", "OK\n"),
        ],
        &playing()
    )
    .unwrap()
    .is_none());
    assert!(run(
        "searchadd \"(base \\\"foo\\\")\"",
        &[("search \"(base \\\"foo\\\")\"", "OK\n")],
        &playing()
    )
    .unwrap()
    .is_none());
    assert!(matches!(
        run("findadd \"(base foo)\"", &[], &playing()),
        Err(Error::FilterParseError { .. })
    ));
    assert!(matches!(
        run("findadd (rating>256)", &[], &playing()),
        Err(Error::Filter { .. })
    ));
    assert!(matches!(
        run(
            "findadd \"(base \\\"foo\\\")\"",
            &[
                ("find \"(base \\\"foo\\\")\"", "file: a.mp3\nOK\n"),
                ("add a.mp3", "ACK no\n"),
            ],
            &playing()
        ),
        Err(Error::Client { .. })
    ));
}

#[test]
fn general_commands() {
    let command = run("tag \"Classic Rock\" a.mp3", &[], &playing()).unwrap().unwrap();
    assert_eq!(command.process.program, "/bin/tag");
    assert_eq!(command.process.args, vec!["Classic Rock", "/music/a.mp3"]);
    assert_eq!(command.upd.unwrap(), "song /music/a.mp3");
    let command = run("tag Jazz", &[], &playing()).unwrap().unwrap();
    assert_eq!(command.process.args, vec!["Jazz", "/music/now/playing.mp3"]);
    assert!(matches!(
        run("tag", &[], &playing()),
        Err(Error::Command { .. })
    ));
    assert!(matches!(
        run("untag x", &[], &playing()),
        Err(Error::UnknownCommand { .. })
    ));
    assert!(matches!(run("", &[], &playing()), Err(Error::NoCommand)));
}

#[test]
fn reading_messages() {
    let mproc = processor("", "");
    let mut idle = IdleClient::new(script(&[(
        "readmessages",
        "channel: commands\nmessage: setlp 1 a.mp3\nmessage: tag Rock a.mp3\nOK\n",
    )]))
    .unwrap();
    let mut cmds = Vec::new();
    mproc
        .check_messages(
            &mut client(&[("sticker set song a.mp3 lp 1", "OK\n")]),
            &mut idle,
            &playing(),
            "commands",
            &mut cmds,
            &names(),
        )
        .unwrap();
    assert_eq!(cmds.len(), 1);
    assert_eq!(cmds[0].process.program, "/bin/tag");

    let mut idle = IdleClient::new(script(&[(
        "readmessages",
        "channel: other\nmessage: hi\nOK\n",
    )]))
    .unwrap();
    assert!(matches!(
        mproc.check_messages(
            &mut client(&[]),
            &mut idle,
            &playing(),
            "commands",
            &mut cmds,
            &names(),
        ),
        Err(Error::UnknownChannel { .. })
    ));
}

#[test]
fn message_errors_are_reported() {
    assert_eq!(
        run("untag x", &[], &playing()).unwrap_err().message(),
        "We received an unknown message ``untag''"
    );
    assert!(run("setpc many", &[], &playing())
        .unwrap_err()
        .message()
        .contains("invalid digit found in string"));
}
