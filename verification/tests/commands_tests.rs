//! Commands & replacement strings.

use mpdpopm::clients::{Client, CurrentSong, PlayerStatus};
use mpdpopm::collections::StringMap;
use mpdpopm::commands::{self, Error, FormalParameter, GeneralizedCommand, TaggedCommand, Update};
use mpdpopm::mock::Mock;
use mpdpopm::replstrings;

fn texts(v: &[&str]) -> Vec<String> {
    v.iter().map(|s| s.to_string()).collect()
}

fn client(convo: &[(&str, &str)]) -> Client<Mock> {
    Client::new(Mock::new(
        convo
            .iter()
            .map(|(request, reply)| (request.to_string(), reply.to_string()))
            .collect(),
    ))
    .unwrap()
}

fn paused() -> PlayerStatus {
    PlayerStatus::Pause(CurrentSong::new(
        7,
        String::from("now.mp3"),
        String::from("1.0"),
        String::from("100.0"),
    ))
}

fn command(formal: Vec<FormalParameter>, default_after: usize, args: &[&str], update: Update) -> GeneralizedCommand {
    GeneralizedCommand::new(formal, default_after, "/music", "/bin/cmd", texts(args), update)
}

fn run(c: &GeneralizedCommand, tokens: &[String], state: &PlayerStatus) -> Result<TaggedCommand, Error> {
    c.execute(tokens, state, "rating", "pc", "lp", &mut client(&[]))
}

#[test]
fn commands_test_process_replacements() {
    let mut p: StringMap<String> = StringMap::new();
    p.insert(String::from("rating"), String::from("255"));
    assert_eq!(
        "rating is 255",
        commands::process_replacements("rating is %rating", &p).unwrap()
    );
    p.insert(String::from("full-path"), String::from("has spaces"));
    assert_eq!(
        "\"has spaces\" has rating 255",
        commands::process_replacements("\"%full-path\" has rating %rating", &p).unwrap()
    );
}

#[test]
fn replstrings_test_process_replacements() {
    let mut p: StringMap<String> = StringMap::new();
    p.insert(String::from("rating"), String::from("255"));
    assert_eq!(
        "rating is 255",
        replstrings::process_replacements("rating is %rating", &p).unwrap()
    );
    p.insert(String::from("full-path"), String::from("has spaces"));
    assert_eq!(
        "\"has spaces\" has rating 255",
        replstrings::process_replacements("\"%full-path\" has rating %rating", &p).unwrap()
    );
}

#[test]
fn percent_signs() {
    let mut p: StringMap<String> = StringMap::new();
    p.insert(String::from("a"), String::from("x"));
    p.insert(String::from("1"), String::from("one"));
    assert_eq!(replstrings::process_replacements("100%%", &p).unwrap(), "100%");
    assert_eq!(replstrings::process_replacements("%%a", &p).unwrap(), "%a");
    assert_eq!(replstrings::process_replacements("<%a>", &p).unwrap(), "<x>");
    assert_eq!(replstrings::process_replacements("%1.mp3", &p).unwrap(), "one.mp3");
    assert_eq!(replstrings::process_replacements("", &p).unwrap(), "");
    // a name may be followed by anything that is not part of it
    assert_eq!(replstrings::process_replacements("%a%a", &p).unwrap(), "xx");
    assert_eq!(replstrings::process_replacements("%a%%", &p).unwrap(), "x%");
    assert_eq!(replstrings::process_replacements("%a%1%a.", &p).unwrap(), "xonex.");
    assert!(replstrings::process_replacements("%a%", &p).is_err());
    p.insert(String::from("rating"), String::from("255"));
    assert_eq!(replstrings::process_replacements("%rating%rating", &p).unwrap(), "255255");
    match replstrings::process_replacements("50%", &p) {
        Err(replstrings::Error::TrailingPercent { template }) => assert_eq!(template, "50%"),
        _ => panic!(),
    }
    match replstrings::process_replacements("%b", &p) {
        Err(replstrings::Error::UnknownParameter { param }) => assert_eq!(param, "b"),
        _ => panic!(),
    }
    assert_eq!(
        replstrings::process_replacements("%é-1", &p).unwrap_err().message(),
        "Unknown replacement parameter `é-1'"
    );
}

#[test]
fn parameters_that_are_named() {
    assert!(replstrings::names_parameter("%rating", "rating"));
    assert!(replstrings::names_parameter("x %full-file %rating", "rating"));
    assert!(!replstrings::names_parameter("%%rating", "rating"));
    assert!(!replstrings::names_parameter("%ratings", "rating"));
    assert!(!replstrings::names_parameter("rating%", "rating"));
    assert!(replstrings::names_parameter("%a%rating", "rating"));
}

#[test]
fn positions() {
    let c = command(
        vec![FormalParameter::Literal, FormalParameter::Track, FormalParameter::Literal],
        0,
        &["%1", "%2", "%3", "%full-file", "%current-file"],
        Update::NoUpdate,
    );
    let got = run(&c, &texts(&["x", "a.mp3", "z"]), &paused()).unwrap();
    assert_eq!(
        got.process.args,
        texts(&["x", "/music/a.mp3", "z", "/music/a.mp3", "/music/now.mp3"])
    );
    assert!(got.upd.is_none());
    let got = run(&c, &[], &paused()).unwrap();
    assert_eq!(
        got.process.args,
        texts(&["", "/music/now.mp3", "", "/music/now.mp3", "/music/now.mp3"])
    );
    // an absolute path stays as it is
    let got = run(&c, &texts(&["x", "/b.mp3"]), &paused()).unwrap();
    assert_eq!(got.process.args[1], "/b.mp3");
}

#[test]
fn parameters_may_be_defaulted_after_some_places() {
    let formal = || vec![FormalParameter::Literal, FormalParameter::Track];
    let c = command(formal(), 1, &["%1", "%2"], Update::NoUpdate);
    assert!(matches!(
        run(&c, &[], &paused()),
        Err(Error::MissingParameter { index: 1 })
    ));
    assert_eq!(
        run(&c, &texts(&["x"]), &paused()).unwrap().process.args,
        texts(&["x", "/music/now.mp3"])
    );
    let c = command(formal(), 2, &["%1", "%2"], Update::NoUpdate);
    assert!(matches!(
        run(&c, &texts(&["x"]), &paused()),
        Err(Error::MissingParameter { index: 2 })
    ));
}

#[test]
fn an_empty_track_is_the_current_one() {
    for default_after in [0, 1] {
        let c = command(
            vec![FormalParameter::Track, FormalParameter::Literal],
            default_after,
            &["%1", "%full-file", "%2"],
            Update::TrackOnly,
        );
        let tagged = run(&c, &texts(&["", "x"]), &paused()).unwrap();
        assert_eq!(tagged.process.args, texts(&["/music/now.mp3", "/music/now.mp3", "x"]));
        assert_eq!(tagged.upd, Some(String::from("song /music/now.mp3")));
        let tagged = run(&c, &texts(&["a.mp3", ""]), &paused()).unwrap();
        assert_eq!(tagged.process.args, texts(&["/music/a.mp3", "/music/a.mp3", ""]));
        assert!(matches!(
            run(&c, &texts(&["", "x"]), &PlayerStatus::Stopped),
            Err(Error::NoCurrentTrack)
        ));
    }
}

#[test]
fn command_errors() {
    let c = command(
        vec![FormalParameter::Track, FormalParameter::Track],
        0,
        &[],
        Update::NoUpdate,
    );
    assert!(matches!(
        run(&c, &texts(&["a", "b"]), &paused()),
        Err(Error::DuplicateTrackArgument { index: 2 })
    ));
    assert!(matches!(
        run(&c, &[], &PlayerStatus::Stopped),
        Err(Error::NoCurrentTrack)
    ));
    let c = command(vec![], 0, &[], Update::TrackOnly);
    assert!(matches!(
        run(&c, &[], &PlayerStatus::Stopped),
        Err(Error::NoTrackToUpdate)
    ));
    assert_eq!(run(&c, &[], &paused()).unwrap().upd.unwrap(), "song /music/now.mp3");
    let c = command(vec![], 0, &["%full-file"], Update::NoUpdate);
    match run(&c, &[], &paused()) {
        Err(Error::UnknownParameter { param }) => assert_eq!(param, "full-file"),
        _ => panic!(),
    }
    let c = command(vec![], 0, &["%"], Update::FullDatabase);
    assert!(matches!(
        run(&c, &[], &paused()),
        Err(Error::TrailingPercent { .. })
    ));
    let c = command(vec![], 0, &[], Update::FullDatabase);
    assert_eq!(run(&c, &[], &paused()).unwrap().upd.unwrap(), "");
    assert_eq!(
        Error::MissingParameter { index: 12 }.message(),
        "Missing actual parameter at index 12"
    );
}

#[test]
fn stickers_as_parameters() {
    let c = command(
        vec![FormalParameter::Track],
        0,
        &["%rating/%play-count/%last-played", "%full-file"],
        Update::NoUpdate,
    );
    let mut cli = client(&[
        ("sticker get song a.mp3 rating", "sticker: rating=64\nOK\n"),
        ("sticker get song a.mp3 pc", "ACK [50@0] {sticker} no such sticker\n"),
        ("sticker get song a.mp3 lp", "sticker: lp=1616812013\nOK\n"),
    ]);
    let got = c
        .execute(&texts(&["a.mp3"]), &paused(), "rating", "pc", "lp", &mut cli)
        .unwrap();
    assert_eq!(got.process.args, texts(&["64/0/1616812013", "/music/a.mp3"]));

    // only those that are used are retrieved
    let c = command(vec![FormalParameter::Track], 0, &["%play-count"], Update::NoUpdate);
    let mut cli = client(&[("sticker get song now.mp3 pc", "sticker: pc=3\nOK\n")]);
    let got = c.execute(&[], &paused(), "rating", "pc", "lp", &mut cli).unwrap();
    assert_eq!(got.process.args, texts(&["3"]));

    // without a track it is an error
    let c = command(vec![], 0, &["%rating"], Update::NoUpdate);
    match c.execute(&[], &paused(), "rating", "pc", "lp", &mut client(&[])) {
        Err(Error::UnknownParameter { param }) => assert_eq!(param, "rating"),
        _ => panic!(),
    }
    let c = command(vec![FormalParameter::Track], 0, &["%rating"], Update::NoUpdate);
    assert!(matches!(
        c.execute(&[], &paused(), "rating", "pc", "lp", &mut client(&[])),
        Err(Error::Client { .. })
    ));
}

#[test]
fn spawning_stops_at_the_first_bad_argument() {
    let p: StringMap<String> = StringMap::new();
    match commands::spawn("cmd", &texts(&["a", "%b", "%c"]), &p) {
        Err(Error::UnknownParameter { param }) => assert_eq!(param, "b"),
        _ => panic!(),
    }
    let process = commands::spawn("cmd", &texts(&["a", "%%"]), &p).unwrap();
    assert_eq!(process.program, "cmd");
    assert_eq!(process.args, texts(&["a", "%"]));
}
