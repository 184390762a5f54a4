//! Play counts.

use mpdpopm::clients::{Client, CurrentSong, PlayerStatus};
use mpdpopm::mock::Mock;
use mpdpopm::playcounts::{
    get_last_played, get_play_count, set_last_played, set_play_count, Error, PlayState, Progress,
};

use std::time::{Duration, SystemTime};

fn client(convo: &[(&str, &str)]) -> Client<Mock> {
    Client::new(Mock::new(
        convo
            .iter()
            .map(|(request, reply)| (request.to_string(), reply.to_string()))
            .collect(),
    ))
    .unwrap()
}

/// How far playback has got, the threshold being three fifths.
fn judge(last: &PlayerStatus, new: &PlayerStatus) -> Progress {
    let elapsed = |song: &CurrentSong| song.elapsed.parse::<f64>().unwrap();
    match new.current_song() {
        Some(curr) => {
            let pct = elapsed(curr) / curr.duration.parse::<f64>().unwrap();
            Progress {
                rewound: match last.current_song() {
                    Some(last) => elapsed(last) > elapsed(curr),
                    None => false,
                },
                near_start: pct <= 0.1,
                past_threshold: pct >= 0.6,
            }
        }
        None => Progress {
            rewound: false,
            near_start: false,
            past_threshold: false,
        },
    }
}

fn song(songid: u64, elapsed: &str) -> CurrentSong {
    CurrentSong::new(
        songid,
        String::from("a.mp3"),
        String::from(elapsed),
        String::from("100.0"),
    )
}

/// "Smoke" tests for play counts & last played times
#[test]
fn pc_smoke() {
    let mut cli = client(&[
        ("sticker get song a pc", "sticker: pc=11\nOK\n"),
        (
            "sticker get song a pc",
            "ACK [50@0] {sticker} no such sticker\n",
        ),
        ("sticker get song a pc", "splat!"),
    ]);

    assert_eq!(get_play_count(&mut cli, "pc", "a").unwrap().unwrap(), 11);
    let val = get_play_count(&mut cli, "pc", "a").unwrap();
    assert!(val.is_none());
    get_play_count(&mut cli, "pc", "a").unwrap_err();
}

fn since_epoch() -> Duration {
    SystemTime::now().duration_since(SystemTime::UNIX_EPOCH).unwrap()
}

/// "Smoke" tests for player state
#[test]
fn player_state_smoke() {
    let playlistid = "file: E/Enya - Wild Child.mp3
Last-Modified: 2008-11-09T00:06:30Z
Artist: Enya
Title: Wild Child
Album: A Day Without Rain (Japanese Retail)
Date: 2000
Genre: Celtic
Time: 228
duration: 227.637
Pos: 51
Id: 52
OK
";
    // The second must not pass while the test runs
    let mut now = since_epoch();
    while now.subsec_millis() > 300 {
        now = since_epoch();
    }
    let set_lp = format!(
        "sticker set song \"E/Enya - Wild Child.mp3\" lp {}",
        now.as_secs()
    );
    let mut cli = client(&[
        (
            "status",
            "repeat: 0
random: 1
single: 0
consume: 1
playlist: 2
playlistlength: 66
mixrampdb: 0.000000
state: stop
xfade: 5
song: 51
songid: 52
nextsong: 11
nextsongid: 12
OK
",
        ),
        (
            "status",
            "volume: 100
repeat: 0
random: 1
single: 0
consume: 1
playlist: 2
playlistlength: 66
mixrampdb: 0.000000
state: play
xfade: 5
song: 51
songid: 52
time: 5:228
elapsed: 5.337
bitrate: 192
duration: 227.637
audio: 44100:24:2
nextsong: 11
nextsongid: 12
OK
",
        ),
        ("playlistid 52", playlistid),
        (
            "status",
            "volume: 100
repeat: 0
random: 1
single: 0
consume: 1
playlist: 2
playlistlength: 66
mixrampdb: 0.000000
state: play
xfade: 5
song: 51
songid: 52
time: 5:228
elapsed: 200
bitrate: 192
duration: 227.637
audio: 44100:24:2
nextsong: 11
nextsongid: 12
OK
",
        ),
        ("playlistid 52", playlistid),
        (
            "sticker get song \"E/Enya - Wild Child.mp3\" pc",
            "sticker: pc=11\nOK\n",
        ),
        (&set_lp, "OK\n"),
        ("sticker set song \"E/Enya - Wild Child.mp3\" pc 12", "OK\n"),
    ]);

    let mut ps = PlayState::new(&mut cli, "pc", "lp").unwrap();
    let check = match ps.last_status() {
        PlayerStatus::Play(_) | PlayerStatus::Pause(_) => false,
        PlayerStatus::Stopped => true,
    };
    assert!(check);

    let args = vec!["a", "b", "c"]
        .iter()
        .map(|x| String::from(*x))
        .collect::<Vec<String>>();
    let check = match ps.update(&mut cli, judge, "", &args, "/music").unwrap() {
        Some(_) => false,
        None => true,
    };
    assert!(check);

    match ps
        .update(&mut cli, judge, "/bin/echo", &args, "/music")
        .unwrap()
    {
        Some(command) => {
            assert_eq!(command.process.program, "/bin/echo");
            assert_eq!(command.process.args.join(" "), "a b c");
            assert!(command.upd.is_none());
        }
        None => assert!(false),
    }
}

#[test]
fn a_play_is_counted_once() {
    let mut cli = client(&[
        ("status", "state: stop\nOK\n"),
        ("sticker get song a.mp3 pc", "ACK [50@0] {sticker} no such sticker\n"),
        ("sticker set song a.mp3 lp 99", "OK\n"),
        ("sticker set song a.mp3 pc 1", "OK\n"),
        ("sticker get song a.mp3 pc", "sticker: pc=1\nOK\n"),
        ("sticker set song a.mp3 lp 99", "OK\n"),
        ("sticker set song a.mp3 pc 2", "OK\n"),
    ]);
    let mut ps = PlayState::new(&mut cli, "pc", "lp").unwrap();
    let mut see = |new: PlayerStatus| {
        let progress = judge(&ps.last_status(), &new);
        ps.observe(
            &mut cli,
            new,
            progress,
            Ok(99),
            "/bin/pc",
            &vec![String::from("%playcount %full-file")],
            "/music",
        )
        .unwrap()
    };
    assert!(see(PlayerStatus::Play(song(1, "10.0"))).is_none());
    let command = see(PlayerStatus::Play(song(1, "60.0"))).unwrap();
    assert_eq!(command.process.args, vec!["1 /music/a.mp3"]);
    assert!(see(PlayerStatus::Play(song(1, "70.0"))).is_none());
    assert!(see(PlayerStatus::Pause(song(1, "70.0"))).is_none());
    // going back somewhat is not playing it again...
    assert!(see(PlayerStatus::Play(song(1, "65.0"))).is_none());
    assert!(see(PlayerStatus::Play(song(1, "99.0"))).is_none());
    // but going back to the start is
    assert!(see(PlayerStatus::Play(song(1, "5.0"))).is_none());
    let command = see(PlayerStatus::Play(song(1, "60.0"))).unwrap();
    assert_eq!(command.process.args, vec!["2 /music/a.mp3"]);
    assert!(see(PlayerStatus::Stopped).is_none());
    assert!(see(PlayerStatus::Pause(song(1, "99.0"))).is_none());
}

#[test]
fn counting_fails() {
    let due = Progress {
        rewound: false,
        near_start: false,
        past_threshold: true,
    };
    let none: Vec<String> = Vec::new();
    let mut cli = client(&[
        ("status", "state: stop\nOK\n"),
        ("sticker get song a.mp3 pc", "sticker: pc=1\nOK\n"),
        ("sticker get song a.mp3 pc", "splat"),
        ("sticker get song a.mp3 pc", "sticker: pc=1\nOK\n"),
        ("sticker set song a.mp3 lp 99", "OK\n"),
        ("sticker set song a.mp3 pc 2", "OK\n"),
    ]);
    let mut ps = PlayState::new(&mut cli, "pc", "lp").unwrap();
    let new = || PlayerStatus::Play(song(1, "60.0"));
    assert!(matches!(
        ps.observe(&mut cli, new(), due, Err(String::from("no clock")), "", &none, "/"),
        Err(Error::SystemTime { .. })
    ));
    assert!(matches!(
        ps.observe(&mut cli, new(), due, Ok(99), "", &none, "/"),
        Err(Error::Client { .. })
    ));
    // the status is not taken note of, so the play is still to be counted
    assert!(matches!(ps.last_status(), PlayerStatus::Stopped));
    assert!(ps
        .observe(&mut cli, new(), due, Ok(99), "", &none, "/")
        .unwrap()
        .is_none());
    assert!(matches!(ps.last_status(), PlayerStatus::Play(_)));
}

#[test]
fn a_refused_play_count_is_not_counted() {
    let due = Progress {
        rewound: false,
        near_start: false,
        past_threshold: true,
    };
    let bad = vec![String::from("%rating")];
    let mut cli = client(&[
        ("status", "state: stop\nOK\n"),
        ("sticker get song a.mp3 pc", "sticker: pc=1\nOK\n"),
        ("sticker set song a.mp3 lp 98", "OK\n"),
        ("sticker set song a.mp3 pc 2", "ACK no\n"),
        ("sticker get song a.mp3 pc", "sticker: pc=1\nOK\n"),
        ("sticker set song a.mp3 lp 99", "OK\n"),
        ("sticker set song a.mp3 pc 2", "OK\n"),
    ]);
    let mut ps = PlayState::new(&mut cli, "pc", "lp").unwrap();
    let pause = Progress { past_threshold: false, ..due };
    let none: Vec<String> = Vec::new();
    ps.observe(&mut cli, PlayerStatus::Play(song(1, "50.0")), pause, Ok(97), "", &none, "/").unwrap();
    assert!(matches!(
        ps.observe(&mut cli, PlayerStatus::Play(song(1, "60.0")), due, Ok(98), "", &none, "/"),
        Err(Error::Client { .. })
    ));
    // the play count is set this time, though the command cannot be put together
    assert!(matches!(
        ps.observe(&mut cli, PlayerStatus::Play(song(1, "65.0")), due, Ok(99), "/bin/pc", &bad, "/"),
        Err(Error::Command { .. })
    ));
    // so there is nothing left to be done
    assert!(ps
        .observe(&mut cli, PlayerStatus::Play(song(1, "70.0")), due, Ok(100), "", &none, "/")
        .unwrap()
        .is_none());
}

#[test]
fn setting_and_getting() {
    let mut cli = client(&[
        ("sticker set song a.mp3 pc 4", "OK\n"),
        ("sticker get song a.mp3 pc", "sticker: pc=4\nOK\n"),
        ("sticker set song a.mp3 lp 18446744073709551615", "OK\n"),
        (
            "sticker get song a.mp3 lp",
            "sticker: lp=18446744073709551615\nOK\n",
        ),
        ("sticker set song a.mp3 pc 5", "OK\n"),
    ]);
    let none: Vec<String> = Vec::new();
    assert!(set_play_count(&mut cli, "pc", "a.mp3", 4, "", &none, "/music")
        .unwrap()
        .is_none());
    assert_eq!(get_play_count(&mut cli, "pc", "a.mp3").unwrap(), Some(4));
    set_last_played(&mut cli, "lp", "a.mp3", u64::MAX).unwrap();
    assert_eq!(get_last_played(&mut cli, "lp", "a.mp3").unwrap(), Some(u64::MAX));
    let err = set_play_count(
        &mut cli,
        "pc",
        "a.mp3",
        5,
        "/bin/pc",
        &vec![String::from("%rating")],
        "/music",
    )
    .unwrap_err();
    assert_eq!(err.message(), "Command error: Unknown parameter ``rating''");
}
