//! Additional daemon commands that rely on [scribbu](https://github.com/sp1ff/scribbu).
//!
//! The daemon accepts commands and generally implements them in terms of
//! [mpd](https://www.musicpd.org/). The commands here are implemented by running a little utility that
//! edits tags.

use vstd::prelude::*;

use crate::clients;
use crate::clients::PlayerStatus;
use crate::commands::{Process, ProcessView, TaggedCommand, TaggedView};
use crate::text;

verus! {

/// Why a command could not be handled
#[derive(Debug)]
pub enum Error {
    /// The command is for the current track, & there is none
    PlayerStopped,
    /// The command has too many arguments
    BadCommand { cmd: String },
}

/// An [`Error`], as a mathematical value.
pub enum ErrorView {
    PlayerStopped,
    BadCommand { cmd: Seq<char> },
}

impl DeepView for Error {
    type V = ErrorView;

    open spec fn deep_view(&self) -> ErrorView {
        match self {
            Error::PlayerStopped => ErrorView::PlayerStopped,
            Error::BadCommand { cmd } => ErrorView::BadCommand { cmd: cmd@ },
        }
    }
}

/// The words in which an error is reported.
pub open spec fn error_message(e: ErrorView) -> Seq<char> {
    match e {
        ErrorView::PlayerStopped =>
            "Cannot apply a command to the current track when the player is stopped"@,
        ErrorView::BadCommand { cmd } => "Mal-formed command `"@ + cmd + "'"@,
    }
}

impl Error {
    /// The words in which the error is reported.
    pub fn message(&self) -> (r: String)
        ensures
            r@ == error_message(self.deep_view()),
    {
        match self {
            Error::PlayerStopped => text::owned(
                "Cannot apply a command to the current track when the player is stopped",
            ),
            Error::BadCommand { cmd } => text::join3("Mal-formed command `", cmd.as_str(), "'"),
        }
    }
}

/// The song that a command is for: its argument in place `i`, or else the current one. There is to be no
/// argument after that.
pub open spec fn song_spec(msg: Seq<char>, i: int, state: clients::StatusView) -> Result<
    Seq<char>,
    ErrorView,
> {
    let args = text::parts_of(msg);
    if args.len() > i + 1 {
        Err(ErrorView::BadCommand { cmd: msg })
    } else if args.len() > i {
        Ok(args[i])
    } else {
        match clients::song_of(state) {
            Some(curr) => Ok(curr.file),
            None => Err(ErrorView::PlayerStopped),
        }
    }
}

/// The song that a command is for.
fn song(msg: &str, args: &Vec<String>, i: usize, state: &PlayerStatus) -> (r: Result<String, Error>)
    requires
        text::texts(args@) == text::parts_of(msg@),
    ensures
        text::outcome(r) == song_spec(msg@, i as int, state.deep_view()),
{
    if args.len() > i {
        if args.len() - i > 1 {
            return Err(Error::BadCommand { cmd: text::owned(msg) });
        }
        assert(text::parts_of(msg@)[i as int] == args@[i as int]@);
        return Ok(args[i].clone());
    }
    match state.current_song() {
        Some(curr) => Ok(curr.file.clone()),
        None => Err(Error::PlayerStopped),
    }
}

/// Add a text to the arguments of a command.
fn arg(args: &mut Vec<String>, s: &str)
    ensures
        text::texts(final(args)@) == text::texts(old(args)@).push(s@),
{
    args.push(text::owned(s));
    assert(text::texts(args@) =~= text::texts(old(args)@).push(s@));
}

/// The path to a song.
pub open spec fn path_spec(music_dir: Seq<char>, song: Seq<char>) -> Seq<char> {
    music_dir + "/"@ + song
}

/// What comes of "setgenre GENRE( TRACK)?": the song's genre is set, & the song is updated when that is
/// done.
pub open spec fn genre_spec(msg: Seq<char>, state: clients::StatusView, music_dir: Seq<char>) -> Result<
    TaggedView,
    ErrorView,
> {
    match song_spec(msg, 1, state) {
        Err(e) => Err(e),
        Ok(song) => Ok(
            TaggedView {
                process: ProcessView {
                    program: "scribbu"@,
                    args: seq![
                        "genre"@,
                        "-a"@,
                        "-C"@,
                        "-g"@,
                        text::parts_of(msg)[0],
                        path_spec(music_dir, song),
                    ],
                },
                upd: Some(song),
            },
        ),
    }
}

/// "setgenre GENRE( TRACK)?"
pub fn set_genre(msg: &str, state: &PlayerStatus, music_dir: &str) -> (r: Result<
    TaggedCommand,
    Error,
>)
    ensures
        text::outcome(r) == genre_spec(msg@, state.deep_view(), music_dir@),
{
    let args = text::split(msg);
    let song = song(msg, &args, 1, state)?;
    // We'll invoke "scribbu genre -a -C -g <genre> <file>"
    let mut a: Vec<String> = Vec::new();
    arg(&mut a, "genre");
    arg(&mut a, "-a");
    arg(&mut a, "-C");
    arg(&mut a, "-g");
    arg(&mut a, args[0].as_str());
    arg(&mut a, text::join3(music_dir, "/", song.as_str()).as_str());
    proof {
        assert(text::parts_of(msg@)[0] == args@[0]@);
        assert(text::texts(a@) =~= seq![
            "genre"@,
            "-a"@,
            "-C"@,
            "-g"@,
            args@[0]@,
            path_spec(music_dir@, song@),
        ]);
    }
    // Update the DB when `set-genre' completes
    Ok(TaggedCommand::new(Process { program: text::owned("scribbu"), args: a }, Some(song)))
}

/// The option for the second argument of "setxtag": whether the tags are to be merged with those that
/// there are, or else to take their place.
pub open spec fn merge_option(args: Seq<Seq<char>>) -> Seq<Seq<char>> {
    if args.len() <= 1 {
        Seq::empty()
    } else if args[1] == "no"@ || args[1] == "0"@ || args[1] == "false"@ {
        seq!["-a"@]
    } else {
        seq!["-m"@]
    }
}

/// What comes of "setxtag URL-ENCODED-TAG-CLOUD( MERGE( TRACK)?)?": the song's tags are set; it need not
/// be updated.
pub open spec fn xtag_spec(msg: Seq<char>, state: clients::StatusView, music_dir: Seq<char>) -> Result<
    TaggedView,
    ErrorView,
> {
    match song_spec(msg, 2, state) {
        Err(e) => Err(e),
        Ok(song) => Ok(
            TaggedView {
                process: ProcessView {
                    program: "scribbu"@,
                    args: seq!["xtag"@, "-A"@] + merge_option(text::parts_of(msg)) + seq![
                        "-o"@,
                        "sp1ff@pobox.com"@,
                        "-T"@,
                        text::parts_of(msg)[0],
                        path_spec(music_dir, song),
                    ],
                },
                upd: None,
            },
        ),
    }
}

/// "setxtag URL-ENCODED-TAG-CLOUD( MERGE( TRACK)?)?"
pub fn set_xtag(msg: &str, state: &PlayerStatus, music_dir: &str) -> (r: Result<
    TaggedCommand,
    Error,
>)
    ensures
        text::outcome(r) == xtag_spec(msg@, state.deep_view(), music_dir@),
{
    let args = text::split(msg);
    let song = song(msg, &args, 2, state)?;
    let ghost all = text::parts_of(msg@);
    let mut a: Vec<String> = Vec::new();
    arg(&mut a, "xtag");
    arg(&mut a, "-A");
    if args.len() > 1 {
        assert(all[1] == args@[1]@);
        let merge = args[1].as_str();
        if text::same(merge, "no") || text::same(merge, "0") || text::same(merge, "false") {
            arg(&mut a, "-a");
        } else {
            arg(&mut a, "-m");
        }
    }
    assert(text::texts(a@) =~= seq!["xtag"@, "-A"@] + merge_option(all));
    let ghost start = text::texts(a@);
    arg(&mut a, "-o");
    arg(&mut a, "sp1ff@pobox.com");
    arg(&mut a, "-T");
    arg(&mut a, args[0].as_str());
    arg(&mut a, text::join3(music_dir, "/", song.as_str()).as_str());
    proof {
        assert(all[0] == args@[0]@);
        assert(text::texts(a@) =~= start + seq![
            "-o"@,
            "sp1ff@pobox.com"@,
            "-T"@,
            all[0],
            path_spec(music_dir@, song@),
        ]);
    }
    // No need to update the DB
    Ok(TaggedCommand::new(Process { program: text::owned("scribbu"), args: a }, None))
}

// ---------------------------------------------------------------------------------------------
// Laws
// ---------------------------------------------------------------------------------------------

/// Whether a text is a word: there is no whitespace in it.
pub open spec fn is_word(s: Seq<char>) -> bool {
    forall|i: int| 0 <= i < s.len() ==> !text::is_whitespace(#[trigger] s[i])
}

proof fn lemma_space(s: Seq<char>, i: int, j: int)
    requires
        0 <= i <= j <= s.len(),
        forall|k: int| i <= k < j ==> !text::is_whitespace(#[trigger] s[k]),
        j < s.len() ==> text::is_whitespace(s[j]),
    ensures
        text::space_from(s, i) == j,
    decreases j - i,
{
    if i < j {
        lemma_space(s, i + 1, j);
    }
}

/// The last part.
proof fn lemma_last_part(p: Seq<char>, w: Seq<char>)
    requires
        is_word(w),
    ensures
        text::parts_from(p + w, p.len() as int) == seq![w],
{
    let s = p + w;
    let i = p.len() as int;
    assert forall|k: int| i <= k < s.len() implies !text::is_whitespace(#[trigger] s[k]) by {
        assert(s[k] == w[k - i]);
    }
    lemma_space(s, i, s.len() as int);
    assert(s.skip(i) =~= w);
}

/// A part before others.
proof fn lemma_part(p: Seq<char>, w: Seq<char>, rest: Seq<char>)
    requires
        is_word(w),
    ensures
        text::parts_from(p + w + " "@ + rest, p.len() as int) == seq![w] + text::parts_from(
            p + w + " "@ + rest,
            (p.len() + w.len() + 1) as int,
        ),
{
    reveal_strlit(" ");
    let s = p + w + " "@ + rest;
    let i = p.len() as int;
    let j = i + w.len() as int;
    assert forall|k: int| i <= k < j implies !text::is_whitespace(#[trigger] s[k]) by {
        assert(s[k] == w[k - i]);
    }
    assert(s[j] == ' ');
    lemma_space(s, i, j);
    assert(s.subrange(i, j) =~= w);
}

/// What a message of up to three words is made of.
proof fn lemma_parts(a: Seq<char>, b: Seq<char>, c: Seq<char>)
    requires
        is_word(a),
        is_word(b),
        is_word(c),
    ensures
        text::parts_of(a) == seq![a],
        text::parts_of(a + " "@ + b) == seq![a, b],
        text::parts_of(a + " "@ + b + " "@ + c) == seq![a, b, c],
{
    reveal_strlit(" ");
    let none = Seq::<char>::empty();
    assert(none + a =~= a);
    lemma_last_part(none, a);
    let two = a + " "@ + b;
    lemma_part(none, a, b);
    assert(none + a + " "@ + b =~= two);
    lemma_last_part(a + " "@, b);
    assert(text::parts_of(two) =~= seq![a, b]);
    let three = a + " "@ + b + " "@ + c;
    lemma_part(none, a, b + " "@ + c);
    assert(none + a + " "@ + (b + " "@ + c) =~= three);
    lemma_part(a + " "@, b, c);
    lemma_last_part(a + " "@ + b + " "@, c);
    assert(text::parts_of(three) =~= seq![a, b, c]);
}

/// Setting a genre runs "scribbu" on the track given, or on the current one, with the genre given, & has
/// that track updated; with no track to set it for, or with one word too many, it does not.
pub proof fn law_genre(
    genre: Seq<char>,
    track: Seq<char>,
    more: Seq<char>,
    state: clients::StatusView,
    music_dir: Seq<char>,
)
    requires
        is_word(genre),
        is_word(track),
        is_word(more),
    ensures
        genre_spec(genre + " "@ + track, state, music_dir) matches Ok(r) && {
            &&& r.process.program == "scribbu"@
            &&& r.process.args == seq![
                "genre"@,
                "-a"@,
                "-C"@,
                "-g"@,
                genre,
                music_dir + "/"@ + track,
            ]
            &&& r.upd == Some(track)
        },
        clients::song_of(state) matches Some(song) ==> genre_spec(genre, state, music_dir) matches Ok(
            r,
        ) && {
            &&& r.process.program == "scribbu"@
            &&& r.process.args == seq![
                "genre"@,
                "-a"@,
                "-C"@,
                "-g"@,
                genre,
                music_dir + "/"@ + song.file,
            ]
            &&& r.upd == Some(song.file)
        },
        clients::song_of(state) is None ==> genre_spec(genre, state, music_dir) == Err::<
            TaggedView,
            ErrorView,
        >(ErrorView::PlayerStopped),
        genre_spec(genre + " "@ + track + " "@ + more, state, music_dir) is Err,
{
    lemma_parts(genre, track, more);
}

/// Setting tags runs "scribbu" on the track given, or on the current one, with the tags given. They are
/// merged with those that there are unless the second word says no; without a second word, nothing is said
/// of that. The track need not be updated.
pub proof fn law_xtag(
    tags: Seq<char>,
    merge: Seq<char>,
    track: Seq<char>,
    state: clients::StatusView,
    music_dir: Seq<char>,
)
    requires
        is_word(tags),
        is_word(merge),
        is_word(track),
    ensures
        ({
            let option = if merge == "no"@ || merge == "0"@ || merge == "false"@ {
                "-a"@
            } else {
                "-m"@
            };
            &&& xtag_spec(tags + " "@ + merge + " "@ + track, state, music_dir) matches Ok(r) && {
                &&& r.process.program == "scribbu"@
                &&& r.process.args == seq![
                    "xtag"@,
                    "-A"@,
                    option,
                    "-o"@,
                    "sp1ff@pobox.com"@,
                    "-T"@,
                    tags,
                    music_dir + "/"@ + track,
                ]
                &&& r.upd is None
            }
            &&& clients::song_of(state) matches Some(song) ==> xtag_spec(
                tags + " "@ + merge,
                state,
                music_dir,
            ) matches Ok(r) && {
                &&& r.process.program == "scribbu"@
                &&& r.process.args == seq![
                    "xtag"@,
                    "-A"@,
                    option,
                    "-o"@,
                    "sp1ff@pobox.com"@,
                    "-T"@,
                    tags,
                    music_dir + "/"@ + song.file,
                ]
                &&& r.upd is None
            }
            &&& clients::song_of(state) matches Some(song) ==> xtag_spec(tags, state, music_dir) matches Ok(
                r,
            ) && {
                &&& r.process.program == "scribbu"@
                &&& r.process.args == seq![
                    "xtag"@,
                    "-A"@,
                    "-o"@,
                    "sp1ff@pobox.com"@,
                    "-T"@,
                    tags,
                    music_dir + "/"@ + song.file,
                ]
                &&& r.upd is None
            }
            &&& clients::song_of(state) is None ==> xtag_spec(tags, state, music_dir) == Err::<
                TaggedView,
                ErrorView,
            >(ErrorView::PlayerStopped)
        }),
{
    lemma_parts(tags, merge, track);
    let option = if merge == "no"@ || merge == "0"@ || merge == "false"@ {
        "-a"@
    } else {
        "-m"@
    };
    let three = xtag_spec(tags + " "@ + merge + " "@ + track, state, music_dir)->Ok_0;
    assert(three.process.args =~= seq![
        "xtag"@,
        "-A"@,
        option,
        "-o"@,
        "sp1ff@pobox.com"@,
        "-T"@,
        tags,
        music_dir + "/"@ + track,
    ]);
    if let Some(song) = clients::song_of(state) {
        let two = xtag_spec(tags + " "@ + merge, state, music_dir)->Ok_0;
        assert(two.process.args =~= seq![
            "xtag"@,
            "-A"@,
            option,
            "-o"@,
            "sp1ff@pobox.com"@,
            "-T"@,
            tags,
            music_dir + "/"@ + song.file,
        ]);
        let one = xtag_spec(tags, state, music_dir)->Ok_0;
        assert(one.process.args =~= seq![
            "xtag"@,
            "-A"@,
            "-o"@,
            "sp1ff@pobox.com"@,
            "-T"@,
            tags,
            music_dir + "/"@ + song.file,
        ]);
    }
}

} // verus!
