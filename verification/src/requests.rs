//! What `mppopm' asks for, `mppopmd' does.

use vstd::prelude::*;

use crate::clients;
use crate::clients::{Session, StatusView};
use crate::filters;
use crate::filters_ast;
use crate::filters_ast::{Conjunction, Disjunction, Expression};
use crate::messages;
use crate::mppopm;
use crate::number;
use crate::protocol;
use crate::quoting;
use crate::ratings;
use crate::text;

verus! {

// ---------------------------------------------------------------------------------------------
// Words
// ---------------------------------------------------------------------------------------------

/// Whether a text is a word: it is not empty, & there is no whitespace in it.
pub open spec fn is_word(s: Seq<char>) -> bool {
    s.len() > 0 && forall|i: int| 0 <= i < s.len() ==> !text::is_whitespace(#[trigger] s[i])
}

/// Whether a text can name a track in a message: it is not empty, & does not end in whitespace.
pub open spec fn is_track(s: Seq<char>) -> bool {
    s.len() > 0 && !text::is_whitespace(s.last())
}

proof fn lemma_space_from(s: Seq<char>, i: int, j: int)
    requires
        0 <= i <= j <= s.len(),
        forall|k: int| i <= k < j ==> !text::is_whitespace(#[trigger] s[k]),
        j < s.len() ==> text::is_whitespace(s[j]),
    ensures
        text::space_from(s, i) == j,
    decreases j - i,
{
    if i < j {
        lemma_space_from(s, i + 1, j);
    }
}

/// A text that neither starts nor ends in whitespace is as it is when trimmed.
proof fn lemma_trimmed(s: Seq<char>)
    requires
        s.len() > 0,
        !text::is_whitespace(s[0]),
        !text::is_whitespace(s.last()),
    ensures
        text::trimmed(s) == s,
{
    assert(s.subrange(0, s.len() as int) =~= s);
}

/// A word & a track are the two parts of a message of both.
proof fn lemma_word_and_track(w: Seq<char>, track: Seq<char>)
    requires
        is_word(w),
        is_track(track),
    ensures
        text::trimmed(w + " "@ + track) == w + " "@ + track,
        text::split_word(w + " "@ + track) == (w, track),
{
    reveal_strlit(" ");
    let m = w + " "@ + track;
    assert(m[0] == w[0]);
    assert(m.last() == track.last());
    lemma_trimmed(m);
    assert forall|k: int| 0 <= k < w.len() implies !text::is_whitespace(#[trigger] m[k]) by {
        assert(m[k] == w[k]);
    }
    assert(m[w.len() as int] == ' ');
    lemma_space_from(m, 0, w.len() as int);
    assert(m.take(w.len() as int) =~= w);
    assert(m.skip(w.len() as int + 1) =~= track);
}

/// A word alone is the first part of a message.
proof fn lemma_word_alone(w: Seq<char>)
    requires
        is_word(w),
    ensures
        text::trimmed(w) == w,
        text::split_word(w) == (w, Seq::<char>::empty()),
{
    lemma_trimmed(w);
    lemma_space_from(w, 0, w.len() as int);
}

/// A number is written as a word.
proof fn lemma_decimal_word(n: nat)
    ensures
        is_word(number::decimal(n)),
{
    number::lemma_decimal(n);
    assert forall|i: int| 0 <= i < number::decimal(n).len() implies !text::is_whitespace(
        #[trigger] number::decimal(n)[i],
    ) by {
        assert(number::is_digit(number::decimal(n)[i]));
    }
}

/// What the daemon makes of a command word & what follows it.
proof fn lemma_dispatch(rest: Seq<char>)
    ensures
        text::after("rate "@ + rest, "rate "@) == Some(rest),
        text::after("setpc "@ + rest, "rate "@) is None,
        text::after("setpc "@ + rest, "setpc "@) == Some(rest),
        text::after("setlp "@ + rest, "rate "@) is None,
        text::after("setlp "@ + rest, "setpc "@) is None,
        text::after("setlp "@ + rest, "setlp "@) == Some(rest),
        text::after("findadd "@ + rest, "rate "@) is None,
        text::after("findadd "@ + rest, "setpc "@) is None,
        text::after("findadd "@ + rest, "setlp "@) is None,
        text::after("findadd "@ + rest, "findadd "@) == Some(rest),
        text::after("searchadd "@ + rest, "rate "@) is None,
        text::after("searchadd "@ + rest, "setpc "@) is None,
        text::after("searchadd "@ + rest, "setlp "@) is None,
        text::after("searchadd "@ + rest, "findadd "@) is None,
        text::after("searchadd "@ + rest, "searchadd "@) == Some(rest),
{
    reveal_strlit("rate ");
    reveal_strlit("setpc ");
    reveal_strlit("setlp ");
    reveal_strlit("findadd ");
    reveal_strlit("searchadd ");
    lemma_after("rate "@, rest);
    lemma_after("setpc "@, rest);
    lemma_after("setlp "@, rest);
    lemma_after("findadd "@, rest);
    lemma_after("searchadd "@, rest);
    lemma_not_after("setpc "@ + rest, "rate "@, 0);
    lemma_not_after("setlp "@ + rest, "rate "@, 0);
    lemma_not_after("setlp "@ + rest, "setpc "@, 3);
    lemma_not_after("findadd "@ + rest, "rate "@, 0);
    lemma_not_after("findadd "@ + rest, "setpc "@, 0);
    lemma_not_after("findadd "@ + rest, "setlp "@, 0);
    lemma_not_after("searchadd "@ + rest, "rate "@, 0);
    lemma_not_after("searchadd "@ + rest, "setpc "@, 2);
    lemma_not_after("searchadd "@ + rest, "setlp "@, 2);
    lemma_not_after("searchadd "@ + rest, "findadd "@, 0);
}

proof fn lemma_after(prefix: Seq<char>, rest: Seq<char>)
    ensures
        text::after(prefix + rest, prefix) == Some(rest),
{
    let s = prefix + rest;
    assert(s.subrange(0, prefix.len() as int) =~= prefix);
    assert(prefix.is_prefix_of(s));
    assert(s.skip(prefix.len() as int) =~= rest);
}

proof fn lemma_not_after(s: Seq<char>, prefix: Seq<char>, k: int)
    requires
        0 <= k < s.len(),
        k < prefix.len(),
        s[k] != prefix[k],
    ensures
        text::after(s, prefix) is None,
{
    if prefix.is_prefix_of(s) {
        assert(s.subrange(0, prefix.len() as int)[k] == prefix[k]);
    }
}

/// The names of the built-in commands.
pub open spec fn is_builtin(name: Seq<char>) -> bool {
    ||| name == "rate"@
    ||| name == "setpc"@
    ||| name == "setlp"@
    ||| name == "findadd"@
    ||| name == "searchadd"@
}

/// A message with arguments is not taken for another command.
proof fn lemma_other_command(args: Seq<Seq<char>>, word: Seq<char>)
    requires
        args.len() > 0,
        args.len() == 1 || args[0] != word,
        word.len() > 0,
        forall|k: int| 0 <= k < word.len() ==> !clients::wants_quotes(#[trigger] word[k]),
    ensures
        text::after(
            mppopm::command_message(args, args.len() as int),
            word + seq![' '],
        ) is None,
{
    let n = args.len() as int;
    let m = mppopm::command_message(args, n);
    let a = args[0];
    let p = word + seq![' '];
    let l = word.len() as int;
    if n > 1 {
        quoting::lemma_message_front(args, n);
        reveal_strlit(" ");
    }
    if p.is_prefix_of(m) {
        assert(m.subrange(0, p.len() as int) == p);
        assert(m[0] == p[0] && p[0] == word[0]) by {
            assert(m.subrange(0, p.len() as int)[0] == p[0]);
        }
        assert(m[l] == ' ') by {
            assert(m.subrange(0, p.len() as int)[l] == p[l]);
        }
        if clients::needs_quotes(a) {
            assert(clients::quoted(a)[0] == '"');
            assert(!clients::wants_quotes(word[0]));
        } else {
            assert(forall|k: int| 0 <= k < a.len() ==> !clients::wants_quotes(#[trigger] a[k]));
            if l < a.len() {
                assert(m[l] == a[l]);
            } else {
                assert(n > 1);
                assert(m[a.len() as int] == ' ');
                if a.len() < l {
                    assert(m.subrange(0, p.len() as int)[a.len() as int] == p[a.len() as int]);
                    assert(!clients::wants_quotes(word[a.len() as int]));
                } else {
                    assert forall|k: int| 0 <= k < l implies a[k] == word[k] by {
                        assert(m.subrange(0, p.len() as int)[k] == p[k]);
                        assert(m[k] == a[k]);
                    }
                    assert(a =~= word);
                }
            }
        }
    }
}

proof fn lemma_same_selection(
    a: Expression,
    b: Expression,
    case: bool,
    names: filters_ast::NamesView,
    s: Session,
)
    requires
        filters::same(a, b),
    ensures
        filters_ast::eval_spec(a, case, names, s) == filters_ast::eval_spec(b, case, names, s),
    decreases a,
{
    match (a, b) {
        (Expression::Negation(e), Expression::Negation(f)) => {
            lemma_same_selection(*e, *f, case, names, s);
        },
        (Expression::Conjunction(c), Expression::Conjunction(d)) => {
            lemma_same_conjunction(*c, *d, case, names, s);
        },
        (Expression::Disjunction(c), Expression::Disjunction(d)) => {
            lemma_same_disjunction(*c, *d, case, names, s);
        },
        _ => {},
    }
}

proof fn lemma_same_conjunction(
    a: Conjunction,
    b: Conjunction,
    case: bool,
    names: filters_ast::NamesView,
    s: Session,
)
    requires
        filters::same_conj(a, b),
    ensures
        filters_ast::conj_spec(a, case, names, s) == filters_ast::conj_spec(b, case, names, s),
    decreases a,
{
    match (a, b) {
        (Conjunction::Simple(l, r), Conjunction::Simple(m, q)) => {
            lemma_same_selection(*l, *m, case, names, s);
            lemma_same_selection(
                *r,
                *q,
                case,
                names,
                filters_ast::eval_spec(*l, case, names, s).1,
            );
        },
        (Conjunction::Compound(c, e), Conjunction::Compound(d, f)) => {
            lemma_same_conjunction(*c, *d, case, names, s);
            lemma_same_selection(
                *e,
                *f,
                case,
                names,
                filters_ast::conj_spec(*c, case, names, s).1,
            );
        },
        _ => {},
    }
}

proof fn lemma_same_disjunction(
    a: Disjunction,
    b: Disjunction,
    case: bool,
    names: filters_ast::NamesView,
    s: Session,
)
    requires
        filters::same_disj(a, b),
    ensures
        filters_ast::disj_spec(a, case, names, s) == filters_ast::disj_spec(b, case, names, s),
    decreases a,
{
    match (a, b) {
        (Disjunction::Simple(l, r), Disjunction::Simple(m, q)) => {
            lemma_same_selection(*l, *m, case, names, s);
            lemma_same_selection(
                *r,
                *q,
                case,
                names,
                filters_ast::eval_spec(*l, case, names, s).1,
            );
        },
        (Disjunction::Compound(c, e), Disjunction::Compound(d, f)) => {
            lemma_same_disjunction(*c, *d, case, names, s);
            lemma_same_selection(
                *e,
                *f,
                case,
                names,
                filters_ast::disj_spec(*c, case, names, s).1,
            );
        },
        _ => {},
    }
}

// ---------------------------------------------------------------------------------------------
// Laws
// ---------------------------------------------------------------------------------------------

/// A rating given as a number is that number, alone or before a track: the request that is read from it has it.
pub proof fn law_numeric_rating(n: u8, track: Option<Seq<char>>)
    requires
        track matches Some(uri) ==> is_track(uri),
    ensures
        ({
            let word = number::decimal(n as nat);
            match track {
                Some(uri) => ratings::request_spec(word + " "@ + uri) == Ok::<
                    ratings::RequestView,
                    ratings::ErrorView,
                >(ratings::RequestView { rating: n, track: ratings::TrackView::File(uri) }),
                None => ratings::request_spec(word) == Ok::<
                    ratings::RequestView,
                    ratings::ErrorView,
                >(ratings::RequestView { rating: n, track: ratings::TrackView::Current }),
            }
        }),
{
    let word = number::decimal(n as nat);
    lemma_decimal_word(n as nat);
    number::lemma_decimal(n as nat);
    number::law_parsed_decimal(n as nat, 255);
    assert(number::is_digit(word[0]));
    reveal_strlit("*");
    reveal_strlit("**");
    reveal_strlit("***");
    reveal_strlit("****");
    reveal_strlit("*****");
    match track {
        Some(uri) => lemma_word_and_track(word, uri),
        None => lemma_word_alone(word),
    }
}

/// When `mppopm' is told to rate a track, `mppopmd' rates that track; without a track, it rates the current
/// one.
pub proof fn law_rate(
    p: messages::ProcessorView,
    rating: Seq<char>,
    n: u8,
    track: Option<Seq<char>>,
    state: StatusView,
    names: filters_ast::NamesView,
    s: Session,
    r: (messages::Response, Session),
)
    requires
        is_word(rating),
        ratings::rating_spec(rating) == Ok::<u8, ratings::ErrorView>(n),
        track matches Some(uri) ==> is_track(uri),
        messages::is_response(
            p,
            mppopm::set_message("rate "@, rating, track),
            state,
            names,
            s,
            r,
        ),
    ensures
        r == (match messages::track_of(track.unwrap_or(Seq::empty()), state) {
            Ok(file) => messages::rated_spec(p, file, n, s),
            Err(e) => (Err(e), s),
        }),
{
    match track {
        Some(uri) => {
            let rest = rating + " "@ + uri;
            assert("rate "@ + rating + " "@ + uri =~= "rate "@ + rest);
            lemma_dispatch(rest);
            lemma_word_and_track(rating, uri);
        },
        None => {
            lemma_dispatch(rating);
            lemma_word_alone(rating);
        },
    }
}

/// When `mppopm' is told to set the play count of a track, `mppopmd' sets that track's to the number given;
/// without a track, it sets the current one's.
pub proof fn law_setpc(
    p: messages::ProcessorView,
    pc: usize,
    track: Option<Seq<char>>,
    state: StatusView,
    names: filters_ast::NamesView,
    s: Session,
    r: (messages::Response, Session),
)
    requires
        track matches Some(uri) ==> is_track(uri),
        messages::is_response(
            p,
            mppopm::set_message("setpc "@, number::decimal(pc as nat), track),
            state,
            names,
            s,
            r,
        ),
    ensures
        r == (match messages::track_of(track.unwrap_or(Seq::empty()), state) {
            Ok(file) => messages::counted_spec(p, file, pc, s),
            Err(e) => (Err(e), s),
        }),
{
    let word = number::decimal(pc as nat);
    lemma_decimal_word(pc as nat);
    number::law_parsed_decimal(pc as nat, usize::MAX as int);
    match track {
        Some(uri) => {
            let rest = word + " "@ + uri;
            assert("setpc "@ + word + " "@ + uri =~= "setpc "@ + rest);
            lemma_dispatch(rest);
            lemma_word_and_track(word, uri);
        },
        None => {
            lemma_dispatch(word);
            lemma_word_alone(word);
        },
    }
}

/// When `mppopm' is told to set the last played time of a track, `mppopmd' sets that track's to the time
/// given; without a track, it sets the current one's.
pub proof fn law_setlp(
    p: messages::ProcessorView,
    lp: u64,
    track: Option<Seq<char>>,
    state: StatusView,
    names: filters_ast::NamesView,
    s: Session,
    r: (messages::Response, Session),
)
    requires
        track matches Some(uri) ==> is_track(uri),
        messages::is_response(
            p,
            mppopm::set_message("setlp "@, number::decimal(lp as nat), track),
            state,
            names,
            s,
            r,
        ),
    ensures
        r == (match messages::track_of(track.unwrap_or(Seq::empty()), state) {
            Ok(file) => messages::played_spec(p, file, lp, s),
            Err(e) => (Err(e), s),
        }),
{
    let word = number::decimal(lp as nat);
    lemma_decimal_word(lp as nat);
    number::law_parsed_decimal(lp as nat, u64::MAX as int);
    match track {
        Some(uri) => {
            let rest = word + " "@ + uri;
            assert("setlp "@ + word + " "@ + uri =~= "setlp "@ + rest);
            lemma_dispatch(rest);
            lemma_word_and_track(word, uri);
        },
        None => {
            lemma_dispatch(word);
            lemma_word_alone(word);
        },
    }
}

/// When `mppopm' is told to add the songs that a filter selects, `mppopmd' evaluates just that filter,
/// heeding case if & only if it was told to.
pub proof fn law_findadd(
    p: messages::ProcessorView,
    filter: Seq<char>,
    case: bool,
    state: StatusView,
    names: filters_ast::NamesView,
    s: Session,
    r: (messages::Response, Session),
)
    requires
        quoting::carries(filter),
    ensures
        messages::is_response(p, mppopm::findadd_message(filter, case), state, names, s, r)
            <==> messages::is_filtering(filter, case, names, s, r),
{
    lemma_dispatch(clients::quoted(filter));
    quoting::law_quoted_argument(filter);
}

/// When `mppopm' is told to send a command that is not built-in, `mppopmd' invokes the general command of
/// that name with just the arguments given.
pub proof fn law_command(
    p: messages::ProcessorView,
    args: Seq<Seq<char>>,
    state: StatusView,
    names: filters_ast::NamesView,
    s: Session,
    r: (messages::Response, Session),
)
    requires
        args.len() > 0,
        forall|k: int| 0 <= k < args.len() ==> quoting::carries(#[trigger] args[k]),
        args.len() == 1 || !is_builtin(args[0]),
        messages::is_response(
            p,
            mppopm::command_message(args, args.len() as int),
            state,
            names,
            s,
            r,
        ),
    ensures
        r == messages::invoked_spec(p, args, state, s),
{
    quoting::law_quoted_arguments(args);
    reveal_strlit("rate ");
    reveal_strlit("setpc ");
    reveal_strlit("setlp ");
    reveal_strlit("findadd ");
    reveal_strlit("searchadd ");
    reveal_strlit("rate");
    reveal_strlit("setpc");
    reveal_strlit("setlp");
    reveal_strlit("findadd");
    reveal_strlit("searchadd");
    assert("rate "@ =~= "rate"@ + seq![' ']);
    assert("setpc "@ =~= "setpc"@ + seq![' ']);
    assert("setlp "@ =~= "setlp"@ + seq![' ']);
    assert("findadd "@ =~= "findadd"@ + seq![' ']);
    assert("searchadd "@ =~= "searchadd"@ + seq![' ']);
    lemma_other_command(args, "rate"@);
    lemma_other_command(args, "setpc"@);
    lemma_other_command(args, "setlp"@);
    lemma_other_command(args, "findadd"@);
    lemma_other_command(args, "searchadd"@);
}

/// What comes of a filter is settled by the filter & the server, unless there is a timestamp without a time
/// zone in it.
pub proof fn law_one_outcome(
    filter: Seq<char>,
    case: bool,
    names: filters_ast::NamesView,
    s: Session,
    a: (messages::Response, Session),
    b: (messages::Response, Session),
)
    requires
        filters::tokens_of(filter) matches Some(t) ==> filters::settled(t),
        messages::is_filtering(filter, case, names, s, a),
        messages::is_filtering(filter, case, names, s, b),
    ensures
        a == b,
{
    if exists|e: Expression| filters::is_filter(filter, e) {
        let t = filters::tokens_of(filter)->0;
        let e = choose|e: Expression| #[trigger]
            filters::is_filter(filter, e) && a == messages::add_found_spec(e, case, names, s);
        let f = choose|e: Expression| #[trigger]
            filters::is_filter(filter, e) && b == messages::add_found_spec(e, case, names, s);
        filters::law_unambiguous(t, e, f);
        lemma_same_selection(e, f, case, names, s);
    }
}

/// What a message that sets something of a track asks of the server: one request, which sets the sticker of
/// that track, or of the current one, to the number given.
pub open spec fn sets_sticker(
    s: Session,
    after: Session,
    track: Option<Seq<char>>,
    state: StatusView,
    sticker: Seq<char>,
    n: nat,
) -> bool {
    let file = match track {
        Some(uri) => Some(uri),
        None => match clients::song_of(state) {
            Some(song) => Some(song.file),
            None => None,
        },
    };
    match file {
        Some(file) => {
            &&& after.server == s.server
            &&& after.sent.len() == s.sent.len() + 1
            &&& after.sent.drop_last() == s.sent
            &&& quoting::carries(file) && quoting::carries(sticker) ==> protocol::says(
                after.sent.last(),
                seq!["sticker"@, "set"@, "song"@, file, sticker, number::decimal(n)],
            )
        },
        None => after == s,
    }
}

proof fn lemma_sets_sticker(
    s: Session,
    track: Option<Seq<char>>,
    state: StatusView,
    file: Seq<char>,
    sticker: Seq<char>,
    n: nat,
)
    requires
        track matches Some(uri) ==> file == uri,
        track is None ==> (clients::song_of(state) matches Some(song) && song.file == file),
    ensures
        sets_sticker(
            s,
            clients::set_sticker_spec(s, file, sticker, number::decimal(n)).1,
            track,
            state,
            sticker,
            n,
        ),
{
    let after = clients::set_sticker_spec(s, file, sticker, number::decimal(n)).1;
    assert(after.sent.drop_last() =~= s.sent);
    protocol::lemma_decimal_bare(n);
    protocol::lemma_bare(number::decimal(n));
    if quoting::carries(file) && quoting::carries(sticker) {
        protocol::law_set_sticker_request(file, sticker, number::decimal(n));
    }
}

/// When `mppopm' is told to rate a track with a number, that number is what `mppopmd' has the server keep
/// in the rating's sticker of that track, or of the current one; if there is none, it asks nothing.
pub proof fn law_rate_kept(
    p: messages::ProcessorView,
    n: u8,
    track: Option<Seq<char>>,
    state: StatusView,
    names: filters_ast::NamesView,
    s: Session,
    r: (messages::Response, Session),
)
    requires
        track matches Some(uri) ==> is_track(uri),
        messages::is_response(
            p,
            mppopm::set_message("rate "@, number::decimal(n as nat), track),
            state,
            names,
            s,
            r,
        ),
    ensures
        sets_sticker(s, r.1, track, state, p.rating_sticker, n as nat),
        track is None && clients::song_of(state) is None ==> r.0 == Err::<
            Option<crate::commands::TaggedView>,
            messages::ErrorView,
        >(messages::ErrorView::PlayerStopped),
{
    let word = number::decimal(n as nat);
    lemma_decimal_word(n as nat);
    law_numeric_rating(n, track);
    match track {
        Some(uri) => lemma_word_and_track(word, uri),
        None => lemma_word_alone(word),
    }
    law_rate(p, word, n, track, state, names, s, r);
    if let Ok(file) = messages::track_of(track.unwrap_or(Seq::empty()), state) {
        lemma_sets_sticker(s, track, state, file, p.rating_sticker, n as nat);
    }
}

/// When `mppopm' is told to set the play count of a track, that is what `mppopmd' has the server keep in
/// the play count's sticker of that track, or of the current one; if there is none, it asks nothing.
pub proof fn law_setpc_kept(
    p: messages::ProcessorView,
    pc: usize,
    track: Option<Seq<char>>,
    state: StatusView,
    names: filters_ast::NamesView,
    s: Session,
    r: (messages::Response, Session),
)
    requires
        track matches Some(uri) ==> is_track(uri),
        messages::is_response(
            p,
            mppopm::set_message("setpc "@, number::decimal(pc as nat), track),
            state,
            names,
            s,
            r,
        ),
    ensures
        sets_sticker(s, r.1, track, state, p.playcount_sticker, pc as nat),
        track is None && clients::song_of(state) is None ==> r.0 == Err::<
            Option<crate::commands::TaggedView>,
            messages::ErrorView,
        >(messages::ErrorView::PlayerStopped),
{
    law_setpc(p, pc, track, state, names, s, r);
    if let Ok(file) = messages::track_of(track.unwrap_or(Seq::empty()), state) {
        lemma_sets_sticker(s, track, state, file, p.playcount_sticker, pc as nat);
    }
}

/// When `mppopm' is told to set the last played time of a track, that is what `mppopmd' has the server keep
/// in the last played time's sticker of that track, or of the current one; if there is none, it asks
/// nothing.
pub proof fn law_setlp_kept(
    p: messages::ProcessorView,
    lp: u64,
    track: Option<Seq<char>>,
    state: StatusView,
    names: filters_ast::NamesView,
    s: Session,
    r: (messages::Response, Session),
)
    requires
        track matches Some(uri) ==> is_track(uri),
        messages::is_response(
            p,
            mppopm::set_message("setlp "@, number::decimal(lp as nat), track),
            state,
            names,
            s,
            r,
        ),
    ensures
        sets_sticker(s, r.1, track, state, p.lastplayed_sticker, lp as nat),
        track is None && clients::song_of(state) is None ==> r.0 == Err::<
            Option<crate::commands::TaggedView>,
            messages::ErrorView,
        >(messages::ErrorView::PlayerStopped),
{
    law_setlp(p, lp, track, state, names, s, r);
    if let Ok(file) = messages::track_of(track.unwrap_or(Seq::empty()), state) {
        lemma_sets_sticker(s, track, state, file, p.lastplayed_sticker, lp as nat);
    }
}

/// Stars stand for ratings, alone or before a track, as Winamp has them.
pub proof fn law_star_rating(stars: nat, track: Option<Seq<char>>)
    requires
        1 <= stars <= 5,
        track matches Some(uri) ==> is_track(uri),
    ensures
        ({
            let word = Seq::new(stars, |i: int| '*');
            let msg = match track {
                Some(uri) => word + " "@ + uri,
                None => word,
            };
            ratings::request_spec(msg) matches Ok(req) && {
                &&& req.track == (match track {
                    Some(uri) => ratings::TrackView::File(uri),
                    None => ratings::TrackView::Current,
                })
                &&& stars == 1 ==> req.rating == 1
                &&& stars == 2 ==> req.rating == 64
                &&& stars == 3 ==> req.rating == 128
                &&& stars == 4 ==> req.rating == 196
                &&& stars == 5 ==> req.rating == 255
            }
        }),
{
    let word = Seq::new(stars, |i: int| '*');
    ratings::law_stars(stars);
    match track {
        Some(uri) => lemma_word_and_track(word, uri),
        None => lemma_word_alone(word),
    }
}

/// Any whitespace may stand between a rating & a track, & around them.
pub proof fn law_any_whitespace(word: Seq<char>, c: char, track: Seq<char>, lead: char, trail: char)
    requires
        is_word(word),
        is_track(track),
        text::is_whitespace(c),
        text::is_whitespace(lead),
        text::is_whitespace(trail),
    ensures
        ratings::request_spec(word.push(c) + track) == ratings::request_spec(word + " "@ + track),
        ratings::request_spec(seq![lead] + word + " "@ + track + seq![trail])
            == ratings::request_spec(word + " "@ + track),
        text::is_whitespace(' '),
        text::is_whitespace('\t'),
        text::is_whitespace('\n'),
{
    reveal_strlit(" ");
    let m = word.push(c) + track;
    assert(m[0] == word[0]);
    assert(m.last() == track.last());
    lemma_trimmed(m);
    assert forall|k: int| 0 <= k < word.len() implies !text::is_whitespace(#[trigger] m[k]) by {
        assert(m[k] == word[k]);
    }
    assert(m[word.len() as int] == c);
    lemma_space_from(m, 0, word.len() as int);
    assert(m.take(word.len() as int) =~= word);
    assert(m.skip(word.len() as int + 1) =~= track);
    lemma_word_and_track(word, track);
    let inner = word + " "@ + track;
    let outer = seq![lead] + word + " "@ + track + seq![trail];
    assert(outer[0] == lead && outer[1] == word[0]);
    assert(outer.last() == trail);
    assert(outer[outer.len() - 2] == track.last());
    reveal_with_fuel(text::word_from, 2);
    reveal_with_fuel(text::word_end, 2);
    assert(text::word_from(outer, 0) == 1);
    assert(text::word_end(outer, outer.len() as int) == outer.len() - 1);
    assert(outer.subrange(1, outer.len() - 1) =~= inner);
}

/// When `mppopm' is told to rate a track, the command that is configured for that is run for the track,
/// with the number given, if the server grants what is asked of it; if it does not, the message fails.
pub proof fn law_rate_runs(
    p: messages::ProcessorView,
    n: u8,
    track: Option<Seq<char>>,
    state: StatusView,
    names: filters_ast::NamesView,
    s: Session,
    r: (messages::Response, Session),
)
    requires
        track matches Some(uri) ==> is_track(uri),
        track is Some || clients::song_of(state) is Some,
        messages::is_response(
            p,
            mppopm::set_message("rate "@, number::decimal(n as nat), track),
            state,
            names,
            s,
            r,
        ),
    ensures
        ({
            let file = match track {
                Some(uri) => uri,
                None => clients::song_of(state)->0.file,
            };
            let request = clients::set_sticker_request(
                file,
                p.rating_sticker,
                number::decimal(n as nat),
            );
            &&& r.0 matches Ok(command) ==> ratings::granted(s, request) && ratings::is_run_for(
                command,
                p.ratings_cmd,
                p.ratings_cmd_args,
                crate::paths::joined(p.music_dir, file),
                "rating"@,
                n as nat,
            )
            &&& ratings::granted(s, request) && ratings::are_simple(
                p.ratings_cmd_args,
                "rating"@,
            ) ==> r.0 is Ok
        }),
{
    let file = match track {
        Some(uri) => uri,
        None => clients::song_of(state)->0.file,
    };
    let word = number::decimal(n as nat);
    lemma_decimal_word(n as nat);
    law_numeric_rating(n, track);
    match track {
        Some(uri) => lemma_word_and_track(word, uri),
        None => lemma_word_alone(word),
    }
    law_rate(p, word, n, track, state, names, s, r);
    ratings::law_rated(
        s,
        p.rating_sticker,
        file,
        n,
        p.ratings_cmd,
        p.ratings_cmd_args,
        p.music_dir,
    );
}

/// When `mppopm' is told to set the play count of a track, the command that is configured for that is run
/// for the track, with the number given, if the server grants what is asked of it; if it does not, the
/// message fails.
pub proof fn law_setpc_runs(
    p: messages::ProcessorView,
    n: usize,
    track: Option<Seq<char>>,
    state: StatusView,
    names: filters_ast::NamesView,
    s: Session,
    r: (messages::Response, Session),
)
    requires
        track matches Some(uri) ==> is_track(uri),
        track is Some || clients::song_of(state) is Some,
        messages::is_response(
            p,
            mppopm::set_message("setpc "@, number::decimal(n as nat), track),
            state,
            names,
            s,
            r,
        ),
    ensures
        ({
            let file = match track {
                Some(uri) => uri,
                None => clients::song_of(state)->0.file,
            };
            let request = clients::set_sticker_request(
                file,
                p.playcount_sticker,
                number::decimal(n as nat),
            );
            &&& r.0 matches Ok(command) ==> ratings::granted(s, request) && ratings::is_run_for(
                command,
                p.playcount_cmd,
                p.playcount_cmd_args,
                crate::paths::joined(p.music_dir, file),
                "playcount"@,
                n as nat,
            )
            &&& ratings::granted(s, request) && ratings::are_simple(
                p.playcount_cmd_args,
                "playcount"@,
            ) ==> r.0 is Ok
        }),
{
    let file = match track {
        Some(uri) => uri,
        None => clients::song_of(state)->0.file,
    };
    law_setpc(p, n, track, state, names, s, r);
    crate::playcounts::law_play_count_set(
        s,
        p.playcount_sticker,
        file,
        n,
        p.playcount_cmd,
        p.playcount_cmd_args,
        p.music_dir,
    );
}

/// When `mppopm' is told to set the last played time of a track, nothing is run, & the message fails just
/// when the server does not grant what is asked of it.
pub proof fn law_setlp_runs_nothing(
    p: messages::ProcessorView,
    lp: u64,
    track: Option<Seq<char>>,
    state: StatusView,
    names: filters_ast::NamesView,
    s: Session,
    r: (messages::Response, Session),
)
    requires
        track matches Some(uri) ==> is_track(uri),
        track is Some || clients::song_of(state) is Some,
        messages::is_response(
            p,
            mppopm::set_message("setlp "@, number::decimal(lp as nat), track),
            state,
            names,
            s,
            r,
        ),
    ensures
        ({
            let file = match track {
                Some(uri) => uri,
                None => clients::song_of(state)->0.file,
            };
            let request = clients::set_sticker_request(
                file,
                p.lastplayed_sticker,
                number::decimal(lp as nat),
            );
            &&& r.0 is Ok <==> ratings::granted(s, request)
            &&& r.0 matches Ok(command) ==> command is None
        }),
{
    law_setlp(p, lp, track, state, names, s, r);
}

} // verus!
