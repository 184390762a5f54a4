//! What filters select.

use vstd::prelude::*;

use crate::clients;
use crate::clients::Session;
use crate::collections;
use crate::filters_ast;
use crate::filters_ast::{Conjunction, Disjunction, Expression, OpCode, Selector};
use crate::number;
use crate::searches;
use crate::text;

verus! {

// ---------------------------------------------------------------------------------------------
// Steady servers
// ---------------------------------------------------------------------------------------------

/// Whether a server is steady: what it replies to a request does not depend on the requests before.
pub open spec fn steady(s: Session) -> bool {
    forall|a: Seq<Seq<char>>, b: Seq<Seq<char>>|
        #![trigger (s.server)(a), (s.server)(b)]
        a.len() > 0 && b.len() > 0 && a.last() == b.last() ==> (s.server)(a) == (s.server)(b)
}

proof fn lemma_ask_steady(s: Session, t: Session, request: Seq<char>)
    requires
        steady(s),
        t.server == s.server,
    ensures
        s.ask(request).0 == t.ask(request).0,
        s.ask(request).1.server == s.server,
        t.ask(request).1.server == s.server,
{
    assert(s.sent.push(request).last() == t.sent.push(request).last());
}

/// The songs that an expression of stickers selects do not depend on what was asked before.
proof fn lemma_numeric_steady(
    s: Session,
    t: Session,
    sticker: Seq<char>,
    kind: filters_ast::Kind,
    op: OpCode,
    val: int,
)
    requires
        steady(s),
        t.server == s.server,
    ensures
        filters_ast::numeric_spec(s, sticker, kind, op, val).0 == filters_ast::numeric_spec(
            t,
            sticker,
            kind,
            op,
            val,
        ).0,
        filters_ast::numeric_spec(s, sticker, kind, op, val).1.server == s.server,
{
    lemma_ask_steady(s, t, clients::get_stickers_request(sticker));
    let s1 = clients::get_stickers_spec(s, sticker).1;
    let t1 = clients::get_stickers_spec(t, sticker).1;
    lemma_all_steady(s1, t1);
}

/// The list of all songs does not depend on what was asked before.
proof fn lemma_all_steady(s: Session, t: Session)
    requires
        steady(s),
        t.server == s.server,
    ensures
        clients::all_songs_spec(s).0 == clients::all_songs_spec(t).0,
        clients::all_songs_spec(s).1.server == s.server,
{
    lemma_ask_steady(s, t, "find \"(base '')\""@);
}

/// The songs that a term selects do not depend on what was asked before.
proof fn lemma_term_steady(
    term: filters_ast::TermView,
    case: bool,
    names: filters_ast::NamesView,
    s: Session,
    t: Session,
)
    requires
        steady(s),
        t.server == s.server,
    ensures
        filters_ast::term_spec(term, case, names, s).0 == filters_ast::term_spec(
            term,
            case,
            names,
            t,
        ).0,
        filters_ast::term_spec(term, case, names, s).1.server == s.server,
{
    match term {
        filters_ast::TermView::UnaryCondition(attr, val) => {
            let cond = filters_ast::selector_text(attr);
            let value = filters_ast::quoted_value(val);
            lemma_ask_steady(s, t, clients::find1_request(cond, value, case));
        },
        filters_ast::TermView::BinaryCondition(attr, op, val) => {
            let n: int = match val {
                filters_ast::ValueView::Uint(n) => n as int,
                filters_ast::ValueView::UnixEpoch(n) => n as int,
                filters_ast::ValueView::Text(_) => 0,
            };
            match attr {
                Selector::Rating => lemma_numeric_steady(
                    s,
                    t,
                    names.rating,
                    filters_ast::Kind::Byte,
                    op,
                    n,
                ),
                Selector::PlayCount => lemma_numeric_steady(
                    s,
                    t,
                    names.playcount,
                    filters_ast::Kind::Count,
                    op,
                    n,
                ),
                Selector::LastPlayed => lemma_numeric_steady(
                    s,
                    t,
                    names.lastplayed,
                    filters_ast::Kind::Time,
                    op,
                    n,
                ),
                _ => {
                    let name = filters_ast::selector_text(attr);
                    let value = filters_ast::quoted_value(val);
                    lemma_ask_steady(
                        s,
                        t,
                        clients::find2_request(name, filters_ast::op_text(op), value, case),
                    );
                },
            }
        },
    }
}

/// The songs that a term selects are listed once each.
proof fn lemma_term_distinct(
    term: filters_ast::TermView,
    case: bool,
    names: filters_ast::NamesView,
    s: Session,
)
    ensures
        filters_ast::term_spec(term, case, names, s).0 matches Ok(songs) ==> songs.no_duplicates(),
{
    assert forall|songs: Seq<Seq<char>>| #[trigger]
        collections::distinct(songs).no_duplicates() by {
        collections::lemma_with_items(Seq::empty(), songs);
    }
}

// ---------------------------------------------------------------------------------------------
// Selection
// ---------------------------------------------------------------------------------------------

/// Whether an expression selects a song: a negation selects the songs in the library that what it negates
/// does not, a conjunction those that all of its parts do, & a disjunction those that any of them does.
pub open spec fn selects(
    e: Expression,
    case: bool,
    names: filters_ast::NamesView,
    s: Session,
    song: Seq<char>,
) -> bool
    decreases e,
{
    match e {
        Expression::Simple(t) => {
            &&& filters_ast::term_spec(t.deep_view(), case, names, s).0 matches Ok(songs)
            &&& songs.contains(song)
        },
        Expression::Negation(e) => {
            &&& clients::all_songs_spec(s).0 matches Ok(songs)
            &&& songs.contains(song)
            &&& !selects(*e, case, names, s, song)
        },
        Expression::Conjunction(c) => selects_all(*c, case, names, s, song),
        Expression::Disjunction(d) => selects_any(*d, case, names, s, song),
    }
}

/// Whether all parts of a conjunction select a song.
pub open spec fn selects_all(
    c: Conjunction,
    case: bool,
    names: filters_ast::NamesView,
    s: Session,
    song: Seq<char>,
) -> bool
    decreases c,
{
    match c {
        Conjunction::Simple(l, r) => selects(*l, case, names, s, song) && selects(
            *r,
            case,
            names,
            s,
            song,
        ),
        Conjunction::Compound(c, e) => selects_all(*c, case, names, s, song) && selects(
            *e,
            case,
            names,
            s,
            song,
        ),
    }
}

/// Whether any part of a disjunction selects a song.
pub open spec fn selects_any(
    d: Disjunction,
    case: bool,
    names: filters_ast::NamesView,
    s: Session,
    song: Seq<char>,
) -> bool
    decreases d,
{
    match d {
        Disjunction::Simple(l, r) => selects(*l, case, names, s, song) || selects(
            *r,
            case,
            names,
            s,
            song,
        ),
        Disjunction::Compound(d, e) => selects_any(*d, case, names, s, song) || selects(
            *e,
            case,
            names,
            s,
            song,
        ),
    }
}

/// What holds of a selection that was evaluated in session `t`, `s` being another with the same server.
proof fn lemma_selection(
    e: Expression,
    case: bool,
    names: filters_ast::NamesView,
    s: Session,
    t: Session,
)
    requires
        steady(s),
        t.server == s.server,
    ensures
        ({
            let (songs, after) = filters_ast::eval_spec(e, case, names, t);
            &&& after.server == s.server
            &&& songs matches Ok(songs) ==> songs.no_duplicates() && forall|song: Seq<char>|
                songs.contains(song) <==> selects(e, case, names, s, song)
        }),
    decreases e,
{
    match e {
        Expression::Simple(term) => {
            lemma_term_steady(term.deep_view(), case, names, s, t);
            lemma_term_steady(term.deep_view(), case, names, t, s);
            lemma_term_distinct(term.deep_view(), case, names, t);
        },
        Expression::Negation(inner) => {
            lemma_selection(*inner, case, names, s, t);
            let (found, t1) = filters_ast::eval_spec(*inner, case, names, t);
            lemma_all_steady(s, t1);
            lemma_all_steady(t1, s);
            let all = clients::all_songs_spec(t1).0;
            if found is Ok && all is Ok {
                let (a, b) = (all->Ok_0, found->Ok_0);
                let rest = collections::without(a, b);
                collections::lemma_filter_members(a, |x: Seq<char>| !b.contains(x));
                collections::lemma_with_items(Seq::empty(), rest);
                assert(filters_ast::eval_spec(e, case, names, t).0->Ok_0 == collections::distinct(
                    rest,
                ));
                assert forall|song: Seq<char>|
                    collections::distinct(rest).contains(song) <==> selects(
                        e,
                        case,
                        names,
                        s,
                        song,
                    ) by {
                    assert(b.contains(song) <==> selects(*inner, case, names, s, song));
                    assert(rest.contains(song) <==> a.contains(song) && !b.contains(song));
                    assert(!Seq::<Seq<char>>::empty().contains(song));
                }
            }
        },
        Expression::Conjunction(c) => {
            lemma_conjunction(*c, case, names, s, t);
            assert forall|song: Seq<char>|
                selects(e, case, names, s, song) == #[trigger] selects_all(
                    *c,
                    case,
                    names,
                    s,
                    song,
                ) by {}
        },
        Expression::Disjunction(d) => {
            lemma_disjunction(*d, case, names, s, t);
            assert forall|song: Seq<char>|
                selects(e, case, names, s, song) == #[trigger] selects_any(
                    *d,
                    case,
                    names,
                    s,
                    song,
                ) by {}
        },
    }
}

proof fn lemma_conjunction(
    c: Conjunction,
    case: bool,
    names: filters_ast::NamesView,
    s: Session,
    t: Session,
)
    requires
        steady(s),
        t.server == s.server,
    ensures
        ({
            let (songs, after) = filters_ast::conj_spec(c, case, names, t);
            &&& after.server == s.server
            &&& songs matches Ok(songs) ==> songs.no_duplicates() && forall|song: Seq<char>|
                songs.contains(song) <==> selects_all(c, case, names, s, song)
        }),
    decreases c,
{
    match c {
        Conjunction::Simple(l, r) => {
            let (left, t1) = filters_ast::eval_spec(*l, case, names, t);
            let (right, _) = filters_ast::eval_spec(*r, case, names, t1);
            lemma_selection(*l, case, names, s, t);
            lemma_selection(*r, case, names, s, t1);
            if left is Ok && right is Ok {
                let (a, b) = (left->Ok_0, right->Ok_0);
                collections::lemma_filter_members(a, |x: Seq<char>| b.contains(x));
                assert(filters_ast::conj_spec(c, case, names, t).0->Ok_0 == collections::common(a, b));
                assert forall|song: Seq<char>|
                    collections::common(a, b).contains(song) <==> selects_all(
                        c,
                        case,
                        names,
                        s,
                        song,
                    ) by {
                    assert(a.contains(song) <==> selects(*l, case, names, s, song));
                    assert(b.contains(song) <==> selects(*r, case, names, s, song));
                }
            }
        },
        Conjunction::Compound(d, e) => {
            let (left, t1) = filters_ast::conj_spec(*d, case, names, t);
            let (right, _) = filters_ast::eval_spec(*e, case, names, t1);
            lemma_conjunction(*d, case, names, s, t);
            lemma_selection(*e, case, names, s, t1);
            if left is Ok && right is Ok {
                let (a, b) = (left->Ok_0, right->Ok_0);
                collections::lemma_filter_members(a, |x: Seq<char>| b.contains(x));
                assert(filters_ast::conj_spec(c, case, names, t).0->Ok_0 == collections::common(a, b));
                assert forall|song: Seq<char>|
                    collections::common(a, b).contains(song) <==> selects_all(
                        c,
                        case,
                        names,
                        s,
                        song,
                    ) by {
                    assert(a.contains(song) <==> selects_all(*d, case, names, s, song));
                    assert(b.contains(song) <==> selects(*e, case, names, s, song));
                }
            }
        },
    }
}

proof fn lemma_disjunction(
    d: Disjunction,
    case: bool,
    names: filters_ast::NamesView,
    s: Session,
    t: Session,
)
    requires
        steady(s),
        t.server == s.server,
    ensures
        ({
            let (songs, after) = filters_ast::disj_spec(d, case, names, t);
            &&& after.server == s.server
            &&& songs matches Ok(songs) ==> songs.no_duplicates() && forall|song: Seq<char>|
                songs.contains(song) <==> selects_any(d, case, names, s, song)
        }),
    decreases d,
{
    match d {
        Disjunction::Simple(l, r) => {
            let (left, t1) = filters_ast::eval_spec(*l, case, names, t);
            let (right, _) = filters_ast::eval_spec(*r, case, names, t1);
            lemma_selection(*l, case, names, s, t);
            lemma_selection(*r, case, names, s, t1);
            if left is Ok && right is Ok {
                let (a, b) = (left->Ok_0, right->Ok_0);
                collections::lemma_with_items(a, b);
                assert(filters_ast::disj_spec(d, case, names, t).0->Ok_0 == collections::with_items(
                    a,
                    b,
                ));
                assert forall|song: Seq<char>|
                    collections::with_items(a, b).contains(song) <==> selects_any(
                        d,
                        case,
                        names,
                        s,
                        song,
                    ) by {
                    assert(a.contains(song) <==> selects(*l, case, names, s, song));
                    assert(b.contains(song) <==> selects(*r, case, names, s, song));
                }
            }
        },
        Disjunction::Compound(c, e) => {
            let (left, t1) = filters_ast::disj_spec(*c, case, names, t);
            let (right, _) = filters_ast::eval_spec(*e, case, names, t1);
            lemma_disjunction(*c, case, names, s, t);
            lemma_selection(*e, case, names, s, t1);
            if left is Ok && right is Ok {
                let (a, b) = (left->Ok_0, right->Ok_0);
                collections::lemma_with_items(a, b);
                assert(filters_ast::disj_spec(d, case, names, t).0->Ok_0 == collections::with_items(
                    a,
                    b,
                ));
                assert forall|song: Seq<char>|
                    collections::with_items(a, b).contains(song) <==> selects_any(
                        d,
                        case,
                        names,
                        s,
                        song,
                    ) by {
                    assert(a.contains(song) <==> selects_any(*c, case, names, s, song));
                    assert(b.contains(song) <==> selects(*e, case, names, s, song));
                }
            }
        },
    }
}

/// The kind of error that shows that an evaluation has lost count.
pub open spec fn is_miscount(e: filters_ast::ErrorView) -> bool {
    e is OperatorOnStack || e is TooManyOperands
}

proof fn lemma_conj_errors(c: Conjunction, case: bool, names: filters_ast::NamesView, s: Session)
    ensures
        filters_ast::conj_spec(c, case, names, s).0 matches Err(e) ==> !is_miscount(e),
    decreases c,
{
    match c {
        Conjunction::Simple(l, r) => {
            law_no_miscount(*l, case, names, s);
            law_no_miscount(*r, case, names, filters_ast::eval_spec(*l, case, names, s).1);
        },
        Conjunction::Compound(c, e) => {
            lemma_conj_errors(*c, case, names, s);
            law_no_miscount(*e, case, names, filters_ast::conj_spec(*c, case, names, s).1);
        },
    }
}

proof fn lemma_disj_errors(d: Disjunction, case: bool, names: filters_ast::NamesView, s: Session)
    ensures
        filters_ast::disj_spec(d, case, names, s).0 matches Err(e) ==> !is_miscount(e),
    decreases d,
{
    match d {
        Disjunction::Simple(l, r) => {
            law_no_miscount(*l, case, names, s);
            law_no_miscount(*r, case, names, filters_ast::eval_spec(*l, case, names, s).1);
        },
        Disjunction::Compound(d, e) => {
            lemma_disj_errors(*d, case, names, s);
            law_no_miscount(*e, case, names, filters_ast::disj_spec(*d, case, names, s).1);
        },
    }
}

// ---------------------------------------------------------------------------------------------
// Numbers
// ---------------------------------------------------------------------------------------------

/// Whether each key is there once.
spec fn unique(m: Seq<(Seq<char>, i128)>) -> bool {
    forall|i: int, j: int|
        #![trigger m[i], m[j]]
        0 <= i < j < m.len() ==> m[i].0 != m[j].0
}

proof fn lemma_put_unique(m: Seq<(Seq<char>, i128)>, k: Seq<char>, v: i128)
    requires
        unique(m),
    ensures
        unique(collections::put(m, k, v)),
{
    collections::lemma_key_from(m, k, 0);
}

proof fn lemma_numbers_unique(m: Seq<(Seq<char>, Seq<char>)>, n: int, kind: filters_ast::Kind)
    ensures
        filters_ast::numbers(m, n, kind) matches Ok(r) ==> unique(r),
    decreases n,
{
    if n > 0 {
        lemma_numbers_unique(m, n - 1, kind);
        if let Ok(done) = filters_ast::numbers(m, n - 1, kind) {
            if let Ok(x) = filters_ast::number_of(kind, m[n - 1].1) {
                lemma_put_unique(done, m[n - 1].0, x);
            }
        }
    }
}

proof fn lemma_defaulted(m: Seq<(Seq<char>, i128)>, songs: Seq<Seq<char>>, n: int, song: Seq<char>)
    requires
        unique(m),
        0 <= n <= songs.len(),
    ensures
        unique(filters_ast::defaulted(m, songs, n)),
        collections::lookup(filters_ast::defaulted(m, songs, n), song) == (
        match collections::lookup(m, song) {
            Some(x) => Some(x),
            None => if songs.take(n).contains(song) {
                Some(0i128)
            } else {
                None
            },
        }),
    decreases n,
{
    if n > 0 {
        lemma_defaulted(m, songs, n - 1, song);
        let done = filters_ast::defaulted(m, songs, n - 1);
        let last = songs[n - 1];
        lemma_put_unique(done, last, 0);
        collections::law_put_lookup(done, last, 0, song);
        let (a, b) = (songs.take(n - 1), songs.take(n));
        assert(b =~= a.push(last));
        assert(b[n - 1] == last);
        if b.contains(song) && song != last {
            let i = choose|i: int| 0 <= i < b.len() && b[i] == song;
            assert(a[i] == song);
        }
        if a.contains(song) {
            let i = choose|i: int| 0 <= i < a.len() && a[i] == song;
            assert(b[i] == song);
        }
    }
}

proof fn lemma_selected(m: Seq<(Seq<char>, i128)>, n: int, op: OpCode, val: int, song: Seq<char>)
    requires
        0 <= n <= m.len(),
    ensures
        filters_ast::selected(m, n, op, val).contains(song) <==> exists|i: int|
            0 <= i < n && (#[trigger] m[i]).0 == song && filters_ast::holds(op, m[i].1 as int, val),
    decreases n,
{
    if n > 0 {
        lemma_selected(m, n - 1, op, val, song);
        let done = filters_ast::selected(m, n - 1, op, val);
        let all = filters_ast::selected(m, n, op, val);
        if filters_ast::holds(op, m[n - 1].1 as int, val) {
            assert(all[done.len() as int] == m[n - 1].0);
            if done.contains(song) {
                let i = choose|i: int| 0 <= i < done.len() && done[i] == song;
                assert(all[i] == song);
            }
            if all.contains(song) && m[n - 1].0 != song {
                let i = choose|i: int| 0 <= i < all.len() && all[i] == song;
                assert(done[i] == song);
            }
        }
    } else {
        assert(filters_ast::selected(m, n, op, val) =~= Seq::empty());
    }
}

/// Whether each song is there once.
spec fn listed_once(m: Seq<(Seq<char>, Seq<char>)>) -> bool {
    forall|i: int, j: int|
        #![trigger m[i], m[j]]
        0 <= i < j < m.len() ==> m[i].0 != m[j].0
}

proof fn lemma_stickers_once(
    lines: Seq<Seq<char>>,
    i: int,
    sticker: Seq<char>,
    bad: clients::ErrorView,
    m: Seq<(Seq<char>, Seq<char>)>,
)
    requires
        listed_once(m),
    ensures
        clients::stickers_from(lines, i, sticker, bad, m) matches Ok(r) ==> listed_once(r),
    decreases lines.len() - i,
{
    if i + 1 < lines.len() && lines[i] != "OK"@ {
        if let (Some(file), Some(value)) = (
            crate::text::after_bytes(lines[i], 6),
            crate::text::after_bytes(lines[i + 1], 10 + crate::text::byte_count(sticker) as int),
        ) {
            collections::lemma_key_from(m, file, 0);
            lemma_stickers_once(lines, i + 2, sticker, bad, collections::put(m, file, value));
        }
    }
}

/// The number under a song is what its sticker writes.
proof fn lemma_numbers_lookup(
    m: Seq<(Seq<char>, Seq<char>)>,
    n: int,
    kind: filters_ast::Kind,
    song: Seq<char>,
)
    requires
        0 <= n <= m.len(),
        listed_once(m),
        filters_ast::numbers(m, n, kind) is Ok,
    ensures
        ({
            let got = collections::lookup(filters_ast::numbers(m, n, kind)->Ok_0, song);
            &&& forall|i: int|
                0 <= i < n && (#[trigger] m[i]).0 == song ==> filters_ast::number_of(kind, m[i].1)
                    is Ok && got == Some(filters_ast::number_of(kind, m[i].1)->Ok_0)
            &&& (forall|i: int| 0 <= i < n ==> (#[trigger] m[i]).0 != song) ==> got is None
        }),
    decreases n,
{
    if n > 0 {
        lemma_numbers_lookup(m, n - 1, kind, song);
        let done = filters_ast::numbers(m, n - 1, kind)->Ok_0;
        let x = filters_ast::number_of(kind, m[n - 1].1)->Ok_0;
        collections::law_put_lookup(done, m[n - 1].0, x, song);
    }
}

// ---------------------------------------------------------------------------------------------
// Laws
// ---------------------------------------------------------------------------------------------

/// Whether a condition compares as it says.
pub open spec fn compares(op: OpCode, selected: bool, x: int, n: int) -> bool {
    match op {
        OpCode::Equality => selected <==> x == n,
        OpCode::Inequality => selected <==> x != n,
        OpCode::GreaterThan => selected <==> x > n,
        OpCode::LessThan => selected <==> x < n,
        OpCode::GreaterThanEqual => selected <==> x >= n,
        OpCode::LessThanEqual => selected <==> x <= n,
        _ => false,
    }
}

/// A condition on ratings, play counts or last played times selects a song just when the number in its
/// sticker, which is zero for a song of the library without one, compares with the number given as the
/// condition says.
pub proof fn law_numeric_condition(
    attr: Selector,
    op: OpCode,
    val: filters_ast::ValueView,
    case: bool,
    names: filters_ast::NamesView,
    s: Session,
    song: Seq<char>,
    x: nat,
)
    requires
        attr == Selector::Rating || attr == Selector::PlayCount || attr == Selector::LastPlayed,
        filters_ast::term_spec(
            filters_ast::TermView::BinaryCondition(attr, op, val),
            case,
            names,
            s,
        ).0 is Ok,
    ensures
        ({
            let songs = filters_ast::term_spec(
                filters_ast::TermView::BinaryCondition(attr, op, val),
                case,
                names,
                s,
            ).0->Ok_0;
            let sticker = if attr == Selector::Rating {
                names.rating
            } else if attr == Selector::PlayCount {
                names.playcount
            } else {
                names.lastplayed
            };
            let n: int = match val {
                filters_ast::ValueView::Uint(n) => n as int,
                filters_ast::ValueView::UnixEpoch(t) => t as int,
                filters_ast::ValueView::Text(_) => 0,
            };
            let (stickers, s1) = clients::get_stickers_spec(s, sticker);
            let (all, _) = clients::all_songs_spec(s1);
            &&& stickers is Ok
            &&& all is Ok
            &&& !(val is Text)
            &&& match collections::lookup(stickers->Ok_0, song) {
                Some(value) => value == number::decimal(x) ==> compares(
                    op,
                    songs.contains(song),
                    x as int,
                    n,
                ),
                None => if all->Ok_0.contains(song) {
                    compares(op, songs.contains(song), 0, n)
                } else {
                    !songs.contains(song)
                },
            }
        }),
{
    let kind = if attr == Selector::Rating {
        filters_ast::Kind::Byte
    } else if attr == Selector::PlayCount {
        filters_ast::Kind::Count
    } else {
        filters_ast::Kind::Time
    };
    let sticker = if attr == Selector::Rating {
        names.rating
    } else if attr == Selector::PlayCount {
        names.playcount
    } else {
        names.lastplayed
    };
    let n: int = match val {
        filters_ast::ValueView::Uint(n) => n as int,
        filters_ast::ValueView::UnixEpoch(t) => t as int,
        filters_ast::ValueView::Text(_) => 0,
    };
    let (stickers, s1) = clients::get_stickers_spec(s, sticker);
    let (all, _) = clients::all_songs_spec(s1);
    assert(filters_ast::numeric_spec(s, sticker, kind, op, n).0 is Ok);
    let stickers = stickers->Ok_0;
    let reply = s.ask(clients::get_stickers_request(sticker)).0->Ok_0;
    lemma_stickers_once(
        text::lines_of(reply),
        0,
        sticker,
        clients::protocol(clients::Operation::GetStickers, reply),
        Seq::empty(),
    );
    let m = filters_ast::numbers(stickers, stickers.len() as int, kind)->Ok_0;
    law_zero_is_unset(stickers, kind, m, all->Ok_0, op, n, song);
    lemma_numbers_lookup(stickers, stickers.len() as int, kind, song);
    collections::lemma_key_from(stickers, song, 0);
    let k = collections::key_from(stickers, song, 0);
    if k < stickers.len() {
        assert(stickers[k].0 == song);
        let value = stickers[k].1;
        if value == number::decimal(x) {
            lemma_number_read(kind, x);
        }
    }
}

/// A number that a sticker writes is that number.
proof fn lemma_number_read(kind: filters_ast::Kind, x: nat)
    requires
        filters_ast::number_of(kind, number::decimal(x)) is Ok,
    ensures
        filters_ast::number_of(kind, number::decimal(x))->Ok_0 == x,
{
    number::law_signed(
        x as int,
        filters_ast::kind_lo(kind),
        filters_ast::kind_hi(kind),
    );
}

/// The songs that a conjunction of two filters selects are those that both do, that a disjunction does
/// those that either does, & that a negation does those of the library that the filter does not; if the
/// server is steady.
pub proof fn law_connectives(
    l: Expression,
    r: Expression,
    case: bool,
    names: filters_ast::NamesView,
    s: Session,
    song: Seq<char>,
)
    requires
        steady(s),
    ensures
        ({
            let left = filters_ast::eval_spec(l, case, names, s).0;
            let right = filters_ast::eval_spec(r, case, names, s).0;
            let both = filters_ast::eval_spec(
                Expression::Conjunction(
                    Box::new(Conjunction::Simple(Box::new(l), Box::new(r))),
                ),
                case,
                names,
                s,
            ).0;
            let either = filters_ast::eval_spec(
                Expression::Disjunction(
                    Box::new(Disjunction::Simple(Box::new(l), Box::new(r))),
                ),
                case,
                names,
                s,
            ).0;
            let not = filters_ast::eval_spec(
                Expression::Negation(Box::new(l)),
                case,
                names,
                s,
            ).0;
            let all = clients::all_songs_spec(s).0;
            &&& both is Ok <==> left is Ok && right is Ok
            &&& either is Ok <==> left is Ok && right is Ok
            &&& not is Ok <==> left is Ok && all is Ok
            &&& both is Ok ==> (both->Ok_0.contains(song) <==> left->Ok_0.contains(song)
                && right->Ok_0.contains(song))
            &&& either is Ok ==> (either->Ok_0.contains(song) <==> left->Ok_0.contains(song)
                || right->Ok_0.contains(song))
            &&& not is Ok ==> (not->Ok_0.contains(song) <==> all->Ok_0.contains(song)
                && !left->Ok_0.contains(song))
        }),
{
    let c = Conjunction::Simple(Box::new(l), Box::new(r));
    let d = Disjunction::Simple(Box::new(l), Box::new(r));
    let (left, s1) = filters_ast::eval_spec(l, case, names, s);
    lemma_selection(l, case, names, s, s);
    lemma_selection(r, case, names, s, s);
    lemma_selection(r, case, names, s, s1);
    lemma_same_outcome(r, case, names, s, s1);
    lemma_all_steady(s, s1);
    lemma_selection(Expression::Conjunction(Box::new(c)), case, names, s, s);
    lemma_selection(Expression::Disjunction(Box::new(d)), case, names, s, s);
    lemma_selection(Expression::Negation(Box::new(l)), case, names, s, s);
    assert(filters_ast::eval_spec(Expression::Conjunction(Box::new(c)), case, names, s)
        == filters_ast::conj_spec(c, case, names, s));
    assert(filters_ast::eval_spec(Expression::Disjunction(Box::new(d)), case, names, s)
        == filters_ast::disj_spec(d, case, names, s));
    reveal_with_fuel(selects, 2);
    reveal_with_fuel(selects_all, 2);
    reveal_with_fuel(selects_any, 2);
    assert(selects(Expression::Conjunction(Box::new(c)), case, names, s, song) == (selects(
        l,
        case,
        names,
        s,
        song,
    ) && selects(r, case, names, s, song)));
    assert(selects(Expression::Disjunction(Box::new(d)), case, names, s, song) == (selects(
        l,
        case,
        names,
        s,
        song,
    ) || selects(r, case, names, s, song)));
    let right = filters_ast::eval_spec(r, case, names, s).0;
    if left is Ok {
        assert(left->Ok_0.contains(song) <==> selects(l, case, names, s, song));
    }
    if right is Ok {
        assert(right->Ok_0.contains(song) <==> selects(r, case, names, s, song));
    }
}

/// A conjunction with one filter more selects those of the songs that it did without it which that filter
/// selects, too, & a disjunction with one more those besides; if the server is steady.
pub proof fn law_one_more(
    c: Conjunction,
    d: Disjunction,
    e: Expression,
    case: bool,
    names: filters_ast::NamesView,
    s: Session,
    song: Seq<char>,
)
    requires
        steady(s),
    ensures
        ({
            let some = filters_ast::eval_spec(Expression::Conjunction(Box::new(c)), case, names, s).0;
            let any = filters_ast::eval_spec(Expression::Disjunction(Box::new(d)), case, names, s).0;
            let last = filters_ast::eval_spec(e, case, names, s).0;
            let both = filters_ast::eval_spec(
                Expression::Conjunction(
                    Box::new(Conjunction::Compound(Box::new(c), Box::new(e))),
                ),
                case,
                names,
                s,
            ).0;
            let either = filters_ast::eval_spec(
                Expression::Disjunction(
                    Box::new(Disjunction::Compound(Box::new(d), Box::new(e))),
                ),
                case,
                names,
                s,
            ).0;
            &&& both is Ok <==> some is Ok && last is Ok
            &&& either is Ok <==> any is Ok && last is Ok
            &&& both is Ok ==> (both->Ok_0.contains(song) <==> some->Ok_0.contains(song)
                && last->Ok_0.contains(song))
            &&& either is Ok ==> (either->Ok_0.contains(song) <==> any->Ok_0.contains(song)
                || last->Ok_0.contains(song))
        }),
{
    let more = Conjunction::Compound(Box::new(c), Box::new(e));
    let most = Disjunction::Compound(Box::new(d), Box::new(e));
    let s1 = filters_ast::conj_spec(c, case, names, s).1;
    let s2 = filters_ast::disj_spec(d, case, names, s).1;
    lemma_same_conj(c, case, names, s, s);
    lemma_same_disj(d, case, names, s, s);
    lemma_same_outcome(e, case, names, s, s1);
    lemma_same_outcome(e, case, names, s, s2);
    assert(filters_ast::eval_spec(Expression::Conjunction(Box::new(c)), case, names, s)
        == filters_ast::conj_spec(c, case, names, s));
    assert(filters_ast::eval_spec(Expression::Disjunction(Box::new(d)), case, names, s)
        == filters_ast::disj_spec(d, case, names, s));
    assert(filters_ast::eval_spec(Expression::Conjunction(Box::new(more)), case, names, s)
        == filters_ast::conj_spec(more, case, names, s));
    assert(filters_ast::eval_spec(Expression::Disjunction(Box::new(most)), case, names, s)
        == filters_ast::disj_spec(most, case, names, s));
    let some = filters_ast::conj_spec(c, case, names, s).0;
    let any = filters_ast::disj_spec(d, case, names, s).0;
    let last = filters_ast::eval_spec(e, case, names, s).0;
    if some is Ok && last is Ok {
        let (a, b) = (some->Ok_0, last->Ok_0);
        lemma_conjunction(c, case, names, s, s);
        collections::lemma_filter_members(a, |x: Seq<char>| b.contains(x));
        assert(collections::common(a, b).contains(song) <==> a.contains(song) && b.contains(song));
    }
    if any is Ok && last is Ok {
        lemma_disjunction(d, case, names, s, s);
        collections::lemma_with_items(any->Ok_0, last->Ok_0);
    }
}

/// What an expression comes to does not depend on what was asked before.
proof fn lemma_same_outcome(
    e: Expression,
    case: bool,
    names: filters_ast::NamesView,
    s: Session,
    t: Session,
)
    requires
        steady(s),
        t.server == s.server,
    ensures
        filters_ast::eval_spec(e, case, names, s).0 == filters_ast::eval_spec(e, case, names, t).0,
        filters_ast::eval_spec(e, case, names, s).1.server == s.server,
        filters_ast::eval_spec(e, case, names, t).1.server == s.server,
    decreases e,
{
    match e {
        Expression::Simple(term) => {
            lemma_term_steady(term.deep_view(), case, names, s, t);
            lemma_term_steady(term.deep_view(), case, names, t, s);
        },
        Expression::Negation(e) => {
            lemma_same_outcome(*e, case, names, s, t);
            let s1 = filters_ast::eval_spec(*e, case, names, s).1;
            let t1 = filters_ast::eval_spec(*e, case, names, t).1;
            lemma_all_steady(s1, t1);
            lemma_all_steady(t1, s1);
        },
        Expression::Conjunction(c) => lemma_same_conj(*c, case, names, s, t),
        Expression::Disjunction(d) => lemma_same_disj(*d, case, names, s, t),
    }
}

proof fn lemma_same_conj(
    c: Conjunction,
    case: bool,
    names: filters_ast::NamesView,
    s: Session,
    t: Session,
)
    requires
        steady(s),
        t.server == s.server,
    ensures
        filters_ast::conj_spec(c, case, names, s).0 == filters_ast::conj_spec(c, case, names, t).0,
        filters_ast::conj_spec(c, case, names, s).1.server == s.server,
        filters_ast::conj_spec(c, case, names, t).1.server == s.server,
    decreases c,
{
    match c {
        Conjunction::Simple(l, r) => {
            lemma_same_outcome(*l, case, names, s, t);
            lemma_same_outcome(
                *r,
                case,
                names,
                filters_ast::eval_spec(*l, case, names, s).1,
                filters_ast::eval_spec(*l, case, names, t).1,
            );
        },
        Conjunction::Compound(c, e) => {
            lemma_same_conj(*c, case, names, s, t);
            lemma_same_outcome(
                *e,
                case,
                names,
                filters_ast::conj_spec(*c, case, names, s).1,
                filters_ast::conj_spec(*c, case, names, t).1,
            );
        },
    }
}

proof fn lemma_same_disj(
    d: Disjunction,
    case: bool,
    names: filters_ast::NamesView,
    s: Session,
    t: Session,
)
    requires
        steady(s),
        t.server == s.server,
    ensures
        filters_ast::disj_spec(d, case, names, s).0 == filters_ast::disj_spec(d, case, names, t).0,
        filters_ast::disj_spec(d, case, names, s).1.server == s.server,
        filters_ast::disj_spec(d, case, names, t).1.server == s.server,
    decreases d,
{
    match d {
        Disjunction::Simple(l, r) => {
            lemma_same_outcome(*l, case, names, s, t);
            lemma_same_outcome(
                *r,
                case,
                names,
                filters_ast::eval_spec(*l, case, names, s).1,
                filters_ast::eval_spec(*l, case, names, t).1,
            );
        },
        Disjunction::Compound(d, e) => {
            lemma_same_disj(*d, case, names, s, t);
            lemma_same_outcome(
                *e,
                case,
                names,
                filters_ast::disj_spec(*d, case, names, s).1,
                filters_ast::disj_spec(*d, case, names, t).1,
            );
        },
    }
}

/// Filters are a boolean algebra: if the server is steady, a filter that can be evaluated yields just the
/// songs that it selects, each of them once.
pub proof fn law_selection(
    e: Expression,
    case: bool,
    names: filters_ast::NamesView,
    s: Session,
    songs: Seq<Seq<char>>,
    song: Seq<char>,
)
    requires
        steady(s),
        filters_ast::eval_spec(e, case, names, s).0 == Ok::<
            Seq<Seq<char>>,
            filters_ast::ErrorView,
        >(songs),
    ensures
        songs.no_duplicates(),
        songs.contains(song) <==> selects(e, case, names, s, song),
{
    lemma_selection(e, case, names, s, s);
}

/// A condition on a rating, a play count or a time selects the songs with a sticker of whose value it
/// holds, & the songs in the library without one if it holds of zero: zero is interpreted as "not set".
pub proof fn law_zero_is_unset(
    stickers: Seq<(Seq<char>, Seq<char>)>,
    kind: filters_ast::Kind,
    m: Seq<(Seq<char>, i128)>,
    songs: Seq<Seq<char>>,
    op: OpCode,
    val: int,
    song: Seq<char>,
)
    requires
        filters_ast::numbers(stickers, stickers.len() as int, kind) == Ok::<
            Seq<(Seq<char>, i128)>,
            crate::number::ParseError,
        >(m),
    ensures
        filters_ast::numeric_selection(m, songs, op, val).contains(song) <==> (
        match collections::lookup(m, song) {
            Some(x) => filters_ast::holds(op, x as int, val),
            None => songs.contains(song) && filters_ast::holds(op, 0, val),
        }),
{
    lemma_numbers_unique(stickers, stickers.len() as int, kind);
    let n = songs.len() as int;
    let all = filters_ast::defaulted(m, songs, n);
    lemma_defaulted(m, songs, n, song);
    assert(songs.take(n) =~= songs);
    lemma_selected(all, all.len() as int, op, val, song);
    collections::lemma_with_items(
        Seq::empty(),
        filters_ast::selected(all, all.len() as int, op, val),
    );
    collections::lemma_key_from(all, song, 0);
    let k = collections::key_from(all, song, 0);
    assert(!Seq::<Seq<char>>::empty().contains(song));
    if k < all.len() {
        assert(all[k].0 == song);
        assert forall|i: int| 0 <= i < all.len() && (#[trigger] all[i]).0 == song implies i == k by {
            assert(all[k].0 == song);
        }
    }
}

/// Evaluation always comes to exactly one operand: no filter's evaluation ends in an operator, or in too
/// many operands.
pub proof fn law_no_miscount(e: Expression, case: bool, names: filters_ast::NamesView, s: Session)
    ensures
        filters_ast::eval_spec(e, case, names, s).0 matches Err(err) ==> !is_miscount(err),
    decreases e,
{
    match e {
        Expression::Simple(t) => {},
        Expression::Negation(e) => {
            law_no_miscount(*e, case, names, s);
        },
        Expression::Conjunction(c) => lemma_conj_errors(*c, case, names, s),
        Expression::Disjunction(d) => lemma_disj_errors(*d, case, names, s),
    }
}

/// The least & the greatest number that the sticker of an attribute can hold.
pub open spec fn bounds(attr: Selector) -> (int, int) {
    if attr == Selector::Rating {
        (0, 255)
    } else if attr == Selector::PlayCount {
        (0, usize::MAX as int)
    } else {
        (i64::MIN as int, i64::MAX as int)
    }
}

/// The sticker that an attribute is kept in.
pub open spec fn sticker_of(attr: Selector, names: filters_ast::NamesView) -> Seq<char> {
    if attr == Selector::Rating {
        names.rating
    } else if attr == Selector::PlayCount {
        names.playcount
    } else {
        names.lastplayed
    }
}

/// A condition on ratings, play counts or last played times can be evaluated just when it compares, with a
/// number that there can be, & the server gives the stickers, all of which are numbers, & the songs.
pub proof fn law_numeric_evaluated(
    attr: Selector,
    op: OpCode,
    val: filters_ast::ValueView,
    case: bool,
    names: filters_ast::NamesView,
    s: Session,
)
    requires
        attr == Selector::Rating || attr == Selector::PlayCount || attr == Selector::LastPlayed,
    ensures
        ({
            let r = filters_ast::term_spec(
                filters_ast::TermView::BinaryCondition(attr, op, val),
                case,
                names,
                s,
            ).0;
            let (stickers, s1) = clients::get_stickers_spec(s, sticker_of(attr, names));
            let compared = op == OpCode::Equality || op == OpCode::Inequality || op
                == OpCode::GreaterThan || op == OpCode::LessThan || op == OpCode::GreaterThanEqual
                || op == OpCode::LessThanEqual;
            let number = match val {
                filters_ast::ValueView::Uint(n) => attr == Selector::Rating ==> n <= 255,
                filters_ast::ValueView::UnixEpoch(_) => attr == Selector::LastPlayed,
                filters_ast::ValueView::Text(_) => false,
            };
            r is Ok <==> compared && number && stickers is Ok && (forall|i: int|
                0 <= i < stickers->Ok_0.len() ==> number::parsed(
                    (#[trigger] stickers->Ok_0[i]).1,
                    bounds(attr).0,
                    bounds(attr).1,
                ) is Ok) && clients::all_songs_spec(s1).0 is Ok
        }),
{
    let kind = if attr == Selector::Rating {
        filters_ast::Kind::Byte
    } else if attr == Selector::PlayCount {
        filters_ast::Kind::Count
    } else {
        filters_ast::Kind::Time
    };
    if let Ok(stickers) = clients::get_stickers_spec(s, sticker_of(attr, names)).0 {
        lemma_numbers_ok(stickers, stickers.len() as int, kind);
    }
}

proof fn lemma_numbers_ok(m: Seq<(Seq<char>, Seq<char>)>, n: int, kind: filters_ast::Kind)
    requires
        0 <= n <= m.len(),
    ensures
        filters_ast::numbers(m, n, kind) is Ok <==> forall|i: int|
            0 <= i < n ==> number::parsed(
                (#[trigger] m[i]).1,
                filters_ast::kind_lo(kind),
                filters_ast::kind_hi(kind),
            ) is Ok,
    decreases n,
{
    if n > 0 {
        lemma_numbers_ok(m, n - 1, kind);
        let last = m[n - 1];
    }
}

/// A condition that the server decides selects the songs that the reply lists, each once; if the server
/// refuses, it cannot be evaluated.
pub proof fn law_searched(
    t: filters_ast::TermView,
    case: bool,
    names: filters_ast::NamesView,
    s: Session,
    song: Seq<char>,
)
    requires
        searches::is_searched(t),
    ensures
        ({
            let (r, after) = filters_ast::term_spec(t, case, names, s);
            let reply = s.ask(after.sent.last()).0;
            &&& r is Ok <==> (reply matches Ok(reply) && !"ACK"@.is_prefix_of(reply))
            &&& r matches Ok(songs) ==> {
                &&& songs.no_duplicates()
                &&& songs.contains(song) <==> text::lines_of(reply->Ok_0).contains(
                    "file: "@ + song,
                )
            }
        }),
{
    let (r, after) = filters_ast::term_spec(t, case, names, s);
    let reply = s.ask(after.sent.last()).0;
    if let Ok(reply) = reply {
        let lines = text::lines_of(reply);
        let values = clients::values_in(lines, "file: "@, lines.len() as int);
        lemma_values_in(lines, "file: "@, lines.len() as int, song);
        collections::lemma_with_items(Seq::empty(), values);
        if lines.contains("file: "@ + song) {
            let i = lines.index_of("file: "@ + song);
            assert(lines[i] == "file: "@ + song);
        }
    }
}

proof fn lemma_values_in(lines: Seq<Seq<char>>, prefix: Seq<char>, n: int, x: Seq<char>)
    requires
        0 <= n <= lines.len(),
    ensures
        clients::values_in(lines, prefix, n).contains(x) <==> exists|i: int|
            0 <= i < n && #[trigger] lines[i] == prefix + x,
    decreases n,
{
    let values = clients::values_in(lines, prefix, n);
    if n > 0 {
        lemma_values_in(lines, prefix, n - 1, x);
        let before = clients::values_in(lines, prefix, n - 1);
        let line = lines[n - 1];
        if prefix.is_prefix_of(line) {
            let value = line.skip(prefix.len() as int);
            assert(prefix + value =~= line) by {
                assert(line.subrange(0, prefix.len() as int) == prefix);
            }
            assert(values == before.push(value));
            assert(values.contains(x) <==> before.contains(x) || value == x) by {
                if before.contains(x) {
                    let i = before.index_of(x);
                    assert(values[i] == x);
                }
                if value == x {
                    assert(values[before.len() as int] == x);
                }
            }
            if line == prefix + x {
                assert(line.skip(prefix.len() as int) =~= x);
            }
        } else if line == prefix + x {
            assert(line.subrange(0, prefix.len() as int) =~= prefix);
        }
    }
}

/// The songs of the library can be had unless the server refuses; they are those that the reply lists.
pub proof fn law_library(s: Session, song: Seq<char>)
    ensures
        ({
            let (r, after) = clients::all_songs_spec(s);
            let reply = s.ask(after.sent.last()).0;
            &&& after.sent.drop_last() == s.sent
            &&& r is Ok <==> (reply matches Ok(reply) && !"ACK"@.is_prefix_of(reply))
            &&& r matches Ok(songs) ==> (songs.contains(song) <==> text::lines_of(
                reply->Ok_0,
            ).contains("file: "@ + song))
        }),
{
    let (r, after) = clients::all_songs_spec(s);
    assert(after.sent.drop_last() =~= s.sent);
    if let Ok(reply) = s.ask(after.sent.last()).0 {
        let lines = text::lines_of(reply);
        lemma_values_in(lines, "file: "@, lines.len() as int, song);
        if lines.contains("file: "@ + song) {
            let i = lines.index_of("file: "@ + song);
            assert(lines[i] == "file: "@ + song);
        }
    }
}

} // verus!
