//! How filters are made up of filters.

use vstd::prelude::*;

use crate::fields;
use crate::filters;
use crate::filters::{Tok, Word};
use crate::filters_ast::{Conjunction, Disjunction, Expression};
use crate::number;
use crate::searches;
use crate::text;

verus! {

// ---------------------------------------------------------------------------------------------
// Texts within texts
// ---------------------------------------------------------------------------------------------

/// Whether a text can follow a filter.
spec fn can_follow(q: Seq<char>) -> bool {
    q.len() > 0 ==> q[0] == ' ' || q[0] == ')'
}

/// A word is at an index just when it is there in what surrounds it.
proof fn lemma_matches_within(p: Seq<char>, f: Seq<char>, q: Seq<char>, i: int, w: Word)
    requires
        0 <= i < f.len(),
        can_follow(q),
    ensures
        filters::matches_at(w, p + f + q, p.len() + i) == filters::matches_at(w, f, i),
{
    let s = p + f + q;
    let t = filters::word_text(w);
    let m = p.len() + i;
    searches::lemma_key(w);
    if filters::matches_at(w, f, i) {
        assert forall|k: int| 0 <= k < t.len() implies filters::char_matches(
            w,
            #[trigger] s[m + k],
            t[k],
        ) by {
            assert(s[m + k] == f[i + k]);
        }
    }
    if filters::matches_at(w, s, m) {
        if i + t.len() > f.len() {
            assert(q.len() > 0);
            let k = f.len() - i;
            assert(s[m + k] == q[0]);
            assert(filters::char_matches(w, s[m + k], t[k]));
            searches::lemma_visible(w, k);
            searches::lemma_no_closing(w, k);
        } else {
            assert forall|k: int| 0 <= k < t.len() implies filters::char_matches(
                w,
                #[trigger] f[i + k],
                t[k],
            ) by {
                assert(s[m + k] == f[i + k]);
            }
        }
    }
}

proof fn lemma_longest_within(p: Seq<char>, f: Seq<char>, q: Seq<char>, i: int, n: int)
    requires
        0 <= i < f.len(),
        can_follow(q),
        n <= filters::words().len(),
    ensures
        filters::longest(p + f + q, p.len() + i, n) == filters::longest(f, i, n),
    decreases n,
{
    if n > 0 {
        lemma_longest_within(p, f, q, i, n - 1);
        lemma_matches_within(p, f, q, i, filters::words()[n - 1]);
    }
}

proof fn lemma_digits_within(p: Seq<char>, f: Seq<char>, q: Seq<char>, i: int)
    requires
        0 <= i <= f.len(),
        can_follow(q),
    ensures
        fields::digits_end(p + f + q, p.len() + i) == p.len() + fields::digits_end(f, i),
        i <= fields::digits_end(f, i) <= f.len(),
    decreases f.len() - i,
{
    let s = p + f + q;
    if i < f.len() {
        assert(s[p.len() + i] == f[i]);
        if '0' <= f[i] <= '9' {
            lemma_digits_within(p, f, q, i + 1);
        }
    } else if q.len() > 0 {
        assert(s[p.len() + i] == q[0]);
    }
}

/// A token of a text is the token there in what surrounds it.
proof fn lemma_token_within(p: Seq<char>, f: Seq<char>, q: Seq<char>, i: int)
    requires
        0 <= i < f.len(),
        can_follow(q),
        filters::token_at(f, i) is Some,
        (filters::token_at(f, i)->0).1 <= f.len(),
        i < (filters::token_at(f, i)->0).1,
    ensures
        filters::token_at(p + f + q, p.len() + i) == Some(
            ((filters::token_at(f, i)->0).0, p.len() + (filters::token_at(f, i)->0).1),
        ),
{
    let s = p + f + q;
    let m = p.len() + i;
    assert(s[m] == f[i]);
    if f[i] == '\'' || f[i] == '"' {
        let j = filters::closing_quote(f, i + 1, f[i])->0;
        searches::lemma_closing(s, p, f, q, i + 1, f[i]);
        assert(s.subrange(m, p.len() + j + 1) =~= f.subrange(i, j + 1));
    } else if number::is_digit(f[i]) {
        lemma_digits_within(p, f, q, i);
        let j = fields::digits_end(f, i);
        assert(s.subrange(m, p.len() + j) =~= f.subrange(i, j));
    } else {
        lemma_longest_within(p, f, q, i, filters::words().len() as int);
    }
}

proof fn lemma_blanks_within(p: Seq<char>, f: Seq<char>, q: Seq<char>, i: int)
    requires
        0 <= i <= f.len(),
    ensures
        i <= text::word_from(f, i) <= f.len(),
        text::word_from(f, i) < f.len() ==> text::word_from(p + f + q, p.len() + i) == p.len()
            + text::word_from(f, i),
        text::word_from(f, i) == f.len() ==> text::word_from(p + f + q, p.len() + i)
            == text::word_from(p + f + q, (p.len() + f.len()) as int),
    decreases f.len() - i,
{
    if i < f.len() {
        assert((p + f + q)[p.len() + i] == f[i]);
        if text::is_whitespace(f[i]) {
            lemma_blanks_within(p, f, q, i + 1);
        }
    }
}

/// The tokens of a text come before those of what follows it.
proof fn lemma_within(p: Seq<char>, f: Seq<char>, q: Seq<char>, i: int, toks: Seq<Tok>)
    requires
        0 <= i <= f.len(),
        can_follow(q),
        filters::scan_from(f, i).stop is None,
        searches::follow(p + f + q, (p.len() + f.len()) as int, toks),
    ensures
        searches::follow(
            p + f + q,
            p.len() + i,
            filters::tokens_in(filters::scan_from(f, i).lexemes) + toks,
        ),
    decreases f.len() - i,
{
    let s = p + f + q;
    let j = text::word_from(f, i);
    lemma_blanks_within(p, f, q, i);
    if j < f.len() {
        let (t, k) = filters::token_at(f, j)->0;
        assert(filters::token_at(f, j) is Some && j < k <= f.len());
        lemma_token_within(p, f, q, j);
        lemma_within(p, f, q, k, toks);
        let rest = filters::tokens_in(filters::scan_from(f, k).lexemes) + toks;
        searches::lemma_follow(s, p.len() + i, p.len() + j, t, p.len() + k, rest);
        let l = filters::Lexeme { tok: t, start: j, end: k };
        let own = filters::scan_from(f, k).lexemes;
        assert(filters::tokens_in(seq![l] + own) =~= seq![t] + filters::tokens_in(own));
        assert(seq![t] + filters::tokens_in(own) + toks =~= seq![t] + rest);
    } else {
        let none = filters::scan_from(f, i).lexemes;
        assert(none =~= Seq::empty());
        assert(filters::tokens_in(none) =~= Seq::<Tok>::empty());
        assert(filters::tokens_in(none) + toks =~= toks);
        lemma_word_from(s, (p.len() + f.len()) as int);
        lemma_same_follow(s, p.len() + i, (p.len() + f.len()) as int, toks);
    }
}

/// Blanks do not matter to what follows.
proof fn lemma_same_follow(s: Seq<char>, i: int, j: int, toks: Seq<Tok>)
    requires
        0 <= i <= j <= s.len(),
        text::word_from(s, i) == text::word_from(s, j),
        searches::follow(s, j, toks),
    ensures
        searches::follow(s, i, toks),
{
    reveal(searches::follow);
    lemma_word_from(s, j);
}

/// A word before the rest.
proof fn lemma_word(p: Seq<char>, w: Word, q: Seq<char>, toks: Seq<Tok>)
    requires
        w == Word::Open || w == Word::Close || q.len() > 0 && (q[0] == ' ' || w == Word::Not && q[0]
            == '('),
        searches::follow(
            p + filters::word_text(w) + q,
            (p.len() + filters::word_text(w).len()) as int,
            toks,
        ),
    ensures
        searches::follow(
            p + filters::word_text(w) + q,
            p.len() as int,
            seq![Tok::Word(w)] + toks,
        ),
{
    let t = filters::word_text(w);
    let s = p + t + q;
    let i = p.len() as int;
    searches::lemma_key(w);
    assert(s.subrange(i, i + t.len()) =~= t);
    if q.len() > 0 {
        assert(s[i + t.len()] == q[0]);
    }
    searches::lemma_word_token(s, i, w);
    searches::lemma_follow(s, i, i, Tok::Word(w), i + t.len(), toks);
}

/// A space before the rest.
proof fn lemma_space(p: Seq<char>, q: Seq<char>, toks: Seq<Tok>)
    requires
        searches::follow(p + " "@ + q, p.len() as int + 1, toks),
    ensures
        searches::follow(p + " "@ + q, p.len() as int, toks),
{
    reveal_strlit(" ");
    let s = p + " "@ + q;
    let i = p.len() as int;
    assert(s[i] == ' ');
    assert(text::word_from(s, i) == text::word_from(s, i + 1));
    lemma_same_follow(s, i, i + 1, toks);
}

proof fn lemma_word_from(s: Seq<char>, i: int)
    requires
        0 <= i <= s.len(),
    ensures
        i <= text::word_from(s, i) <= s.len(),
    decreases s.len() - i,
{
    if i < s.len() && text::is_whitespace(s[i]) {
        lemma_word_from(s, i + 1);
    }
}

/// The end.
proof fn lemma_close(p: Seq<char>)
    ensures
        searches::follow(p + ")"@, p.len() as int, seq![Tok::Word(Word::Close)]),
{
    let none = Seq::<char>::empty();
    assert(filters::word_text(Word::Close) == ")"@);
    assert(p + ")"@ + none =~= p + ")"@);
    reveal_strlit(")");
    searches::lemma_nothing_follows(p + ")"@);
    lemma_word(p, Word::Close, none, Seq::empty());
    assert(seq![Tok::Word(Word::Close)] + Seq::<Tok>::empty() =~= seq![Tok::Word(Word::Close)]);
}

// ---------------------------------------------------------------------------------------------
// Tokens within tokens
// ---------------------------------------------------------------------------------------------

/// What tokens write, they write among others.
proof fn lemma_writes_within(p: Seq<Tok>, t: Seq<Tok>, q: Seq<Tok>, i: int, e: Expression)
    requires
        0 <= i,
        filters::writes(t, i, e),
        i + filters::width(e) <= t.len(),
    ensures
        filters::writes(p + t + q, p.len() + i, e),
    decreases e,
{
    let s = p + t + q;
    filters::lemma_width(e);
    assert(s[p.len() + i] == t[i]);
    assert(s[p.len() + i + filters::width(e) - 1] == t[i + filters::width(e) - 1]);
    match e {
        Expression::Simple(term) => {
            let n = filters::term_width(*term);
            assert(s[p.len() + i + 1] == t[i + 1]);
            assert(s[p.len() + i + 2] == t[i + 2]);
            assert(s[p.len() + i + 3] == t[i + 3]);
        },
        Expression::Negation(e) => {
            filters::lemma_width(*e);
            assert(s[p.len() + i + 1] == t[i + 1]);
            lemma_writes_within(p, t, q, i + 2, *e);
        },
        Expression::Conjunction(c) => {
            filters::lemma_conj_width(*c);
            lemma_conj_within(p, t, q, i + 1, *c);
        },
        Expression::Disjunction(d) => {
            filters::lemma_disj_width(*d);
            lemma_disj_within(p, t, q, i + 1, *d);
        },
    }
}

proof fn lemma_conj_within(p: Seq<Tok>, t: Seq<Tok>, q: Seq<Tok>, i: int, c: Conjunction)
    requires
        0 <= i,
        filters::writes_conj(t, i, c),
        i + filters::conj_width(c) <= t.len(),
    ensures
        filters::writes_conj(p + t + q, p.len() + i, c),
    decreases c,
{
    let s = p + t + q;
    match c {
        Conjunction::Simple(l, r) => {
            filters::lemma_width(*l);
            filters::lemma_width(*r);
            let j = i + filters::width(*l);
            lemma_writes_within(p, t, q, i, *l);
            assert(s[p.len() + j] == t[j]);
            lemma_writes_within(p, t, q, j + 1, *r);
        },
        Conjunction::Compound(c, e) => {
            filters::lemma_conj_width(*c);
            filters::lemma_width(*e);
            let j = i + filters::conj_width(*c);
            lemma_conj_within(p, t, q, i, *c);
            assert(s[p.len() + j] == t[j]);
            lemma_writes_within(p, t, q, j + 1, *e);
        },
    }
}

proof fn lemma_disj_within(p: Seq<Tok>, t: Seq<Tok>, q: Seq<Tok>, i: int, d: Disjunction)
    requires
        0 <= i,
        filters::writes_disj(t, i, d),
        i + filters::disj_width(d) <= t.len(),
    ensures
        filters::writes_disj(p + t + q, p.len() + i, d),
    decreases d,
{
    let s = p + t + q;
    match d {
        Disjunction::Simple(l, r) => {
            filters::lemma_width(*l);
            filters::lemma_width(*r);
            let j = i + filters::width(*l);
            lemma_writes_within(p, t, q, i, *l);
            assert(s[p.len() + j] == t[j]);
            lemma_writes_within(p, t, q, j + 1, *r);
        },
        Disjunction::Compound(d, e) => {
            filters::lemma_disj_width(*d);
            filters::lemma_width(*e);
            let j = i + filters::disj_width(*d);
            lemma_disj_within(p, t, q, i, *d);
            assert(s[p.len() + j] == t[j]);
            lemma_writes_within(p, t, q, j + 1, *e);
        },
    }
}

// ---------------------------------------------------------------------------------------------
// Laws
// ---------------------------------------------------------------------------------------------

/// An exclamation mark before a filter, in parentheses, is a filter: its negation.
pub proof fn law_not(f: Seq<char>, e: Expression)
    requires
        filters::is_filter(f, e),
        f[0] == '(',
    ensures
        filters::is_filter("(!"@ + f + ")"@, Expression::Negation(Box::new(e))),
{
    reveal_strlit("(");
    reveal_strlit("!");
    reveal_strlit("(!");
    reveal_strlit(")");
    let t = filters::tokens_of(f)->0;
    filters::lemma_width(e);
    assert(f.len() > 0) by {
        if f.len() == 0 {
            assert(filters::scan_from(f, 0).lexemes =~= Seq::empty());
        }
    }
    let end = seq![Tok::Word(Word::Close)];
    let s = "(!"@ + f + ")"@;
    lemma_close("(!"@ + f);
    lemma_within("(!"@, f, ")"@, 0, end);
    assert(filters::word_text(Word::Not) == "!"@);
    assert(filters::word_text(Word::Open) == "("@);
    let q = f + ")"@;
    assert(q[0] == f[0]);
    assert(s =~= "("@ + "!"@ + q);
    lemma_word("("@, Word::Not, q, t + end);
    assert(s =~= Seq::<char>::empty() + "("@ + ("!"@ + q));
    let inner = seq![Tok::Word(Word::Not)] + (t + end);
    lemma_word(Seq::empty(), Word::Open, "!"@ + q, inner);
    let all = seq![Tok::Word(Word::Open)] + inner;
    let p = seq![Tok::Word(Word::Open), Tok::Word(Word::Not)];
    assert(all =~= p + t + end);
    searches::lemma_follow_all(s, all);
    lemma_writes_within(p, t, end, 0, e);
    assert(all[0] == Tok::Word(Word::Open) && all[1] == Tok::Word(Word::Not));
    assert(all[all.len() - 1] == Tok::Word(Word::Close));
    assert(filters::is_writing(all, Expression::Negation(Box::new(e))));
}

/// The tokens of two filters with an operator between them, in parentheses.
proof fn lemma_two(f: Seq<char>, w: Word, g: Seq<char>)
    requires
        w == Word::And || w == Word::Or,
        filters::tokens_of(f) is Some,
        filters::tokens_of(g) is Some,
    ensures
        filters::tokens_of("("@ + f + " "@ + filters::word_text(w) + " "@ + g + ")"@) == Some(
            seq![Tok::Word(Word::Open)] + filters::tokens_of(f)->0 + (seq![Tok::Word(w)]
                + filters::tokens_of(g)->0 + seq![Tok::Word(Word::Close)]),
        ),
{
    reveal_strlit("(");
    reveal_strlit(" ");
    reveal_strlit(")");
    let o = filters::word_text(w);
    let (t, u) = (filters::tokens_of(f)->0, filters::tokens_of(g)->0);
    let end = seq![Tok::Word(Word::Close)];
    let s = "("@ + f + " "@ + o + " "@ + g + ")"@;
    // the second filter
    let p4 = "("@ + f + " "@ + o + " "@;
    lemma_close(p4 + g);
    lemma_within(p4, g, ")"@, 0, end);
    // the operator, between spaces
    let p3 = "("@ + f + " "@ + o;
    let q3 = g + ")"@;
    assert(s =~= p3 + " "@ + q3);
    assert(p4.len() == p3.len() + 1);
    lemma_space(p3, q3, u + end);
    let p2 = "("@ + f + " "@;
    let q2 = " "@ + g + ")"@;
    assert(s =~= p2 + o + q2);
    lemma_word(p2, w, q2, u + end);
    let rest = seq![Tok::Word(w)] + (u + end);
    let p1 = "("@ + f;
    let q1 = o + " "@ + g + ")"@;
    assert(s =~= p1 + " "@ + q1);
    lemma_space(p1, q1, rest);
    // the first filter
    let q0 = " "@ + o + " "@ + g + ")"@;
    assert(s =~= "("@ + f + q0);
    lemma_within("("@, f, q0, 0, rest);
    // the parenthesis
    assert(filters::word_text(Word::Open) == "("@);
    let q = f + q0;
    assert(s =~= Seq::<char>::empty() + "("@ + q);
    lemma_word(Seq::empty(), Word::Open, q, t + rest);
    assert(seq![Tok::Word(Word::Open)] + (t + rest) =~= seq![Tok::Word(Word::Open)] + t + (seq![
        Tok::Word(w),
    ] + u + end));
    searches::lemma_follow_all(s, seq![Tok::Word(Word::Open)] + (t + rest));
}

/// Two filters with "AND" between them, in parentheses, are a filter: their conjunction. With "OR", they
/// are their disjunction.
pub proof fn law_and_or(f: Seq<char>, a: Expression, g: Seq<char>, b: Expression)
    requires
        filters::is_filter(f, a),
        filters::is_filter(g, b),
    ensures
        filters::is_filter(
            "("@ + f + " "@ + "AND"@ + " "@ + g + ")"@,
            Expression::Conjunction(Box::new(Conjunction::Simple(Box::new(a), Box::new(b)))),
        ),
        filters::is_filter(
            "("@ + f + " "@ + "OR"@ + " "@ + g + ")"@,
            Expression::Disjunction(Box::new(Disjunction::Simple(Box::new(a), Box::new(b)))),
        ),
{
    let (t, u) = (filters::tokens_of(f)->0, filters::tokens_of(g)->0);
    filters::lemma_width(a);
    filters::lemma_width(b);
    let end = seq![Tok::Word(Word::Close)];
    let start = seq![Tok::Word(Word::Open)];
    assert(filters::word_text(Word::And) == "AND"@);
    assert(filters::word_text(Word::Or) == "OR"@);
    lemma_two(f, Word::And, g);
    let with_and = seq![Tok::Word(Word::And)] + u + end;
    let all = start + t + with_and;
    lemma_writes_within(start, t, with_and, 0, a);
    let before = start + t + seq![Tok::Word(Word::And)];
    assert(all =~= before + u + end);
    lemma_writes_within(before, u, end, 0, b);
    assert(all[0] == Tok::Word(Word::Open));
    assert(all[all.len() - 1] == Tok::Word(Word::Close));
    assert(all[1 + t.len() as int] == Tok::Word(Word::And));
    let c = Conjunction::Simple(Box::new(a), Box::new(b));
    assert(filters::writes_conj(all, 1, c));
    assert(filters::conj_width(c) == t.len() + 1 + u.len());
    assert(filters::is_writing(all, Expression::Conjunction(Box::new(c))));
    lemma_two(f, Word::Or, g);
    let with_or = seq![Tok::Word(Word::Or)] + u + end;
    let any = start + t + with_or;
    lemma_writes_within(start, t, with_or, 0, a);
    let before = start + t + seq![Tok::Word(Word::Or)];
    assert(any =~= before + u + end);
    lemma_writes_within(before, u, end, 0, b);
    assert(any[0] == Tok::Word(Word::Open));
    assert(any[any.len() - 1] == Tok::Word(Word::Close));
    assert(any[1 + t.len() as int] == Tok::Word(Word::Or));
    let d = Disjunction::Simple(Box::new(a), Box::new(b));
    assert(filters::writes_disj(any, 1, d));
    assert(filters::disj_width(d) == t.len() + 1 + u.len());
    assert(filters::is_writing(any, Expression::Disjunction(Box::new(d))));
}

/// The tokens of two texts with an operator between them.
proof fn lemma_pair(f: Seq<char>, w: Word, g: Seq<char>)
    requires
        w == Word::And || w == Word::Or,
        filters::tokens_of(f) is Some,
        filters::tokens_of(g) is Some,
    ensures
        filters::tokens_of(f + " "@ + filters::word_text(w) + " "@ + g) == Some(
            filters::tokens_of(f)->0 + (seq![Tok::Word(w)] + filters::tokens_of(g)->0),
        ),
{
    reveal_strlit(" ");
    let o = filters::word_text(w);
    let none = Seq::<char>::empty();
    let (t, u) = (filters::tokens_of(f)->0, filters::tokens_of(g)->0);
    let s = f + " "@ + o + " "@ + g;
    let p4 = f + " "@ + o + " "@;
    assert(s =~= p4 + g + none);
    searches::lemma_nothing_follows(s);
    lemma_within(p4, g, none, 0, Seq::empty());
    assert(u + Seq::<Tok>::empty() =~= u);
    let p3 = f + " "@ + o;
    assert(s =~= p3 + " "@ + g);
    lemma_space(p3, g, u);
    let p2 = f + " "@;
    let q2 = " "@ + g;
    assert(s =~= p2 + o + q2);
    lemma_word(p2, w, q2, u);
    let rest = seq![Tok::Word(w)] + u;
    let q1 = o + " "@ + g;
    assert(s =~= f + " "@ + q1);
    lemma_space(f, q1, rest);
    let q0 = " "@ + o + " "@ + g;
    assert(s =~= none + f + q0);
    lemma_within(none, f, q0, 0, rest);
    searches::lemma_follow_all(s, t + rest);
}

/// Three filters with "AND" between them, in parentheses, are the conjunction of all three; with "OR",
/// their disjunction.
pub proof fn law_and_or_more(
    f: Seq<char>,
    a: Expression,
    g: Seq<char>,
    b: Expression,
    h: Seq<char>,
    c: Expression,
)
    requires
        filters::is_filter(f, a),
        filters::is_filter(g, b),
        filters::is_filter(h, c),
    ensures
        filters::is_filter(
            "("@ + (f + " "@ + "AND"@ + " "@ + g) + " "@ + "AND"@ + " "@ + h + ")"@,
            Expression::Conjunction(
                Box::new(
                    Conjunction::Compound(
                        Box::new(Conjunction::Simple(Box::new(a), Box::new(b))),
                        Box::new(c),
                    ),
                ),
            ),
        ),
        filters::is_filter(
            "("@ + (f + " "@ + "OR"@ + " "@ + g) + " "@ + "OR"@ + " "@ + h + ")"@,
            Expression::Disjunction(
                Box::new(
                    Disjunction::Compound(
                        Box::new(Disjunction::Simple(Box::new(a), Box::new(b))),
                        Box::new(c),
                    ),
                ),
            ),
        ),
{
    assert(filters::word_text(Word::And) == "AND"@);
    assert(filters::word_text(Word::Or) == "OR"@);
    lemma_three(f, a, g, b, h, c, Word::And);
    lemma_three(f, a, g, b, h, c, Word::Or);
    let both = Conjunction::Compound(
        Box::new(Conjunction::Simple(Box::new(a), Box::new(b))),
        Box::new(c),
    );
    let any = Disjunction::Compound(
        Box::new(Disjunction::Simple(Box::new(a), Box::new(b))),
        Box::new(c),
    );
    let x = filters::tokens_of("("@ + (f + " "@ + "AND"@ + " "@ + g) + " "@ + "AND"@ + " "@ + h + ")"@)->0;
    reveal_with_fuel(filters::writes_conj, 3);
    reveal_with_fuel(filters::conj_width, 3);
    assert(filters::writes_conj(x, 1, both));
    let e = Expression::Conjunction(Box::new(both));
    assert(filters::width(e) == 2 + filters::conj_width(both));
    assert(filters::width(e) == x.len());
    assert(filters::writes(x, 0, e));
    assert(filters::is_writing(x, e));
    let y = filters::tokens_of("("@ + (f + " "@ + "OR"@ + " "@ + g) + " "@ + "OR"@ + " "@ + h + ")"@)->0;
    reveal_with_fuel(filters::writes_disj, 3);
    reveal_with_fuel(filters::disj_width, 3);
    assert(filters::writes_disj(y, 1, any));
    let o = Expression::Disjunction(Box::new(any));
    assert(filters::width(o) == 2 + filters::disj_width(any));
    assert(filters::width(o) == y.len());
    assert(filters::writes(y, 0, o));
    assert(filters::is_writing(y, o));
}

proof fn lemma_three(
    f: Seq<char>,
    a: Expression,
    g: Seq<char>,
    b: Expression,
    h: Seq<char>,
    c: Expression,
    w: Word,
)
    requires
        w == Word::And || w == Word::Or,
        filters::is_filter(f, a),
        filters::is_filter(g, b),
        filters::is_filter(h, c),
    ensures
        ({
            let o = filters::word_text(w);
            let x = filters::tokens_of("("@ + (f + " "@ + o + " "@ + g) + " "@ + o + " "@ + h + ")"@);
            let (i, j) = (1 + filters::width(a), 2 + filters::width(a) + filters::width(b));
            &&& x is Some
            &&& x->0.len() == j + filters::width(c) + 2
            &&& filters::word_is(x->0, 0, Word::Open)
            &&& filters::writes(x->0, 1, a)
            &&& filters::word_is(x->0, i, w)
            &&& filters::writes(x->0, i + 1, b)
            &&& filters::word_is(x->0, j, w)
            &&& filters::writes(x->0, j + 1, c)
            &&& filters::word_is(x->0, x->0.len() - 1, Word::Close)
        }),
{
    let (t, u, v) = (
        filters::tokens_of(f)->0,
        filters::tokens_of(g)->0,
        filters::tokens_of(h)->0,
    );
    let o = filters::word_text(w);
    filters::lemma_width(a);
    filters::lemma_width(b);
    filters::lemma_width(c);
    lemma_pair(f, w, g);
    lemma_two(f + " "@ + o + " "@ + g, w, h);
    let start = seq![Tok::Word(Word::Open)];
    let end = seq![Tok::Word(Word::Close)];
    let op = seq![Tok::Word(w)];
    let all = start + (t + (op + u)) + (op + v + end);
    let r1 = op + u + op + v + end;
    assert(all =~= start + t + r1);
    lemma_writes_within(start, t, r1, 0, a);
    let p2 = start + t + op;
    let r2 = op + v + end;
    assert(all =~= p2 + u + r2);
    lemma_writes_within(p2, u, r2, 0, b);
    let p3 = start + t + op + u + op;
    assert(all =~= p3 + v + end);
    lemma_writes_within(p3, v, end, 0, c);
    assert(all[0] == Tok::Word(Word::Open));
    assert(all[1 + t.len() as int] == Tok::Word(w));
    assert(all[2 + t.len() as int + u.len() as int] == Tok::Word(w));
    assert(all[all.len() - 1] == Tok::Word(Word::Close));
}

} // verus!
