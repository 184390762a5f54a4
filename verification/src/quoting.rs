//! What quoting does, breaking up into tokens undoes.

use vstd::prelude::*;

use crate::clients;
use crate::filters_ast;
use crate::messages;
use crate::mppopm;

verus! {

// ---------------------------------------------------------------------------------------------
// Encodings
// ---------------------------------------------------------------------------------------------

/// The encoding of a text is that of its parts, one after the other.
pub(crate) proof fn lemma_encode_concat(a: Seq<char>, b: Seq<char>)
    ensures
        vstd::utf8::encode_utf8(a + b) == vstd::utf8::encode_utf8(a) + vstd::utf8::encode_utf8(b),
    decreases a.len(),
{
    if a.len() == 0 {
        assert(a + b =~= b);
        assert(vstd::utf8::encode_utf8(a) + vstd::utf8::encode_utf8(b)
            =~= vstd::utf8::encode_utf8(b));
    } else {
        assert((a + b).drop_first() =~= a.drop_first() + b);
        lemma_encode_concat(a.drop_first(), b);
        assert(vstd::utf8::encode_utf8(a + b) =~= vstd::utf8::encode_utf8(a)
            + vstd::utf8::encode_utf8(b));
    }
}

/// An ASCII character is encoded as itself, & any other as bytes none of which is ASCII.
pub(crate) proof fn lemma_encode_char(c: char)
    ensures
        ({
            let e = vstd::utf8::encode_utf8(seq![c]);
            &&& e.len() > 0
            &&& (c as int) < 0x80 ==> e == seq![c as u8] && c as u8 == c as int
            &&& (c as int) >= 0x80 ==> forall|i: int| 0 <= i < e.len() ==> #[trigger] e[i] >= 0x80
        }),
{
    reveal_with_fuel(vstd::utf8::encode_utf8, 2);
    let e = vstd::utf8::encode_utf8(seq![c]);
    let v = c as u32;
    assert(seq![c].drop_first() =~= Seq::<char>::empty());
    assert(e =~= vstd::utf8::encode_scalar(v));
    assert(v < 0x80 ==> (v & 0x7F) as u8 == v as u8) by (bit_vector);
    assert((0xC0u8 | ((v >> 6) & 0x1F) as u8) >= 0x80) by (bit_vector);
    assert((0xE0u8 | ((v >> 12) & 0x0F) as u8) >= 0x80) by (bit_vector);
    assert((0xF0u8 | ((v >> 18) & 0x7) as u8) >= 0x80) by (bit_vector);
    assert((0x80u8 | (v & 0x3F) as u8) >= 0x80) by (bit_vector);
    assert((0x80u8 | ((v >> 6) & 0x3F) as u8) >= 0x80) by (bit_vector);
    assert((0x80u8 | ((v >> 12) & 0x3F) as u8) >= 0x80) by (bit_vector);
}

// ---------------------------------------------------------------------------------------------
// Tokens
// ---------------------------------------------------------------------------------------------

/// Whether a text can be an argument to a command: it is not empty, & it has no control characters in it
/// unless it is to be quoted.
pub open spec fn carries(s: Seq<char>) -> bool {
    &&& s.len() > 0
    &&& has_separator(s) || forall|i: int| 0 <= i < s.len() ==> #[trigger] s[i] > ' '
}

/// Whether there is a space, a tab or a quote in a text.
pub open spec fn has_separator(s: Seq<char>) -> bool {
    s.contains(' ') || s.contains('\t') || s.contains('\'') || s.contains('"')
}

/// A text is quoted if there is a space, a tab or a quote in it, & is left as it is if there is none.
pub proof fn law_quoted(s: Seq<char>)
    ensures
        has_separator(s) ==> clients::quoted(s).len() >= s.len() + 2 && clients::quoted(s)[0] == '"'
            && clients::quoted(s).last() == '"',
        !has_separator(s) ==> clients::quoted(s) == s,
{
    lemma_separator(s);
    lemma_escaped_len(s);
}

proof fn lemma_escaped_len(s: Seq<char>)
    ensures
        clients::escaped(s).len() >= s.len(),
    decreases s.len(),
{
    if s.len() > 0 {
        lemma_escaped_len(s.drop_last());
    }
}

pub(crate) proof fn lemma_separator(s: Seq<char>)
    ensures
        has_separator(s) <==> clients::needs_quotes(s),
{
    if s.contains(' ') {
        assert(clients::wants_quotes(s[s.index_of(' ')]));
    }
    if s.contains('\t') {
        assert(clients::wants_quotes(s[s.index_of('\t')]));
    }
    if s.contains('\'') {
        assert(clients::wants_quotes(s[s.index_of('\'')]));
    }
    if s.contains('"') {
        assert(clients::wants_quotes(s[s.index_of('"')]));
    }
    if clients::needs_quotes(s) {
        let i = choose|i: int| 0 <= i < s.len() && clients::wants_quotes(#[trigger] s[i]);
        assert(s.contains(s[i]));
    }
}

/// Escaping goes character by character.
pub proof fn lemma_escaped_concat(a: Seq<char>, b: Seq<char>)
    ensures
        clients::escaped(a + b) == clients::escaped(a) + clients::escaped(b),
    decreases b.len(),
{
    if b.len() == 0 {
        assert(a + b =~= a);
        assert(clients::escaped(a) + clients::escaped(b) =~= clients::escaped(a));
    } else {
        assert((a + b).drop_last() =~= a + b.drop_last());
        lemma_escaped_concat(a, b.drop_last());
        assert(clients::escaped(a + b) =~= clients::escaped(a) + clients::escaped(b));
    }
}

/// Bytes within quotes that are neither quotes nor backslashes stand for themselves.
proof fn lemma_plain_run(s: Seq<u8>, i: int, e: Seq<u8>)
    requires
        0 <= i,
        i + e.len() <= s.len(),
        s.subrange(i, i + e.len()) == e,
        forall|k: int| 0 <= k < e.len() ==> #[trigger] e[k] != 0x22 && e[k] != 0x5c,
    ensures
        messages::quoted_from(s, i) == (match messages::quoted_from(s, i + e.len()) {
            Ok((token, end)) => Ok((e + token, end)),
            Err(err) => Err(err),
        }),
    decreases e.len(),
{
    if e.len() == 0 {
        if let Ok((token, end)) = messages::quoted_from(s, i) {
            assert(e + token =~= token);
        }
    } else {
        let rest = e.drop_first();
        assert(s[i] == s.subrange(i, i + e.len())[0]);
        assert(s.subrange(i + 1, i + 1 + rest.len()) =~= rest) by {
            assert forall|k: int| 0 <= k < rest.len() implies #[trigger] s[i + 1 + k] == rest[k] by {
                assert(s.subrange(i, i + e.len())[k + 1] == e[k + 1]);
            }
        }
        lemma_plain_run(s, i + 1, rest);
        if let Ok((token, end)) = messages::quoted_from(s, i + e.len()) {
            assert(seq![e[0]] + (rest + token) =~= e + token);
        }
    }
}

/// What an escaped text, & a quote after it, stand for within quotes: the text.
pub(crate) proof fn lemma_quoted_text(p: Seq<u8>, x: Seq<char>, t: Seq<u8>)
    ensures
        messages::quoted_from(
            p + vstd::utf8::encode_utf8(clients::escaped(x)) + seq![0x22u8] + t,
            p.len() as int,
        ) == Ok::<(Seq<u8>, int), messages::ErrorView>(
            (
                vstd::utf8::encode_utf8(x),
                p.len() as int + vstd::utf8::encode_utf8(clients::escaped(x)).len() + 1,
            ),
        ),
    decreases x.len(),
{
    let body = vstd::utf8::encode_utf8(clients::escaped(x));
    let s = p + body + seq![0x22u8] + t;
    let i = p.len() as int;
    if x.len() == 0 {
        assert(clients::escaped(x) =~= Seq::empty());
        assert(body =~= Seq::empty());
        assert(s[i] == 0x22);
    } else {
        let c = x[0];
        let rest = x.drop_first();
        assert(seq![c] + rest =~= x);
        lemma_escaped_concat(seq![c], rest);
        lemma_encode_concat(clients::escaped(seq![c]), clients::escaped(rest));
        lemma_encode_concat(seq![c], rest);
        lemma_encode_char(c);
        reveal_with_fuel(clients::escaped, 2);
        assert(seq![c].drop_last() =~= Seq::<char>::empty());
        let e = vstd::utf8::encode_utf8(seq![c]);
        let more = vstd::utf8::encode_utf8(clients::escaped(rest));
        if c == '"' || c == '\\' {
            assert(clients::escaped(seq![c]) =~= seq!['\\'] + seq![c]);
            lemma_encode_concat(seq!['\\'], seq![c]);
            lemma_encode_char('\\');
            assert(body =~= seq![0x5cu8, c as u8] + more);
            let q = p + seq![0x5cu8, c as u8];
            lemma_quoted_text(q, rest, t);
            assert(q + more + seq![0x22u8] + t =~= s);
            assert(s[i] == 0x5c && s[i + 1] == c as u8);
            assert(q.len() == i + 2);
        } else {
            assert(clients::escaped(seq![c]) =~= seq![c]);
            assert(body =~= e + more);
            let q = p + e;
            lemma_quoted_text(q, rest, t);
            assert(q + more + seq![0x22u8] + t =~= s);
            assert(s.subrange(i, i + e.len()) =~= e);
            assert forall|k: int| 0 <= k < e.len() implies #[trigger] e[k] != 0x22 && e[k]
                != 0x5c by {
                if (c as int) < 0x80 {
                    assert(e[k] == c as u8);
                }
            }
            lemma_plain_run(s, i, e);
            assert(q.len() == i + e.len());
        }
    }
}

/// The bytes of a text that needs no quotes, & has no control characters, are those of a token.
pub(crate) proof fn lemma_bare_bytes(x: Seq<char>)
    requires
        !clients::needs_quotes(x),
        forall|i: int| 0 <= i < x.len() ==> #[trigger] x[i] > ' ',
    ensures
        x.len() > 0 ==> vstd::utf8::encode_utf8(x).len() > 0,
        forall|k: int|
            0 <= k < vstd::utf8::encode_utf8(x).len() ==> {
                let b = #[trigger] vstd::utf8::encode_utf8(x)[k];
                b > 0x20 && b != 0x22 && b != 0x27
            },
    decreases x.len(),
{
    if x.len() > 0 {
        let c = x[0];
        let rest = x.drop_first();
        assert(seq![c] + rest =~= x);
        assert(!clients::wants_quotes(x[0]));
        assert forall|i: int| 0 <= i < rest.len() implies !clients::wants_quotes(
            #[trigger] rest[i],
        ) && rest[i] > ' ' by {
            assert(rest[i] == x[i + 1]);
            assert(!clients::wants_quotes(x[i + 1]));
        }
        lemma_bare_bytes(rest);
        lemma_encode_concat(seq![c], rest);
        lemma_encode_char(c);
        let e = vstd::utf8::encode_utf8(seq![c]);
        let more = vstd::utf8::encode_utf8(rest);
        assert forall|k: int| 0 <= k < (e + more).len() implies {
            let b = #[trigger] (e + more)[k];
            b > 0x20 && b != 0x22 && b != 0x27
        } by {
            if k < e.len() {
                if (c as int) < 0x80 {
                    assert(e[k] == c as u8);
                } else {
                    assert(e[k] >= 0x80);
                }
            } else {
                assert((e + more)[k] == more[k - e.len()]);
            }
        }
    }
}

/// A token without quotes goes as far as its bytes do.
pub(crate) proof fn lemma_bare_run(s: Seq<u8>, i: int, j: int)
    requires
        0 <= i <= j <= s.len(),
        forall|k: int| i <= k < j ==> #[trigger] s[k] > 0x20 && s[k] != 0x22 && s[k] != 0x27,
        j == s.len() || s[j] <= 0x20,
    ensures
        messages::bare_end(s, i) == Ok::<int, messages::ErrorView>(j),
    decreases j - i,
{
    if i < j {
        lemma_bare_run(s, i + 1, j);
    }
}

/// The encodings of texts.
pub open spec fn encodings(args: Seq<Seq<char>>) -> Seq<Seq<u8>> {
    args.map_values(|a: Seq<char>| vstd::utf8::encode_utf8(a))
}

/// The first byte of an argument is no blank.
proof fn lemma_first_byte(x: Seq<char>)
    requires
        carries(x),
    ensures
        ({
            let e = vstd::utf8::encode_utf8(clients::quoted(x));
            &&& e.len() > 0
            &&& e[0] > 0x20
            &&& (e[0] == 0x22) == clients::needs_quotes(x)
        }),
{
    if clients::needs_quotes(x) {
        lemma_encode_concat(seq!['"'] + clients::escaped(x), seq!['"']);
        lemma_encode_concat(seq!['"'], clients::escaped(x));
        lemma_encode_char('"');
    } else {
        lemma_bare_bytes(x);
    }
}

/// The first token of a text that starts with an argument, after which there is nothing or one space &
/// another argument, is the argument.
proof fn lemma_first_token(p: Seq<u8>, x: Seq<char>, t: Seq<u8>)
    requires
        carries(x),
        t.len() == 0 || t.len() > 1 && t[0] == 0x20 && t[1] > 0x20,
    ensures
        ({
            let e = vstd::utf8::encode_utf8(clients::quoted(x));
            let s = p + e + t;
            let next = if t.len() == 0 {
                s.len() as int
            } else {
                p.len() as int + e.len() + 1
            };
            messages::tokens_from(s, p.len() as int) == messages::token_then(
                vstd::utf8::encode_utf8(x),
                messages::tokens_from(s, next),
            )
        }),
{
    let e = vstd::utf8::encode_utf8(clients::quoted(x));
    let s = p + e + t;
    let i = p.len() as int;
    let j = i + e.len();
    lemma_first_byte(x);
    assert(s[i] == e[0]);
    reveal_with_fuel(messages::blanks_end, 3);
    if t.len() > 0 {
        assert(s[j] == t[0] && s[j + 1] == t[1]);
    }
    if clients::needs_quotes(x) {
        let body = vstd::utf8::encode_utf8(clients::escaped(x));
        lemma_encode_concat(seq!['"'] + clients::escaped(x), seq!['"']);
        lemma_encode_concat(seq!['"'], clients::escaped(x));
        lemma_encode_char('"');
        assert(e =~= seq![0x22u8] + body + seq![0x22u8]);
        let q = p + seq![0x22u8];
        lemma_quoted_text(q, x, t);
        assert(q + body + seq![0x22u8] + t =~= s);
        assert(q.len() + body.len() + 1 == j);
    } else {
        lemma_bare_bytes(x);
        assert forall|k: int| i <= k < j implies #[trigger] s[k] > 0x20 && s[k] != 0x22 && s[k]
            != 0x27 by {
            assert(s[k] == e[k - i]);
        }
        lemma_bare_run(s, i, j);
        assert(s.subrange(i, j) =~= e);
    }
}

/// A message with arguments, from the front.
pub proof fn lemma_message_front(args: Seq<Seq<char>>, n: int)
    requires
        2 <= n <= args.len(),
    ensures
        mppopm::command_message(args, n) == clients::quoted(args[0]) + " "@
            + mppopm::command_message(args.drop_first(), n - 1),
    decreases n,
{
    let rest = args.drop_first();
    reveal_with_fuel(mppopm::command_message, 2);
    assert(rest[n - 2] == args[n - 1]);
    if n > 2 {
        lemma_message_front(args, n - 1);
        assert(mppopm::command_message(args, n) =~= clients::quoted(args[0]) + " "@
            + mppopm::command_message(rest, n - 1));
    }
}

/// The tokens of a message with arguments are the arguments.
proof fn lemma_message_tokens(p: Seq<u8>, args: Seq<Seq<char>>)
    requires
        forall|k: int| 0 <= k < args.len() ==> carries(#[trigger] args[k]),
    ensures
        messages::tokens_from(
            p + vstd::utf8::encode_utf8(mppopm::command_message(args, args.len() as int)),
            p.len() as int,
        ) == Ok::<Seq<Seq<u8>>, messages::ErrorView>(encodings(args)),
    decreases args.len(),
{
    let n = args.len() as int;
    let m = vstd::utf8::encode_utf8(mppopm::command_message(args, n));
    if n == 0 {
        assert(p + m =~= p);
        assert(encodings(args) =~= Seq::empty());
    } else {
        let x = args[0];
        let rest = args.drop_first();
        let e = vstd::utf8::encode_utf8(clients::quoted(x));
        assert forall|k: int| 0 <= k < rest.len() implies carries(#[trigger] rest[k]) by {
            assert(rest[k] == args[k + 1]);
        }
        assert(encodings(args) =~= seq![vstd::utf8::encode_utf8(x)] + encodings(rest));
        if n == 1 {
            lemma_first_token(p, x, Seq::empty());
            assert(p + e + Seq::<u8>::empty() =~= p + m);
            assert(encodings(rest) =~= Seq::empty());
        } else {
            let after = mppopm::command_message(rest, n - 1);
            let more = vstd::utf8::encode_utf8(after);
            reveal_strlit(" ");
            assert(" "@ =~= seq![' ']);
            lemma_message_front(args, n);
            lemma_encode_concat(clients::quoted(x) + " "@, after);
            lemma_encode_concat(clients::quoted(x), " "@);
            lemma_encode_char(' ');
            assert(m =~= e + seq![0x20u8] + more);
            let q = p + e + seq![0x20u8];
            lemma_message_tokens(q, rest);
            lemma_first_byte(rest[0]);
            lemma_message_start(rest);
            let t = seq![0x20u8] + more;
            assert(t[1] == more[0]);
            lemma_first_token(p, x, t);
            assert(p + e + t =~= p + m);
            assert(q + more =~= p + m);
        }
    }
}

/// The first byte of a message with arguments is no blank.
proof fn lemma_message_start(args: Seq<Seq<char>>)
    requires
        args.len() > 0,
        carries(args[0]),
    ensures
        ({
            let m = vstd::utf8::encode_utf8(mppopm::command_message(args, args.len() as int));
            m.len() > 0 && m[0] > 0x20
        }),
{
    let n = args.len() as int;
    lemma_first_byte(args[0]);
    if n > 1 {
        lemma_message_front(args, n);
        lemma_encode_concat(
            clients::quoted(args[0]) + " "@,
            mppopm::command_message(args.drop_first(), n - 1),
        );
        lemma_encode_concat(clients::quoted(args[0]), " "@);
    }
}

/// Encodings of texts are read as those texts.
pub(crate) proof fn lemma_token_texts(args: Seq<Seq<char>>, n: int)
    requires
        0 <= n <= args.len(),
    ensures
        messages::token_texts(encodings(args), n) == Ok::<Seq<Seq<char>>, messages::ErrorView>(
            args.take(n),
        ),
    decreases n,
{
    if n > 0 {
        lemma_token_texts(args, n - 1);
        vstd::utf8::encode_utf8_valid_utf8(args[n - 1]);
        vstd::utf8::encode_utf8_decode_utf8(args[n - 1]);
        assert(args.take(n) =~= args.take(n - 1).push(args[n - 1]));
    } else {
        assert(args.take(n) =~= Seq::empty());
    }
}

// ---------------------------------------------------------------------------------------------
// Tokens of texts
// ---------------------------------------------------------------------------------------------

/// A text that is taken apart is the text.
proof fn lemma_apart(p: Seq<u8>, x: Seq<char>, k: int)
    requires
        0 <= k <= x.len(),
    ensures
        (p + vstd::utf8::encode_utf8(x.take(k))) + vstd::utf8::encode_utf8(x.skip(k)) == p
            + vstd::utf8::encode_utf8(x),
        k < x.len() ==> vstd::utf8::encode_utf8(x.skip(k)).len() > 0,
{
    assert(x.take(k) + x.skip(k) =~= x);
    lemma_encode_concat(x.take(k), x.skip(k));
    assert((p + vstd::utf8::encode_utf8(x.take(k))) + vstd::utf8::encode_utf8(x.skip(k)) =~= p
        + vstd::utf8::encode_utf8(x));
    if k < x.len() {
        let c = x[k];
        assert(seq![c] + x.skip(k + 1) =~= x.skip(k));
        lemma_encode_concat(seq![c], x.skip(k + 1));
        lemma_encode_char(c);
    }
}

/// The encoding of a text that starts with a character starts with that of the character.
proof fn lemma_front(p: Seq<u8>, x: Seq<char>)
    requires
        x.len() > 0,
    ensures
        ({
            let e = vstd::utf8::encode_utf8(seq![x[0]]);
            let s = p + vstd::utf8::encode_utf8(x);
            &&& e.len() > 0
            &&& (p + e) + vstd::utf8::encode_utf8(x.skip(1)) == s
            &&& p.len() + e.len() <= s.len()
            &&& s.subrange(p.len() as int, p.len() as int + e.len()) == e
            &&& (x[0] as int) < 0x80 ==> e.len() == 1 && s[p.len() as int] == x[0] as int
            &&& (x[0] as int) >= 0x80 ==> forall|i: int|
                p.len() <= i < p.len() + e.len() ==> #[trigger] s[i] >= 0x80
            &&& forall|k: int|
                0 <= k < x.len() ==> #[trigger] vstd::utf8::encode_utf8(x.take(k + 1)).len()
                    == e.len() + vstd::utf8::encode_utf8(x.skip(1).take(k)).len()
        }),
{
    let c = x[0];
    let e = vstd::utf8::encode_utf8(seq![c]);
    let s = p + vstd::utf8::encode_utf8(x);
    let i = p.len() as int;
    assert(x.take(1) =~= seq![c]);
    lemma_apart(p, x, 1);
    lemma_encode_char(c);
    assert(s.subrange(i, i + e.len()) =~= e);
    assert forall|j: int| i <= j < i + e.len() implies s[j] == e[j - i] by {}
    assert forall|k: int| 0 <= k < x.len() implies #[trigger] vstd::utf8::encode_utf8(
        x.take(k + 1),
    ).len() == e.len() + vstd::utf8::encode_utf8(x.skip(1).take(k)).len() by {
        assert(seq![c] + x.skip(1).take(k) =~= x.take(k + 1));
        lemma_encode_concat(seq![c], x.skip(1).take(k));
    }
}

/// A token in quotes in a text is a text, & ends between two characters: answers the text, & the number of
/// characters.
proof fn lemma_quoted_chars(p: Seq<u8>, x: Seq<char>) -> (r: (Seq<char>, int))
    ensures
        match messages::quoted_from(p + vstd::utf8::encode_utf8(x), p.len() as int) {
            Ok((token, j)) => {
                &&& token == vstd::utf8::encode_utf8(r.0)
                &&& 0 < r.1 <= x.len()
                &&& j == p.len() + vstd::utf8::encode_utf8(x.take(r.1)).len()
            },
            Err(_) => true,
        },
    decreases x.len(),
{
    let s = p + vstd::utf8::encode_utf8(x);
    let i = p.len() as int;
    if x.len() == 0 {
        assert(s =~= p);
        (Seq::empty(), 0)
    } else {
        let c = x[0];
        let e = vstd::utf8::encode_utf8(seq![c]);
        lemma_front(p, x);
        assert(x.take(1) =~= seq![c]);
        if c == '"' {
            assert(vstd::utf8::encode_utf8(Seq::empty()) =~= Seq::<u8>::empty());
            (Seq::empty(), 1)
        } else if c == '\\' {
            if x.len() == 1 {
                assert(x.skip(1) =~= Seq::<char>::empty());
                assert(s.len() == i + 1);
                (Seq::empty(), 0)
            } else {
                let d = x[1];
                let f = vstd::utf8::encode_utf8(seq![d]);
                let rest = x.skip(1);
                lemma_front(p + e, rest);
                assert(rest[0] == d);
                lemma_encode_char(d);
                let q = p + e + f;
                let (y, k) = lemma_quoted_chars(q, rest.skip(1));
                assert(s[i + 1] == s.subrange(i + 1, i + 1 + f.len())[0]);
                let tail = f.skip(1);
                assert(s.subrange(i + 2, i + 2 + tail.len()) =~= tail) by {
                    assert forall|m: int| 0 <= m < tail.len() implies #[trigger] s[i + 2 + m]
                        == tail[m] by {
                        assert(s.subrange(i + 1, i + 1 + f.len())[m + 1] == f[m + 1]);
                    }
                }
                lemma_plain_run(s, i + 2, tail);
                if let Ok((token, j)) = messages::quoted_from(s, q.len() as int) {
                    lemma_encode_concat(seq![d], y);
                    assert(seq![f[0]] + (tail + token) =~= f + token);
                    assert(vstd::utf8::encode_utf8(x.take(k + 1 + 1)).len() == e.len()
                        + vstd::utf8::encode_utf8(rest.take(k + 1)).len());
                }
                (seq![d] + y, k + 2)
            }
        } else {
            let (y, k) = lemma_quoted_chars(p + e, x.skip(1));
            lemma_encode_char(c);
            assert forall|m: int| 0 <= m < e.len() implies #[trigger] e[m] != 0x22 && e[m]
                != 0x5c by {
                if (c as int) < 0x80 {
                    assert(e[m] == c as u8);
                }
            }
            lemma_plain_run(s, i, e);
            if let Ok((token, j)) = messages::quoted_from(s, i + e.len()) {
                lemma_encode_concat(seq![c], y);
                assert(vstd::utf8::encode_utf8(x.take(k + 1)).len() == e.len()
                    + vstd::utf8::encode_utf8(x.skip(1).take(k)).len());
            }
            (seq![c] + y, k + 1)
        }
    }
}

/// Bytes that are part of a token without quotes do not end it.
proof fn lemma_bare_step(s: Seq<u8>, i: int, j: int)
    requires
        0 <= i <= j <= s.len(),
        forall|k: int| i <= k < j ==> #[trigger] s[k] > 0x20 && s[k] != 0x22 && s[k] != 0x27,
    ensures
        messages::bare_end(s, i) == messages::bare_end(s, j),
    decreases j - i,
{
    if i < j {
        lemma_bare_step(s, i + 1, j);
    }
}

/// A token without quotes in a text ends between two characters: answers the number of characters.
proof fn lemma_bare_chars(p: Seq<u8>, x: Seq<char>) -> (k: int)
    ensures
        0 <= k <= x.len(),
        match messages::bare_end(p + vstd::utf8::encode_utf8(x), p.len() as int) {
            Ok(j) => j == p.len() + vstd::utf8::encode_utf8(x.take(k)).len(),
            Err(_) => true,
        },
    decreases x.len(),
{
    let s = p + vstd::utf8::encode_utf8(x);
    let i = p.len() as int;
    assert(x.take(0) =~= Seq::<char>::empty());
    if x.len() == 0 {
        assert(s =~= p);
        0
    } else {
        let c = x[0];
        let e = vstd::utf8::encode_utf8(seq![c]);
        lemma_front(p, x);
        if c as int <= 0x20 || c == '"' || c == '\'' {
            0
        } else {
            let k = lemma_bare_chars(p + e, x.skip(1));
            lemma_bare_step(s, i, i + e.len());
            assert(vstd::utf8::encode_utf8(x.take(k + 1)).len() == e.len()
                + vstd::utf8::encode_utf8(x.skip(1).take(k)).len());
            k + 1
        }
    }
}

/// Blanks in a text end between two characters: answers the number of characters.
proof fn lemma_gap_chars(p: Seq<u8>, x: Seq<char>) -> (k: int)
    ensures
        0 <= k <= x.len(),
        messages::blanks_end(p + vstd::utf8::encode_utf8(x), p.len() as int) == p.len()
            + vstd::utf8::encode_utf8(x.take(k)).len(),
    decreases x.len(),
{
    let s = p + vstd::utf8::encode_utf8(x);
    assert(x.take(0) =~= Seq::<char>::empty());
    if x.len() == 0 {
        assert(s =~= p);
        0
    } else {
        let c = x[0];
        let e = vstd::utf8::encode_utf8(seq![c]);
        lemma_front(p, x);
        let k = lemma_gap_chars(p + e, x.skip(1));
        assert(vstd::utf8::encode_utf8(x.take(k + 1)).len() == e.len() + vstd::utf8::encode_utf8(
            x.skip(1).take(k),
        ).len());
        if c as int <= 0x20 {
            k + 1
        } else {
            0
        }
    }
}

/// Whether each of some tokens is valid UTF-8.
spec fn all_valid(t: Seq<Seq<u8>>) -> bool {
    forall|k: int| 0 <= k < t.len() ==> vstd::utf8::valid_utf8(#[trigger] t[k])
}

/// Blanks after some of a text's characters end between two characters: answers the number of characters.
proof fn lemma_next_chars(p: Seq<u8>, x: Seq<char>, k: int) -> (l: int)
    requires
        0 <= k <= x.len(),
    ensures
        k <= l <= x.len(),
        messages::blanks_end(
            p + vstd::utf8::encode_utf8(x),
            p.len() as int + vstd::utf8::encode_utf8(x.take(k)).len(),
        ) == p.len() + vstd::utf8::encode_utf8(x.take(l)).len(),
{
    lemma_apart(p, x, k);
    let m = lemma_gap_chars(p + vstd::utf8::encode_utf8(x.take(k)), x.skip(k));
    assert(x.take(k) + x.skip(k).take(m) =~= x.take(k + m));
    lemma_encode_concat(x.take(k), x.skip(k).take(m));
    k + m
}

/// A token before others: they are valid if it & they are.
proof fn lemma_valid_then(t: Seq<u8>, rest: Result<Seq<Seq<u8>>, messages::ErrorView>)
    requires
        vstd::utf8::valid_utf8(t),
        rest is Ok ==> all_valid(rest->Ok_0),
    ensures
        messages::token_then(t, rest) is Ok ==> all_valid(messages::token_then(t, rest)->Ok_0),
{
    if let Ok(rest) = rest {
        let all = seq![t] + rest;
        assert forall|k: int| 0 <= k < all.len() implies vstd::utf8::valid_utf8(
            #[trigger] all[k],
        ) by {
            if k > 0 {
                assert(all[k] == rest[k - 1]);
            }
        }
    }
}

/// The tokens of a text from a character on are valid UTF-8.
proof fn lemma_tokens_valid(p: Seq<u8>, x: Seq<char>)
    ensures
        ({
            let t = messages::tokens_from(p + vstd::utf8::encode_utf8(x), p.len() as int);
            t is Ok ==> all_valid(t->Ok_0)
        }),
    decreases x.len(),
{
    let s = p + vstd::utf8::encode_utf8(x);
    let i = p.len() as int;
    if x.len() == 0 {
        assert(s =~= p);
    } else {
        lemma_front(p, x);
        let e = vstd::utf8::encode_utf8(seq![x[0]]);
        if s[i] == 0x22 {
            if let Ok((token, j)) = messages::quoted_from(s, i + 1) {
                assert(p + e + vstd::utf8::encode_utf8(x.skip(1)) == s);
                let (y, k) = lemma_quoted_chars(p + e, x.skip(1));
                assert(vstd::utf8::encode_utf8(x.take(k + 1)).len() == e.len()
                    + vstd::utf8::encode_utf8(x.skip(1).take(k)).len());
                vstd::utf8::encode_utf8_valid_utf8(y);
                let l = lemma_next_chars(p, x, k + 1);
                lemma_apart(p, x, l);
                lemma_tokens_valid(p + vstd::utf8::encode_utf8(x.take(l)), x.skip(l));
                lemma_valid_then(token, messages::tokens_from(s, messages::blanks_end(s, j)));
            }
        } else {
            if let Ok(j) = messages::bare_end(s, i) {
                let k = lemma_bare_chars(p, x);
                lemma_apart(p, x, k);
                assert(s.subrange(i, j) =~= vstd::utf8::encode_utf8(x.take(k)));
                vstd::utf8::encode_utf8_valid_utf8(x.take(k));
                let l = lemma_next_chars(p, x, k);
                lemma_apart(p, x, l);
                if l > 0 {
                    lemma_tokens_valid(p + vstd::utf8::encode_utf8(x.take(l)), x.skip(l));
                } else {
                    assert(x.take(0) =~= Seq::<char>::empty());
                    assert(messages::blanks_end(s, j) == i);
                }
                lemma_valid_then(
                    s.subrange(i, j),
                    messages::tokens_from(s, messages::blanks_end(s, j)),
                );
            }
        }
    }
}

/// Valid tokens are read as the texts that they encode.
proof fn lemma_valid_texts(t: Seq<Seq<u8>>, n: int)
    requires
        0 <= n <= t.len(),
        all_valid(t),
    ensures
        messages::token_texts(t, n) is Ok,
        encodings(messages::token_texts(t, n)->Ok_0) == t.take(n),
    decreases n,
{
    if n > 0 {
        lemma_valid_texts(t, n - 1);
        assert(vstd::utf8::valid_utf8(t[n - 1]));
        let last = vstd::utf8::decode_utf8(t[n - 1]);
        vstd::utf8::decode_utf8_encode_utf8(t[n - 1]);
        let done = messages::token_texts(t, n - 1)->Ok_0;
        assert(messages::token_texts(t, n)->Ok_0 == done.push(last));
        assert(encodings(done.push(last)) =~= encodings(done).push(vstd::utf8::encode_utf8(last)));
        assert(t.take(n) =~= t.take(n - 1).push(t[n - 1]));
    } else {
        assert(encodings(messages::token_texts(t, n)->Ok_0) =~= t.take(n));
    }
}

// ---------------------------------------------------------------------------------------------
// Values
// ---------------------------------------------------------------------------------------------

/// What an escaped text, & a quote after it, stand for in a filter: the text.
proof fn lemma_unquoted_text(p: Seq<char>, x: Seq<char>)
    ensures
        filters_ast::unquoted_from(p + clients::escaped(x) + seq!['"'], p.len() as int, '"')
            == Some(x),
    decreases x.len(),
{
    let s = p + clients::escaped(x) + seq!['"'];
    let i = p.len() as int;
    if x.len() == 0 {
        assert(clients::escaped(x) =~= Seq::empty());
        assert(s[i] == '"');
        assert(x =~= Seq::empty());
    } else {
        let c = x[0];
        let rest = x.drop_first();
        assert(seq![c] + rest =~= x);
        lemma_escaped_concat(seq![c], rest);
        reveal_with_fuel(clients::escaped, 2);
        assert(seq![c].drop_last() =~= Seq::<char>::empty());
        if c == '"' || c == '\\' {
            assert(clients::escaped(seq![c]) =~= seq!['\\', c]);
            let q = p + seq!['\\', c];
            lemma_unquoted_text(q, rest);
            assert(q + clients::escaped(rest) + seq!['"'] =~= s);
            assert(s[i] == '\\' && s[i + 1] == c);
        } else {
            assert(clients::escaped(seq![c]) =~= seq![c]);
            let q = p + seq![c];
            lemma_unquoted_text(q, rest);
            assert(q + clients::escaped(rest) + seq!['"'] =~= s);
            assert(s[i] == c);
        }
    }
}

// ---------------------------------------------------------------------------------------------
// Laws
// ---------------------------------------------------------------------------------------------

/// Breaking up into tokens undoes quoting: the arguments of a command, each quoted, with spaces between
/// them, are the tokens of the message.
pub proof fn law_quoted_arguments(args: Seq<Seq<char>>)
    requires
        forall|k: int| 0 <= k < args.len() ==> carries(#[trigger] args[k]),
    ensures
        messages::arguments_of(mppopm::command_message(args, args.len() as int)) == Ok::<
            Seq<Seq<char>>,
            messages::ErrorView,
        >(args),
{
    let m = vstd::utf8::encode_utf8(mppopm::command_message(args, args.len() as int));
    lemma_message_tokens(Seq::empty(), args);
    assert(Seq::<u8>::empty() + m =~= m);
    if args.len() > 0 {
        lemma_message_start(args);
    }
    assert(messages::blanks_end(m, 0) == 0);
    lemma_token_texts(args, args.len() as int);
    assert(args.take(args.len() as int) =~= args);
}

/// Breaking up into tokens undoes quoting: a quoted text is one token, which is the text.
pub proof fn law_quoted_argument(x: Seq<char>)
    requires
        carries(x),
    ensures
        messages::arguments_of(clients::quoted(x)) == Ok::<Seq<Seq<char>>, messages::ErrorView>(
            seq![x],
        ),
{
    law_quoted_arguments(seq![x]);
    assert(mppopm::command_message(seq![x], 1) == clients::quoted(x));
}

/// A text that is quoted as a value of a filter is read as that text.
pub proof fn law_quoted_value(x: Seq<char>)
    ensures
        filters_ast::unquoted(filters_ast::quoted_value(filters_ast::ValueView::Text(x))) == Ok::<
            Seq<char>,
            filters_ast::ErrorView,
        >(x),
{
    lemma_unquoted_text(seq!['"'], x);
    assert(clients::in_quotes(x)[0] == '"');
}

/// The tokens of a message are texts, one & all: breaking it up never parts a character. So if a message
/// can be broken up, its tokens can be read as texts, whose encodings they are.
pub proof fn law_tokens_are_texts(msg: Seq<char>)
    ensures
        match messages::tokens_of(vstd::utf8::encode_utf8(msg)) {
            Ok(t) => {
                &&& messages::arguments_of(msg) is Ok
                &&& encodings(messages::arguments_of(msg)->Ok_0) == t
            },
            Err(e) => messages::arguments_of(msg) == Err::<Seq<Seq<char>>, messages::ErrorView>(e),
        },
{
    let s = vstd::utf8::encode_utf8(msg);
    assert(Seq::<u8>::empty() + s =~= s);
    let k = lemma_gap_chars(Seq::empty(), msg);
    lemma_apart(Seq::empty(), msg, k);
    let p = vstd::utf8::encode_utf8(msg.take(k));
    assert(Seq::<u8>::empty() + p =~= p);
    lemma_tokens_valid(p, msg.skip(k));
    if let Ok(t) = messages::tokens_of(s) {
        lemma_valid_texts(t, t.len() as int);
        assert(t.take(t.len() as int) =~= t);
    }
}

} // verus!
