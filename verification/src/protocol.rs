//! What is said to the server, & what is understood of what it says.

use vstd::prelude::*;

use crate::client;
use crate::clients;
use crate::messages;
use crate::mppopm;
use crate::number;
use crate::quoting;

verus! {

// ---------------------------------------------------------------------------------------------
// Requests
// ---------------------------------------------------------------------------------------------

/// Whether a text is an argument as it is, without quotes.
pub open spec fn is_bare(s: Seq<char>) -> bool {
    s.len() > 0 && forall|i: int|
        0 <= i < s.len() ==> #[trigger] s[i] > ' ' && s[i] != '\'' && s[i] != '"'
}

/// Whether the server breaks a request up into some arguments.
pub open spec fn says(request: Seq<char>, args: Seq<Seq<char>>) -> bool {
    messages::arguments_of(request) == Ok::<Seq<Seq<char>>, messages::ErrorView>(args)
}

pub(crate) proof fn lemma_bare(s: Seq<char>)
    requires
        is_bare(s),
    ensures
        quoting::carries(s),
        clients::quoted(s) == s,
{
}

pub(crate) proof fn lemma_decimal_bare(n: nat)
    ensures
        is_bare(number::decimal(n)),
{
    number::lemma_decimal(n);
    assert forall|i: int| 0 <= i < number::decimal(n).len() implies #[trigger] number::decimal(n)[i]
        > ' ' && number::decimal(n)[i] != '\'' && number::decimal(n)[i] != '"' by {
        assert(number::is_digit(number::decimal(n)[i]));
    }
}

/// Arguments, each quoted, with spaces between them.
proof fn lemma_says(args: Seq<Seq<char>>, request: Seq<char>)
    requires
        forall|k: int| 0 <= k < args.len() ==> quoting::carries(#[trigger] args[k]),
        request == mppopm::command_message(args, args.len() as int),
    ensures
        says(request, args),
{
    quoting::law_quoted_arguments(args);
}

/// Asking for a sticker of a song names the song & the sticker.
pub proof fn law_get_sticker_request(file: Seq<char>, sticker: Seq<char>)
    requires
        quoting::carries(file),
        quoting::carries(sticker),
    ensures
        says(
            clients::get_sticker_request(file, sticker),
            seq!["sticker"@, "get"@, "song"@, file, sticker],
        ),
{
    reveal_strlit("sticker");
    reveal_strlit("get");
    reveal_strlit("song");
    reveal_strlit(" ");
    reveal_strlit("sticker get song ");
    lemma_bare("sticker"@);
    lemma_bare("get"@);
    lemma_bare("song"@);
    let args = seq!["sticker"@, "get"@, "song"@, file, sticker];
    reveal_with_fuel(mppopm::command_message, 6);
    assert("sticker get song "@ =~= "sticker"@ + " "@ + "get"@ + " "@ + "song"@ + " "@);
    assert(clients::get_sticker_request(file, sticker) =~= mppopm::command_message(args, 5));
    lemma_says(args, clients::get_sticker_request(file, sticker));
}

/// Setting a sticker of a song names the song, the sticker & the value.
pub proof fn law_set_sticker_request(file: Seq<char>, sticker: Seq<char>, value: Seq<char>)
    requires
        quoting::carries(file),
        quoting::carries(sticker),
        quoting::carries(value),
    ensures
        says(
            clients::set_sticker_request(file, sticker, value),
            seq!["sticker"@, "set"@, "song"@, file, sticker, value],
        ),
{
    reveal_strlit("sticker");
    reveal_strlit("set");
    reveal_strlit("song");
    reveal_strlit(" ");
    reveal_strlit("sticker set song ");
    lemma_bare("sticker"@);
    lemma_bare("set"@);
    lemma_bare("song"@);
    let args = seq!["sticker"@, "set"@, "song"@, file, sticker, value];
    reveal_with_fuel(mppopm::command_message, 7);
    assert("sticker set song "@ =~= "sticker"@ + " "@ + "set"@ + " "@ + "song"@ + " "@);
    assert(clients::set_sticker_request(file, sticker, value) =~= mppopm::command_message(args, 6));
    lemma_says(args, clients::set_sticker_request(file, sticker, value));
}

/// Adding a file to a stored playlist names the playlist & the file, in this order.
pub proof fn law_playlistadd_request(file: Seq<char>, pl: Seq<char>)
    requires
        quoting::carries(file),
        quoting::carries(pl),
    ensures
        says(clients::playlistadd_request(file, pl), seq!["playlistadd"@, pl, file]),
{
    reveal_strlit("playlistadd");
    reveal_strlit(" ");
    reveal_strlit("playlistadd ");
    lemma_bare("playlistadd"@);
    let args = seq!["playlistadd"@, pl, file];
    reveal_with_fuel(mppopm::command_message, 4);
    assert("playlistadd "@ =~= "playlistadd"@ + " "@);
    assert(clients::playlistadd_request(file, pl) =~= mppopm::command_message(args, 3));
    lemma_says(args, clients::playlistadd_request(file, pl));
}

/// Sending a message names the channel & the message, in this order.
pub proof fn law_sendmessage_request(chan: Seq<char>, msg: Seq<char>)
    requires
        is_bare(chan),
        quoting::carries(msg),
    ensures
        says(clients::sendmessage_request(chan, msg), seq!["sendmessage"@, chan, msg]),
{
    reveal_strlit("sendmessage");
    reveal_strlit(" ");
    reveal_strlit("sendmessage ");
    lemma_bare("sendmessage"@);
    lemma_bare(chan);
    let args = seq!["sendmessage"@, chan, msg];
    reveal_with_fuel(mppopm::command_message, 4);
    assert("sendmessage "@ =~= "sendmessage"@ + " "@);
    assert(clients::sendmessage_request(chan, msg) =~= mppopm::command_message(args, 3));
    lemma_says(args, clients::sendmessage_request(chan, msg));
}

/// Subscribing names the channel.
pub proof fn law_subscribe_request(chan: Seq<char>)
    requires
        is_bare(chan),
    ensures
        says(clients::subscribe_request(chan), seq!["subscribe"@, chan]),
{
    reveal_strlit("subscribe");
    reveal_strlit(" ");
    reveal_strlit("subscribe ");
    lemma_bare("subscribe"@);
    lemma_bare(chan);
    let args = seq!["subscribe"@, chan];
    reveal_with_fuel(mppopm::command_message, 3);
    assert("subscribe "@ =~= "subscribe"@ + " "@);
    assert(clients::subscribe_request(chan) =~= mppopm::command_message(args, 2));
    lemma_says(args, clients::subscribe_request(chan));
}

/// Adding a song to the play queue names the song.
pub proof fn law_add_request(uri: Seq<char>)
    requires
        quoting::carries(uri),
    ensures
        says(clients::add_request(uri), seq!["add"@, uri]),
{
    reveal_strlit("add");
    reveal_strlit(" ");
    reveal_strlit("add ");
    lemma_bare("add"@);
    let args = seq!["add"@, uri];
    reveal_with_fuel(mppopm::command_message, 3);
    assert("add "@ =~= "add"@ + " "@);
    assert(clients::add_request(uri) =~= mppopm::command_message(args, 2));
    lemma_says(args, clients::add_request(uri));
}

/// Asking for a song of the play queue gives its identifier in base ten.
pub proof fn law_playlistid_request(songid: u64)
    ensures
        says(
            clients::playlistid_request(songid),
            seq!["playlistid"@, number::decimal(songid as nat)],
        ),
        number::parsed(number::decimal(songid as nat), 0, u64::MAX as int) == Ok::<
            int,
            number::ParseError,
        >(songid as int),
{
    reveal_strlit("playlistid");
    reveal_strlit(" ");
    reveal_strlit("playlistid ");
    lemma_bare("playlistid"@);
    lemma_decimal_bare(songid as nat);
    lemma_bare(number::decimal(songid as nat));
    let args = seq!["playlistid"@, number::decimal(songid as nat)];
    reveal_with_fuel(mppopm::command_message, 3);
    assert("playlistid "@ =~= "playlistid"@ + " "@);
    assert(clients::playlistid_request(songid) =~= mppopm::command_message(args, 2));
    lemma_says(args, clients::playlistid_request(songid));
    number::law_parsed_decimal(songid as nat, u64::MAX as int);
}

// ---------------------------------------------------------------------------------------------
// Blanks
// ---------------------------------------------------------------------------------------------

proof fn lemma_blanks_shifted(p: Seq<u8>, s: Seq<u8>, i: int)
    requires
        0 <= i,
    ensures
        messages::blanks_end(p + s, p.len() + i) == p.len() + messages::blanks_end(s, i),
        i <= messages::blanks_end(s, i),
        i <= s.len() ==> messages::blanks_end(s, i) <= s.len(),
    decreases s.len() - i,
{
    if i < s.len() {
        assert((p + s)[p.len() + i] == s[i]);
        if s[i] <= 0x20 {
            lemma_blanks_shifted(p, s, i + 1);
        }
    }
}

proof fn lemma_bare_shifted(p: Seq<u8>, s: Seq<u8>, i: int)
    requires
        0 <= i,
    ensures
        match messages::bare_end(s, i) {
            Ok(j) => messages::bare_end(p + s, p.len() + i) == Ok::<int, messages::ErrorView>(
                p.len() + j,
            ) && i <= j && (i <= s.len() ==> j <= s.len()),
            Err(e) => messages::bare_end(p + s, p.len() + i) == Err::<int, messages::ErrorView>(e),
        },
    decreases s.len() - i,
{
    if i < s.len() {
        assert((p + s)[p.len() + i] == s[i]);
        if s[i] > 0x20 && s[i] != 0x22 && s[i] != 0x27 {
            lemma_bare_shifted(p, s, i + 1);
        }
    }
}

proof fn lemma_quoted_shifted(p: Seq<u8>, s: Seq<u8>, i: int)
    requires
        0 <= i,
    ensures
        match messages::quoted_from(s, i) {
            Ok((t, j)) => messages::quoted_from(p + s, p.len() + i) == Ok::<
                (Seq<u8>, int),
                messages::ErrorView,
            >((t, p.len() + j)) && i < j && (i <= s.len() ==> j <= s.len()),
            Err(e) => messages::quoted_from(p + s, p.len() + i) == Err::<
                (Seq<u8>, int),
                messages::ErrorView,
            >(e),
        },
    decreases s.len() - i,
{
    if i < s.len() {
        assert((p + s)[p.len() + i] == s[i]);
        if s[i] == 0x5c {
            if i + 1 < s.len() {
                assert((p + s)[p.len() + i + 1] == s[i + 1]);
                lemma_quoted_shifted(p, s, i + 2);
            }
        } else if s[i] != 0x22 {
            lemma_quoted_shifted(p, s, i + 1);
        }
    }
}

/// What is in the second of two parts does not depend on the first.
proof fn lemma_tokens_shifted(p: Seq<u8>, s: Seq<u8>, i: int)
    requires
        0 <= i <= s.len(),
    ensures
        messages::tokens_from(p + s, p.len() + i) == messages::tokens_from(s, i),
    decreases s.len() - i,
{
    if i < s.len() {
        assert((p + s)[p.len() + i] == s[i]);
        if s[i] == 0x22 {
            lemma_quoted_shifted(p, s, i + 1);
            if let Ok((_, j)) = messages::quoted_from(s, i + 1) {
                lemma_blanks_shifted(p, s, j);
                lemma_tokens_shifted(p, s, messages::blanks_end(s, j));
            }
        } else {
            lemma_bare_shifted(p, s, i);
            if let Ok(j) = messages::bare_end(s, i) {
                lemma_blanks_shifted(p, s, j);
                let k = messages::blanks_end(s, j);
                assert((p + s).subrange(p.len() + i, p.len() + j) =~= s.subrange(i, j));
                if i < k {
                    lemma_tokens_shifted(p, s, k);
                }
            }
        }
    }
}

/// Whether bytes are blanks.
pub open spec fn is_blank(s: Seq<u8>) -> bool {
    forall|i: int| 0 <= i < s.len() ==> #[trigger] s[i] <= 0x20
}

/// Whether bytes are a token as they are.
pub open spec fn is_token(s: Seq<u8>) -> bool {
    s.len() > 0 && forall|i: int|
        0 <= i < s.len() ==> #[trigger] s[i] > 0x20 && s[i] != 0x22 && s[i] != 0x27
}

proof fn lemma_blank_run(gap: Seq<u8>, rest: Seq<u8>, i: int)
    requires
        is_blank(gap),
        0 <= i <= gap.len(),
    ensures
        messages::blanks_end(gap + rest, i) == gap.len() + messages::blanks_end(rest, 0),
    decreases gap.len() - i,
{
    if i < gap.len() {
        assert((gap + rest)[i] == gap[i]);
        lemma_blank_run(gap, rest, i + 1);
    } else {
        lemma_blanks_shifted(gap, rest, 0);
    }
}

/// Blanks only separate tokens: however many there are, before a token or after it, the token is the first,
/// & the tokens of what follows it are the others.
pub proof fn law_blanks(lead: Seq<u8>, word: Seq<u8>, gap: Seq<u8>, rest: Seq<u8>)
    requires
        is_blank(lead),
        is_token(word),
        is_blank(gap),
        gap.len() > 0 || rest.len() == 0,
    ensures
        match messages::tokens_of(rest) {
            Ok(t) => messages::tokens_of(lead + word + gap + rest) == Ok::<
                Seq<Seq<u8>>,
                messages::ErrorView,
            >(seq![word] + t),
            Err(e) => messages::tokens_of(lead + word + gap + rest) == Err::<
                Seq<Seq<u8>>,
                messages::ErrorView,
            >(e),
        },
{
    let tail = gap + rest;
    let s = word + tail;
    let all = lead + word + gap + rest;
    assert(all =~= lead + s);
    lemma_blank_run(lead, s, 0);
    assert(s[0] == word[0]);
    assert(messages::blanks_end(s, 0) == 0);
    lemma_tokens_shifted(lead, s, 0);
    let j = word.len() as int;
    assert forall|k: int| 0 <= k < j implies #[trigger] s[k] > 0x20 && s[k] != 0x22 && s[k] != 0x27 by {
        assert(s[k] == word[k]);
    }
    if tail.len() > 0 {
        assert(s[j] == gap[0]);
    }
    quoting::lemma_bare_run(s, 0, j);
    lemma_blank_run(gap, rest, 0);
    lemma_blanks_shifted(word, tail, 0);
    lemma_blanks_shifted(gap, rest, 0);
    let k = messages::blanks_end(rest, 0);
    lemma_blanks_shifted(Seq::empty(), rest, 0);
    assert(messages::blanks_end(s, j) == j + gap.len() + k);
    assert(s.subrange(0, j) =~= word);
    assert(s =~= (word + gap) + rest);
    lemma_tokens_shifted(word + gap, rest, k);
}

/// A token in quotes that is not closed is an error, as is a backslash at its end, & a quote within a token
/// that is not in quotes.
pub proof fn law_bad_tokens(body: Seq<u8>, word: Seq<u8>, rest: Seq<u8>)
    requires
        forall|i: int| 0 <= i < body.len() ==> #[trigger] body[i] != 0x22 && body[i] != 0x5c,
        is_token(word),
    ensures
        messages::tokens_of(seq![0x22u8] + body) == Err::<Seq<Seq<u8>>, messages::ErrorView>(
            messages::ErrorView::NoClosingQuotes,
        ),
        messages::tokens_of(seq![0x22u8] + body + seq![0x5cu8]) == Err::<
            Seq<Seq<u8>>,
            messages::ErrorView,
        >(messages::ErrorView::TrailingBackslash),
        messages::tokens_of(word + seq![0x27u8] + rest) == Err::<Seq<Seq<u8>>, messages::ErrorView>(
            messages::ErrorView::InvalidChar { c: 0x27 },
        ),
        messages::tokens_of(word + seq![0x22u8] + rest) == Err::<Seq<Seq<u8>>, messages::ErrorView>(
            messages::ErrorView::InvalidChar { c: 0x22 },
        ),
{
    let a = seq![0x22u8] + body;
    lemma_unclosed(a, 1, a.len() as int);
    assert(messages::blanks_end(a, 0) == 0);
    let b = seq![0x22u8] + body + seq![0x5cu8];
    assert(b.len() == body.len() + 2);
    assert(b[b.len() - 1] == 0x5c);
    assert forall|k: int| 1 <= k < b.len() - 1 implies #[trigger] b[k] != 0x22 && b[k] != 0x5c by {
        assert(b[k] == body[k - 1]);
    }
    lemma_unclosed(b, 1, b.len() - 1);
    assert(messages::blanks_end(b, 0) == 0);
    lemma_quote_within(word, 0x27, rest, 0);
    lemma_quote_within(word, 0x22, rest, 0);
    assert((word + seq![0x27u8] + rest)[0] == word[0]);
    assert((word + seq![0x22u8] + rest)[0] == word[0]);
    assert(messages::blanks_end(word + seq![0x27u8] + rest, 0) == 0);
    assert(messages::blanks_end(word + seq![0x22u8] + rest, 0) == 0);
}

proof fn lemma_unclosed(s: Seq<u8>, i: int, n: int)
    requires
        1 <= i <= n <= s.len(),
        forall|k: int| 1 <= k < n ==> #[trigger] s[k] != 0x22 && s[k] != 0x5c,
        n == s.len() || n == s.len() - 1 && s[n] == 0x5c,
    ensures
        messages::quoted_from(s, i) == Err::<(Seq<u8>, int), messages::ErrorView>(
            if n == s.len() {
                messages::ErrorView::NoClosingQuotes
            } else {
                messages::ErrorView::TrailingBackslash
            },
        ),
    decreases n - i,
{
    if i < n {
        lemma_unclosed(s, i + 1, n);
    }
}

proof fn lemma_quote_within(word: Seq<u8>, c: u8, rest: Seq<u8>, i: int)
    requires
        is_token(word),
        c == 0x22 || c == 0x27,
        0 <= i <= word.len(),
    ensures
        messages::bare_end(word + seq![c] + rest, i) == Err::<int, messages::ErrorView>(
            messages::ErrorView::InvalidChar { c },
        ),
    decreases word.len() - i,
{
    let s = word + seq![c] + rest;
    if i < word.len() {
        assert(s[i] == word[i]);
        lemma_quote_within(word, c, rest, i + 1);
    } else {
        assert(s[i] == c);
    }
}

// ---------------------------------------------------------------------------------------------
// Requests with quotes of their own
// ---------------------------------------------------------------------------------------------

/// A text in quotes, & perhaps more after a blank.
proof fn lemma_in_quotes(x: Seq<char>, gap: Seq<u8>, rest: Seq<u8>)
    requires
        is_blank(gap),
        gap.len() > 0 || rest.len() == 0,
    ensures
        ({
            let s = vstd::utf8::encode_utf8(clients::in_quotes(x)) + gap + rest;
            messages::tokens_of(rest) matches Ok(t) ==> messages::tokens_of(s) == Ok::<
                Seq<Seq<u8>>,
                messages::ErrorView,
            >(seq![vstd::utf8::encode_utf8(x)] + t)
        }),
{
    quoting::lemma_encode_concat(seq!['"'] + clients::escaped(x), seq!['"']);
    quoting::lemma_encode_concat(seq!['"'], clients::escaped(x));
    quoting::lemma_encode_char('"');
    let body = vstd::utf8::encode_utf8(clients::escaped(x));
    let e = vstd::utf8::encode_utf8(clients::in_quotes(x));
    let q = seq![0x22u8];
    assert(e =~= q + body + q);
    let s = e + gap + rest;
    quoting::lemma_quoted_text(q, x, gap + rest);
    assert(q + body + q + (gap + rest) =~= s);
    assert(s[0] == 0x22);
    assert(messages::blanks_end(s, 0) == 0);
    let j = e.len() as int;
    lemma_blank_run(gap, rest, 0);
    lemma_blanks_shifted(e, gap + rest, 0);
    assert(e + (gap + rest) =~= s);
    let k = messages::blanks_end(rest, 0);
    lemma_blanks_shifted(Seq::empty(), rest, 0);
    assert(messages::blanks_end(s, j) == j + gap.len() + k);
    assert((e + gap) + rest =~= s);
    lemma_tokens_shifted(e + gap, rest, k);
}

/// A text without double quotes or backslashes is escaped as it is.
proof fn lemma_nothing_escaped(x: Seq<char>)
    requires
        forall|i: int| 0 <= i < x.len() ==> #[trigger] x[i] != '"' && x[i] != '\\',
    ensures
        clients::escaped(x) == x,
    decreases x.len(),
{
    if x.len() > 0 {
        lemma_nothing_escaped(x.drop_last());
        assert(x.drop_last().push(x.last()) =~= x);
    } else {
        assert(clients::escaped(x) =~= x);
    }
}

/// The bytes of a text that is an argument as it is are a token.
proof fn lemma_bare_token(x: Seq<char>)
    requires
        is_bare(x),
    ensures
        is_token(vstd::utf8::encode_utf8(x)),
{
    quoting::lemma_bare_bytes(x);
}

proof fn lemma_space_byte()
    ensures
        vstd::utf8::encode_utf8(" "@) == seq![0x20u8],
{
    reveal_strlit(" ");
    assert(" "@ =~= seq![' ']);
    quoting::lemma_encode_char(' ');
}

/// A word before other arguments.
proof fn lemma_word_first(word: Seq<char>, rest: Seq<char>, toks: Seq<Seq<u8>>)
    requires
        is_bare(word),
        messages::tokens_of(vstd::utf8::encode_utf8(rest)) == Ok::<
            Seq<Seq<u8>>,
            messages::ErrorView,
        >(toks),
    ensures
        messages::tokens_of(vstd::utf8::encode_utf8(word + " "@ + rest)) == Ok::<
            Seq<Seq<u8>>,
            messages::ErrorView,
        >(seq![vstd::utf8::encode_utf8(word)] + toks),
{
    lemma_bare_token(word);
    lemma_space_byte();
    quoting::lemma_encode_concat(word + " "@, rest);
    quoting::lemma_encode_concat(word, " "@);
    let (w, g, r) = (
        vstd::utf8::encode_utf8(word),
        vstd::utf8::encode_utf8(" "@),
        vstd::utf8::encode_utf8(rest),
    );
    law_blanks(Seq::empty(), w, g, r);
    assert(Seq::<u8>::empty() + w + g + r =~= w + g + r);
}

/// The tokens of arguments are their encodings.
proof fn lemma_argument_texts(request: Seq<char>, args: Seq<Seq<char>>)
    requires
        messages::tokens_of(vstd::utf8::encode_utf8(request)) == Ok::<
            Seq<Seq<u8>>,
            messages::ErrorView,
        >(quoting::encodings(args)),
    ensures
        says(request, args),
{
    quoting::lemma_token_texts(args, args.len() as int);
    assert(args.take(args.len() as int) =~= args);
}

proof fn lemma_nothing_left()
    ensures
        messages::tokens_of(Seq::empty()) == Ok::<Seq<Seq<u8>>, messages::ErrorView>(Seq::empty()),
        vstd::utf8::encode_utf8(Seq::empty()) == Seq::<u8>::empty(),
{
}

/// Updating the database names what is to be updated, which may be nothing in particular.
pub proof fn law_update_request(uri: Seq<char>)
    requires
        forall|i: int| 0 <= i < uri.len() ==> #[trigger] uri[i] != '"' && uri[i] != '\\',
    ensures
        says(clients::update_request(uri), seq!["update"@, uri]),
{
    reveal_strlit("update");
    reveal_strlit("update \"");
    reveal_strlit("\"");
    reveal_strlit(" ");
    lemma_nothing_escaped(uri);
    let rest = clients::in_quotes(uri);
    assert(clients::update_request(uri) =~= "update"@ + " "@ + rest);
    lemma_nothing_left();
    lemma_in_quotes(uri, Seq::empty(), Seq::empty());
    let e = vstd::utf8::encode_utf8(rest);
    assert(e + Seq::<u8>::empty() + Seq::<u8>::empty() =~= e);
    let one = seq![vstd::utf8::encode_utf8(uri)];
    assert(one + Seq::<Seq<u8>>::empty() =~= one);
    lemma_word_first("update"@, rest, one);
    let args = seq!["update"@, uri];
    assert(quoting::encodings(args) =~= seq![vstd::utf8::encode_utf8("update"@)] + one);
    lemma_argument_texts(clients::update_request(uri), args);
}

/// Asking for a sticker of all songs names the sticker, & no directory in particular.
pub proof fn law_get_stickers_request(sticker: Seq<char>)
    requires
        is_bare(sticker),
    ensures
        says(
            clients::get_stickers_request(sticker),
            seq!["sticker"@, "find"@, "song"@, Seq::empty(), sticker],
        ),
{
    reveal_strlit("sticker");
    reveal_strlit("find");
    reveal_strlit("song");
    reveal_strlit(" ");
    reveal_strlit("sticker find song \"\" ");
    let none = Seq::<char>::empty();
    lemma_nothing_escaped(none);
    lemma_nothing_left();
    // the sticker
    lemma_bare_token(sticker);
    let e = vstd::utf8::encode_utf8(sticker);
    law_blanks(Seq::empty(), e, Seq::empty(), Seq::empty());
    assert(Seq::<u8>::empty() + e + Seq::<u8>::empty() + Seq::<u8>::empty() =~= e);
    let one = seq![e];
    assert(one + Seq::<Seq<u8>>::empty() =~= one);
    // the directory
    lemma_space_byte();
    let quotes = clients::in_quotes(none);
    lemma_in_quotes(none, vstd::utf8::encode_utf8(" "@), e);
    let two = quotes + " "@ + sticker;
    quoting::lemma_encode_concat(quotes + " "@, sticker);
    quoting::lemma_encode_concat(quotes, " "@);
    let both = seq![vstd::utf8::encode_utf8(none)] + one;
    assert(messages::tokens_of(vstd::utf8::encode_utf8(two)) == Ok::<
        Seq<Seq<u8>>,
        messages::ErrorView,
    >(both));
    // the words
    lemma_word_first("song"@, two, both);
    let three = "song"@ + " "@ + two;
    let more = seq![vstd::utf8::encode_utf8("song"@)] + both;
    lemma_word_first("find"@, three, more);
    let four = "find"@ + " "@ + three;
    let most = seq![vstd::utf8::encode_utf8("find"@)] + more;
    lemma_word_first("sticker"@, four, most);
    let all = "sticker"@ + " "@ + four;
    assert(quotes =~= seq!['"', '"']);
    assert(clients::get_stickers_request(sticker) =~= all);
    let args = seq!["sticker"@, "find"@, "song"@, none, sticker];
    assert(quoting::encodings(args) =~= seq![vstd::utf8::encode_utf8("sticker"@)] + most);
    lemma_argument_texts(all, args);
}

/// Asking for all songs is asking for those below the root of the music directory.
pub proof fn law_all_songs_request(s: clients::Session)
    ensures
        ({
            let after = clients::all_songs_spec(s).1;
            &&& after.server == s.server
            &&& after.sent.len() == s.sent.len() + 1
            &&& after.sent.drop_last() == s.sent
            &&& says(after.sent.last(), seq!["find"@, "(base '')"@])
        }),
{
    reveal_strlit("find");
    reveal_strlit("(base '')");
    reveal_strlit("find \"(base '')\"");
    reveal_strlit(" ");
    let x = "(base '')"@;
    lemma_bare("find"@);
    lemma_nothing_escaped(x);
    assert(x[5] == ' ');
    assert(clients::wants_quotes(x[5]));
    let args = seq!["find"@, x];
    reveal_with_fuel(mppopm::command_message, 3);
    let request = "find \"(base '')\""@;
    assert(request =~= mppopm::command_message(args, 2));
    lemma_says(args, request);
    let after = clients::all_songs_spec(s).1;
    assert(after.sent.drop_last() =~= s.sent);
}

/// A text in quotes before other arguments.
proof fn lemma_quoted_first(x: Seq<char>, rest: Seq<char>, toks: Seq<Seq<u8>>)
    requires
        messages::tokens_of(vstd::utf8::encode_utf8(rest)) == Ok::<
            Seq<Seq<u8>>,
            messages::ErrorView,
        >(toks),
    ensures
        messages::tokens_of(vstd::utf8::encode_utf8(clients::in_quotes(x) + " "@ + rest)) == Ok::<
            Seq<Seq<u8>>,
            messages::ErrorView,
        >(seq![vstd::utf8::encode_utf8(x)] + toks),
{
    lemma_space_byte();
    quoting::lemma_encode_concat(clients::in_quotes(x) + " "@, rest);
    quoting::lemma_encode_concat(clients::in_quotes(x), " "@);
    lemma_in_quotes(x, seq![0x20u8], vstd::utf8::encode_utf8(rest));
}

/// A text in quotes, with nothing after it.
proof fn lemma_quoted_last(x: Seq<char>)
    ensures
        messages::tokens_of(vstd::utf8::encode_utf8(clients::in_quotes(x))) == Ok::<
            Seq<Seq<u8>>,
            messages::ErrorView,
        >(seq![vstd::utf8::encode_utf8(x)]),
{
    lemma_nothing_left();
    lemma_in_quotes(x, Seq::empty(), Seq::empty());
    let e = vstd::utf8::encode_utf8(clients::in_quotes(x));
    assert(e + Seq::<u8>::empty() + Seq::<u8>::empty() =~= e);
    let one = seq![vstd::utf8::encode_utf8(x)];
    assert(one + Seq::<Seq<u8>>::empty() =~= one);
}

/// Whether a text stands between double quotes as it is.
pub open spec fn is_plain(x: Seq<char>) -> bool {
    forall|i: int| 0 <= i < x.len() ==> #[trigger] x[i] != '"' && x[i] != '\\'
}

/// The minimal client, too, names the song & the sticker when it asks for one.
pub proof fn law_minimal_get_sticker_request(file: Seq<char>, sticker: Seq<char>)
    requires
        is_plain(file),
        is_plain(sticker),
    ensures
        says(
            client::get_sticker_request(file, sticker),
            seq!["sticker"@, "get"@, "song"@, file, sticker],
        ),
{
    reveal_strlit("sticker");
    reveal_strlit("get");
    reveal_strlit("song");
    reveal_strlit(" ");
    reveal_strlit("\"");
    reveal_strlit("\" \"");
    reveal_strlit("sticker get song \"");
    lemma_nothing_escaped(file);
    lemma_nothing_escaped(sticker);
    let r1 = clients::in_quotes(sticker);
    let r2 = clients::in_quotes(file) + " "@ + r1;
    let r3 = "song"@ + " "@ + r2;
    let r4 = "get"@ + " "@ + r3;
    let request = client::get_sticker_request(file, sticker);
    assert(request =~= "sticker"@ + " "@ + r4);
    lemma_quoted_last(sticker);
    let t1 = seq![vstd::utf8::encode_utf8(sticker)];
    lemma_quoted_first(file, r1, t1);
    let t2 = seq![vstd::utf8::encode_utf8(file)] + t1;
    lemma_word_first("song"@, r2, t2);
    let t3 = seq![vstd::utf8::encode_utf8("song"@)] + t2;
    lemma_word_first("get"@, r3, t3);
    let t4 = seq![vstd::utf8::encode_utf8("get"@)] + t3;
    lemma_word_first("sticker"@, r4, t4);
    let args = seq!["sticker"@, "get"@, "song"@, file, sticker];
    assert(quoting::encodings(args) =~= seq![vstd::utf8::encode_utf8("sticker"@)] + t4);
    lemma_argument_texts(request, args);
}

/// The minimal client, too, names the song, the sticker & the value when it sets one.
pub proof fn law_minimal_set_sticker_request(
    file: Seq<char>,
    sticker: Seq<char>,
    value: Seq<char>,
)
    requires
        is_plain(file),
        is_plain(sticker),
        is_plain(value),
    ensures
        says(
            client::set_sticker_request(file, sticker, value),
            seq!["sticker"@, "set"@, "song"@, file, sticker, value],
        ),
{
    reveal_strlit("sticker");
    reveal_strlit("set");
    reveal_strlit("song");
    reveal_strlit(" ");
    reveal_strlit("\"");
    reveal_strlit("\" \"");
    reveal_strlit("sticker set song \"");
    lemma_nothing_escaped(file);
    lemma_nothing_escaped(sticker);
    lemma_nothing_escaped(value);
    let r0 = clients::in_quotes(value);
    let r1 = clients::in_quotes(sticker) + " "@ + r0;
    let r2 = clients::in_quotes(file) + " "@ + r1;
    let r3 = "song"@ + " "@ + r2;
    let r4 = "set"@ + " "@ + r3;
    let request = client::set_sticker_request(file, sticker, value);
    assert(request =~= "sticker"@ + " "@ + r4);
    lemma_quoted_last(value);
    let t0 = seq![vstd::utf8::encode_utf8(value)];
    lemma_quoted_first(sticker, r0, t0);
    let t1 = seq![vstd::utf8::encode_utf8(sticker)] + t0;
    lemma_quoted_first(file, r1, t1);
    let t2 = seq![vstd::utf8::encode_utf8(file)] + t1;
    lemma_word_first("song"@, r2, t2);
    let t3 = seq![vstd::utf8::encode_utf8("song"@)] + t2;
    lemma_word_first("set"@, r3, t3);
    let t4 = seq![vstd::utf8::encode_utf8("set"@)] + t3;
    lemma_word_first("sticker"@, r4, t4);
    let args = seq!["sticker"@, "set"@, "song"@, file, sticker, value];
    assert(quoting::encodings(args) =~= seq![vstd::utf8::encode_utf8("sticker"@)] + t4);
    lemma_argument_texts(request, args);
}

} // verus!
