//! What is understood of what the server replies.

use vstd::prelude::*;

use crate::clients;
use crate::clients::StickerValue;
use crate::collections;
use crate::number;
use crate::quoting;
use crate::text;

verus! {

// ---------------------------------------------------------------------------------------------
// Lines
// ---------------------------------------------------------------------------------------------

/// Whether a text is one line.
pub open spec fn is_line(s: Seq<char>) -> bool {
    !s.contains('\n') && (s.len() > 0 ==> s.last() != '\r')
}

/// The text of some lines, each ended by a line feed.
pub open spec fn written(lines: Seq<Seq<char>>) -> Seq<char>
    decreases lines.len(),
{
    if lines.len() == 0 {
        Seq::empty()
    } else {
        lines[0] + "\n"@ + written(lines.drop_first())
    }
}

/// What is found in the second of two parts.
proof fn lemma_find_shifted(p: Seq<char>, s: Seq<char>, c: char, i: int)
    requires
        0 <= i <= s.len(),
    ensures
        text::find_from(p + s, c, p.len() + i) == p.len() + text::find_from(s, c, i),
    decreases s.len() - i,
{
    if i < s.len() {
        assert((p + s)[p.len() + i] == s[i]);
        lemma_find_shifted(p, s, c, i + 1);
    }
}

proof fn lemma_lines_shifted(p: Seq<char>, s: Seq<char>, i: int)
    requires
        0 <= i <= s.len(),
    ensures
        text::lines_from(p + s, p.len() + i) == text::lines_from(s, i),
    decreases s.len() - i,
{
    if i < s.len() {
        let j = text::find_from(s, '\n', i);
        text::lemma_find_from(s, '\n', i);
        lemma_find_shifted(p, s, '\n', i);
        if j < s.len() {
            assert((p + s).subrange(p.len() + i, p.len() + j) =~= s.subrange(i, j));
            lemma_lines_shifted(p, s, j + 1);
        } else {
            assert((p + s).subrange(p.len() + i, (p + s).len() as int) =~= s.subrange(
                i,
                s.len() as int,
            ));
        }
    }
}

/// The lines of a text with a line in front.
proof fn lemma_first_line(line: Seq<char>, rest: Seq<char>)
    requires
        is_line(line),
    ensures
        text::lines_of(line + "\n"@ + rest) == seq![line] + text::lines_of(rest),
{
    reveal_strlit("\n");
    let p = line + "\n"@;
    let s = p + rest;
    text::lemma_find_from(s, '\n', 0);
    assert(s[line.len() as int] == '\n');
    let j = text::find_from(s, '\n', 0);
    assert(j == line.len()) by {
        if j < line.len() {
            assert(s[j] == line[j]);
            assert(line.contains('\n'));
        }
    }
    assert(s.subrange(0, j) =~= line);
    lemma_lines_shifted(p, rest, 0);
}

/// The lines of a text are those that it was written with.
pub proof fn law_lines(lines: Seq<Seq<char>>)
    requires
        forall|i: int| 0 <= i < lines.len() ==> is_line(#[trigger] lines[i]),
    ensures
        text::lines_of(written(lines)) == lines,
    decreases lines.len(),
{
    if lines.len() > 0 {
        let rest = lines.drop_first();
        assert forall|i: int| 0 <= i < rest.len() implies is_line(#[trigger] rest[i]) by {
            assert(rest[i] == lines[i + 1]);
        }
        law_lines(rest);
        lemma_first_line(lines[0], written(rest));
        assert(seq![lines[0]] + rest =~= lines);
    } else {
        assert(text::lines_of(written(lines)) =~= lines);
    }
}

proof fn lemma_after(prefix: Seq<char>, rest: Seq<char>)
    ensures
        text::after(prefix + rest, prefix) == Some(rest),
{
    let s = prefix + rest;
    assert(s.subrange(0, prefix.len() as int) =~= prefix);
    assert(prefix.is_prefix_of(s));
    assert(s.skip(prefix.len() as int) =~= rest);
}

proof fn lemma_not_after(s: Seq<char>, prefix: Seq<char>, k: int)
    requires
        0 <= k < s.len(),
        k < prefix.len(),
        s[k] != prefix[k],
    ensures
        text::after(s, prefix) is None,
        !prefix.is_prefix_of(s),
{
    if prefix.is_prefix_of(s) {
        assert(s.subrange(0, prefix.len() as int)[k] == prefix[k]);
    }
}

// ---------------------------------------------------------------------------------------------
// Lists
// ---------------------------------------------------------------------------------------------

proof fn lemma_values_front(line: Seq<char>, lines: Seq<Seq<char>>, prefix: Seq<char>, n: int)
    requires
        0 <= n <= lines.len(),
    ensures
        clients::values_in(seq![line] + lines, prefix, n + 1) == (match text::after(line, prefix) {
            Some(value) => seq![value],
            None => Seq::empty(),
        }) + clients::values_in(lines, prefix, n),
    decreases n,
{
    let all = seq![line] + lines;
    assert(all[n] == if n == 0 {
        line
    } else {
        lines[n - 1]
    });
    if n > 0 {
        lemma_values_front(line, lines, prefix, n - 1);
        if let Some(value) = text::after(lines[n - 1], prefix) {
            let start = match text::after(line, prefix) {
                Some(value) => seq![value],
                None => Seq::empty(),
            };
            assert((start + clients::values_in(lines, prefix, n - 1)).push(value) =~= start
                + clients::values_in(lines, prefix, n - 1).push(value));
        }
    } else {
        reveal_with_fuel(clients::values_in, 2);
        let start = match text::after(line, prefix) {
            Some(value) => seq![value],
            None => Seq::empty(),
        };
        assert(start + clients::values_in(lines, prefix, 0) =~= start);
        assert(clients::values_in(all, prefix, 1) =~= start);
    }
}

/// The songs that a reply to a search lists: a line that gives a file adds that file in front of those that the
/// lines after it list, & any other line adds nothing.
pub proof fn law_uris(line: Seq<char>, rest: Seq<char>)
    requires
        is_line(line),
        !"ACK"@.is_prefix_of(line + "\n"@ + rest),
        !"ACK"@.is_prefix_of(rest),
    ensures
        clients::uris_spec(Seq::empty()) == Ok::<Seq<Seq<char>>, clients::ErrorView>(Seq::empty()),
        clients::uris_spec(rest) is Ok,
        clients::uris_spec(line + "\n"@ + rest) == Ok::<Seq<Seq<char>>, clients::ErrorView>(
            (if "file: "@.is_prefix_of(line) {
                seq![line.skip(6)]
            } else {
                Seq::empty()
            }) + clients::uris_spec(rest)->Ok_0,
        ),
{
    reveal_strlit("file: ");
    reveal_strlit("ACK");
    lemma_first_line(line, rest);
    let lines = text::lines_of(rest);
    lemma_values_front(line, lines, "file: "@, lines.len() as int);
    assert(text::lines_of(Seq::empty()) =~= Seq::<Seq<char>>::empty());
}

/// All songs are those that the server lists when it is asked for them.
pub proof fn law_all_songs(s: clients::Session)
    ensures
        clients::all_songs_spec(s).0 matches Ok(songs) ==> s.ask("find \"(base '')\""@).0 matches Ok(
            reply,
        ) && clients::uris_spec(reply) == Ok::<Seq<Seq<char>>, clients::ErrorView>(songs),
{
}

// ---------------------------------------------------------------------------------------------
// Stickers
// ---------------------------------------------------------------------------------------------

/// What is after the bytes of the first of two parts is the second.
proof fn lemma_after_bytes(p: Seq<char>, x: Seq<char>)
    ensures
        text::after_bytes(p + x, text::byte_count(p) as int) == Some(x),
{
    let bytes = vstd::utf8::encode_utf8(p + x);
    let n = text::byte_count(p) as int;
    quoting::lemma_encode_concat(p, x);
    lemma_boundary(p, x);
    assert(bytes.subrange(n, bytes.len() as int) =~= vstd::utf8::encode_utf8(x));
    vstd::utf8::encode_utf8_decode_utf8(x);
}

proof fn lemma_boundary(p: Seq<char>, x: Seq<char>)
    ensures
        vstd::utf8::is_char_boundary(
            vstd::utf8::encode_utf8(p + x),
            text::byte_count(p) as int,
        ),
    decreases p.len(),
{
    vstd::utf8::encode_utf8_valid_utf8(p + x);
    if p.len() > 0 {
        let s = p + x;
        let bytes = vstd::utf8::encode_utf8(s);
        quoting::lemma_encode_concat(p, x);
        vstd::utf8::encode_utf8_first_scalar(s);
        assert(s.drop_first() =~= p.drop_first() + x);
        assert(vstd::utf8::pop_first_scalar(bytes) =~= vstd::utf8::encode_utf8(s.drop_first()));
        lemma_boundary(p.drop_first(), x);
        assert(text::byte_count(p) == vstd::utf8::encode_scalar(p[0] as u32).len()
            + text::byte_count(p.drop_first()));
    }
}

/// The rest of a reply adds to what there is the same, whatever that is.
proof fn lemma_stickers_added(
    lines: Seq<Seq<char>>,
    i: int,
    sticker: Seq<char>,
    bad: clients::ErrorView,
    worse: clients::ErrorView,
    m: Seq<(Seq<char>, Seq<char>)>,
    n: Seq<(Seq<char>, Seq<char>)>,
    song: Seq<char>,
    held: Option<Seq<char>>,
)
    requires
        0 <= i,
        collections::lookup(m, song) == (match collections::lookup(n, song) {
            Some(value) => Some(value),
            None => held,
        }),
    ensures
        match (
            clients::stickers_from(lines, i, sticker, bad, m),
            clients::stickers_from(lines, i, sticker, worse, n),
        ) {
            (Ok(a), Ok(b)) => collections::lookup(a, song) == (match collections::lookup(b, song) {
                Some(value) => Some(value),
                None => held,
            }),
            (Err(_), Err(_)) => true,
            _ => false,
        },
    decreases lines.len() - i,
{
    if i + 1 < lines.len() && lines[i] != "OK"@ {
        if let (Some(file), Some(value)) = (
            text::after_bytes(lines[i], 6),
            text::after_bytes(lines[i + 1], 10 + text::byte_count(sticker) as int),
        ) {
            collections::law_put_lookup(m, file, value, song);
            collections::law_put_lookup(n, file, value, song);
            lemma_stickers_added(
                lines,
                i + 2,
                sticker,
                bad,
                worse,
                collections::put(m, file, value),
                collections::put(n, file, value),
                song,
                held,
            );
        }
    }
}

proof fn lemma_stickers_shifted(
    a: Seq<char>,
    b: Seq<char>,
    lines: Seq<Seq<char>>,
    i: int,
    sticker: Seq<char>,
    bad: clients::ErrorView,
    m: Seq<(Seq<char>, Seq<char>)>,
)
    requires
        0 <= i,
    ensures
        clients::stickers_from(seq![a, b] + lines, i + 2, sticker, bad, m)
            == clients::stickers_from(lines, i, sticker, bad, m),
    decreases lines.len() - i,
{
    let all = seq![a, b] + lines;
    if i < lines.len() {
        assert(all[i + 2] == lines[i]);
        if i + 1 < lines.len() {
            assert(all[i + 3] == lines[i + 1]);
            if let (Some(file), Some(value)) = (
                text::after_bytes(lines[i], 6),
                text::after_bytes(lines[i + 1], 10 + text::byte_count(sticker) as int),
            ) {
                lemma_stickers_shifted(
                    a,
                    b,
                    lines,
                    i + 2,
                    sticker,
                    bad,
                    collections::put(m, file, value),
                );
            }
        }
    }
}

/// The values of a sticker that a reply gives: two lines that give a song & its value add that value to
/// those that the lines after them give; if these give the song a value, that one stands.
pub proof fn law_stickers(
    file: Seq<char>,
    sticker: Seq<char>,
    value: Seq<char>,
    rest: Seq<char>,
    song: Seq<char>,
)
    requires
        is_line("file: "@ + file),
        is_line("sticker: "@ + sticker + "="@ + value),
        clients::stickers_spec(rest, sticker) is Ok,
    ensures
        clients::stickers_spec("OK\n"@, sticker) == Ok::<
            Seq<(Seq<char>, Seq<char>)>,
            clients::ErrorView,
        >(Seq::empty()),
        ({
            let reply = "file: "@ + file + "\n"@ + ("sticker: "@ + sticker + "="@ + value + "\n"@
                + rest);
            &&& clients::stickers_spec(reply, sticker) is Ok
            &&& collections::lookup(clients::stickers_spec(reply, sticker)->Ok_0, song) == (
            match collections::lookup(clients::stickers_spec(rest, sticker)->Ok_0, song) {
                Some(later) => Some(later),
                None => if song == file {
                    Some(value)
                } else {
                    None
                },
            })
        }),
{
    reveal_strlit("file: ");
    reveal_strlit("sticker: ");
    reveal_strlit("=");
    reveal_strlit("ACK");
    reveal_strlit("OK");
    let a = "file: "@ + file;
    let b = "sticker: "@ + sticker + "="@ + value;
    let tail = b + "\n"@ + rest;
    let reply = a + "\n"@ + tail;
    assert(reply =~= "file: "@ + file + "\n"@ + ("sticker: "@ + sticker + "="@ + value + "\n"@
        + rest));
    lemma_first_line(a, tail);
    lemma_first_line(b, rest);
    let lines = text::lines_of(rest);
    assert(text::lines_of(reply) =~= seq![a, b] + lines);
    assert(reply[0] == 'f');
    lemma_not_after(reply, "ACK"@, 0);
    assert(a != "OK"@) by {
        assert(a[0] == 'f' && "OK"@[0] == 'O');
    }
    lemma_only_ok(sticker);
    lemma_ascii_count("file: "@);
    lemma_ascii_count("sticker: "@);
    lemma_ascii_count("="@);
    lemma_after_bytes("file: "@, file);
    let p = "sticker: "@ + sticker + "="@;
    quoting::lemma_encode_concat("sticker: "@ + sticker, "="@);
    quoting::lemma_encode_concat("sticker: "@, sticker);
    lemma_after_bytes(p, value);
    assert(b =~= p + value);
    let bad = clients::protocol(clients::Operation::GetStickers, reply);
    let worse = clients::protocol(clients::Operation::GetStickers, rest);
    let none = Seq::<(Seq<char>, Seq<char>)>::empty();
    let one = collections::put(none, file, value);
    let all = seq![a, b] + lines;
    assert(all[0] == a && all[1] == b);
    assert(clients::stickers_spec(reply, sticker) == clients::stickers_from(
        all,
        2,
        sticker,
        bad,
        one,
    ));
    lemma_stickers_shifted(a, b, lines, 0, sticker, bad, one);
    collections::law_put_lookup(none, file, value, song);
    lemma_stickers_added(
        lines,
        0,
        sticker,
        bad,
        worse,
        one,
        none,
        song,
        if song == file {
            Some(value)
        } else {
            None
        },
    );
}

proof fn lemma_only_ok(sticker: Seq<char>)
    ensures
        clients::stickers_spec("OK\n"@, sticker) == Ok::<
            Seq<(Seq<char>, Seq<char>)>,
            clients::ErrorView,
        >(Seq::empty()),
{
    reveal_strlit("OK\n");
    reveal_strlit("OK");
    reveal_strlit("\n");
    reveal_strlit("ACK");
    assert("OK\n"@ =~= "OK"@ + "\n"@ + Seq::empty());
    lemma_first_line("OK"@, Seq::empty());
    assert(text::lines_of("OK\n"@)[0] == "OK"@);
    lemma_not_after("OK\n"@, "ACK"@, 0);
}

proof fn lemma_ascii_count(s: Seq<char>)
    requires
        forall|i: int| 0 <= i < s.len() ==> #[trigger] s[i] <= '~',
    ensures
        text::byte_count(s) == s.len(),
    decreases s.len(),
{
    if s.len() > 0 {
        assert(seq![s[0]] + s.drop_first() =~= s);
        quoting::lemma_encode_concat(seq![s[0]], s.drop_first());
        quoting::lemma_encode_char(s[0]);
        lemma_ascii_count(s.drop_first());
    }
}

/// A reply that gives a sticker's value is read as that value, & one that says that there is none as that.
pub proof fn law_sticker<T: StickerValue>(
    sticker: Seq<char>,
    value: Seq<char>,
    rest: Seq<char>,
    request: Seq<char>,
)
    requires
        !value.contains('\n'),
    ensures
        T::read_as(value) matches Ok(read) ==> clients::sticker_spec::<T>(
            "sticker: "@ + sticker + "="@ + value + "\n"@ + rest,
            sticker,
            request,
        ) == Ok::<Option<T::V>, clients::ErrorView>(Some(read)),
        T::read_as(value) is Err ==> clients::sticker_spec::<T>(
            "sticker: "@ + sticker + "="@ + value + "\n"@ + rest,
            sticker,
            request,
        ) is Err,
        clients::sticker_spec::<T>("ACK [50@0]"@ + rest, sticker, request) == Ok::<
            Option<T::V>,
            clients::ErrorView,
        >(None),
{
    reveal_strlit("\n");
    reveal_strlit("ACK [50@0]");
    reveal_strlit("sticker: ");
    let p = "sticker: "@ + sticker + "="@;
    let row = value + "\n"@ + rest;
    let reply = "sticker: "@ + sticker + "="@ + value + "\n"@ + rest;
    assert(reply =~= p + row);
    lemma_after(p, row);
    text::lemma_find_from(row, '\n', 0);
    assert(row[value.len() as int] == '\n');
    let j = text::find_from(row, '\n', 0);
    assert(j == value.len()) by {
        if j < value.len() {
            assert(row[j] == value[j]);
            assert(value.contains('\n'));
        }
    }
    assert(row.take(j) =~= value);
    let none = "ACK [50@0]"@ + rest;
    assert(none[0] == 'A' && p[0] == 's');
    lemma_not_after(none, p, 0);
    lemma_after("ACK [50@0]"@, rest);
}

// ---------------------------------------------------------------------------------------------
// Messages
// ---------------------------------------------------------------------------------------------

/// The lines in which the messages of the first `n` batches are given: for each, the channel, & then its
/// messages.
pub open spec fn inbox_lines(batches: clients::Inbox, n: int) -> Seq<Seq<char>>
    decreases n,
{
    if n <= 0 {
        Seq::empty()
    } else {
        let (chan, msgs) = batches[n - 1];
        inbox_lines(batches, n - 1).push("channel: "@ + chan) + Seq::new(
            msgs.len(),
            |i: int| "message: "@ + msgs[i],
        )
    }
}

/// The messages of the first `n` batches that are for a channel, in order.
pub open spec fn sent_to(batches: clients::Inbox, n: int, chan: Seq<char>) -> Seq<Seq<char>>
    decreases n,
{
    if n <= 0 {
        Seq::empty()
    } else if batches[n - 1].0 == chan {
        sent_to(batches, n - 1, chan) + batches[n - 1].1
    } else {
        sent_to(batches, n - 1, chan)
    }
}

/// The inbox once the first `n` batches have been delivered.
spec fn inbox(batches: clients::Inbox, n: int) -> clients::Inbox
    decreases n,
{
    if n <= 0 {
        Seq::empty()
    } else {
        clients::delivered(inbox(batches, n - 1), batches[n - 1].0, batches[n - 1].1)
    }
}

proof fn lemma_inbox(batches: clients::Inbox, n: int, chan: Seq<char>)
    requires
        0 <= n <= batches.len(),
    ensures
        collections::lookup(inbox(batches, n), chan) == (if exists|i: int|
            0 <= i < n && (#[trigger] batches[i]).0 == chan {
            Some(sent_to(batches, n, chan))
        } else {
            None
        }),
        !(exists|i: int| 0 <= i < n && (#[trigger] batches[i]).0 == chan) ==> sent_to(
            batches,
            n,
            chan,
        ) =~= Seq::empty(),
    decreases n,
{
    if n > 0 {
        lemma_inbox(batches, n - 1, chan);
        let (last, msgs) = batches[n - 1];
        lemma_inbox(batches, n - 1, last);
        let before = inbox(batches, n - 1);
        let held = match collections::lookup(before, last) {
            Some(earlier) => earlier + msgs,
            None => msgs,
        };
        collections::law_put_lookup(before, last, held, chan);
        if last == chan {
            assert(Seq::<Seq<char>>::empty() + msgs =~= msgs);
        }
    }
}

/// Reading on, through the first `n` messages for a channel.
proof fn lemma_read_messages(
    lines: Seq<Seq<char>>,
    i: int,
    reply: Seq<char>,
    chan: Seq<char>,
    msgs: Seq<Seq<char>>,
    n: int,
    m: clients::Inbox,
)
    requires
        0 <= i,
        0 <= n <= msgs.len(),
        i + msgs.len() <= lines.len(),
        forall|k: int| 0 <= k < msgs.len() ==> #[trigger] lines[i + k] == "message: "@ + msgs[k],
    ensures
        clients::messages_from(
            lines,
            i,
            reply,
            clients::Reading::Running { chan, msgs: Seq::empty() },
            m,
        ) == clients::messages_from(
            lines,
            i + n,
            reply,
            clients::Reading::Running { chan, msgs: msgs.take(n) },
            m,
        ),
    decreases n,
{
    if n > 0 {
        lemma_read_messages(lines, i, reply, chan, msgs, n - 1, m);
        assert(lines[i + (n - 1)] == "message: "@ + msgs[n - 1]);
        lemma_after("message: "@, msgs[n - 1]);
        assert(msgs.take(n - 1).push(msgs[n - 1]) =~= msgs.take(n));
    } else {
        assert(msgs.take(0) =~= Seq::<Seq<char>>::empty());
    }
}

/// Reading through the first `n` batches.
proof fn lemma_read_batches(
    batches: clients::Inbox,
    lines: Seq<Seq<char>>,
    reply: Seq<char>,
    n: int,
)
    requires
        0 < n <= batches.len(),
        inbox_lines(batches, n).is_prefix_of(lines),
    ensures
        clients::messages_from(lines, 0, reply, clients::Reading::Init, Seq::empty())
            == clients::messages_from(
            lines,
            inbox_lines(batches, n).len() as int,
            reply,
            clients::Reading::Running { chan: batches[n - 1].0, msgs: batches[n - 1].1 },
            inbox(batches, n - 1),
        ),
    decreases n,
{
    reveal_strlit("channel: ");
    reveal_strlit("message: ");
    let (chan, msgs) = batches[n - 1];
    let before = inbox_lines(batches, n - 1);
    let all = inbox_lines(batches, n);
    let i = before.len() as int;
    assert(all[i] == "channel: "@ + chan);
    assert(lines[i] == all[i]) by {
        assert(lines.subrange(0, all.len() as int)[i] == all[i]);
    }
    lemma_after("channel: "@, chan);
    if n > 1 {
        assert(before.is_prefix_of(lines)) by {
            assert forall|k: int| 0 <= k < before.len() implies #[trigger] before[k] == lines[k] by {
                assert(all[k] == before[k]);
                assert(lines.subrange(0, all.len() as int)[k] == all[k]);
            }
            assert(before =~= lines.subrange(0, before.len() as int));
        }
        lemma_read_batches(batches, lines, reply, n - 1);
        assert(lines[i][0] == 'c');
        lemma_not_after(lines[i], "message: "@, 0);
    }
    assert forall|k: int| 0 <= k < msgs.len() implies #[trigger] lines[i + 1 + k] == "message: "@
        + msgs[k] by {
        assert(all[i + 1 + k] == "message: "@ + msgs[k]);
        assert(lines.subrange(0, all.len() as int)[i + 1 + k] == all[i + 1 + k]);
    }
    lemma_read_messages(
        lines,
        i + 1,
        reply,
        chan,
        msgs,
        msgs.len() as int,
        inbox(batches, n - 1),
    );
    assert(msgs.take(msgs.len() as int) =~= msgs);
}

/// The messages that a reply gives are those that were sent: each channel has the messages that are given
/// after its name, one after the other, & there is no other channel.
pub proof fn law_messages(batches: clients::Inbox, chan: Seq<char>)
    requires
        batches.len() > 0,
        forall|i: int|
            0 <= i < inbox_lines(batches, batches.len() as int).len() ==> is_line(
                #[trigger] inbox_lines(batches, batches.len() as int)[i],
            ),
    ensures
        ({
            let n = batches.len() as int;
            let r = clients::messages_spec(written(inbox_lines(batches, n).push("OK"@)));
            &&& r is Ok
            &&& collections::lookup(r->Ok_0, chan) == (if exists|i: int|
                0 <= i < n && (#[trigger] batches[i]).0 == chan {
                Some(sent_to(batches, n, chan))
            } else {
                None
            })
        }),
{
    reveal_strlit("OK");
    reveal_strlit("channel: ");
    reveal_strlit("message: ");
    let n = batches.len() as int;
    let start = inbox_lines(batches, n);
    let lines = start.push("OK"@);
    let reply = written(lines);
    assert forall|i: int| 0 <= i < lines.len() implies is_line(#[trigger] lines[i]) by {
        if i < start.len() {
            assert(lines[i] == start[i]);
        }
    }
    law_lines(lines);
    assert(start =~= lines.subrange(0, start.len() as int));
    lemma_read_batches(batches, lines, reply, n);
    lemma_not_after("OK"@, "message: "@, 0);
    lemma_not_after("OK"@, "channel: "@, 0);
    assert(lines[start.len() as int] == "OK"@);
    reveal_with_fuel(clients::messages_from, 3);
    lemma_inbox(batches, n, chan);
}

// ---------------------------------------------------------------------------------------------
// The end of a reply
// ---------------------------------------------------------------------------------------------

proof fn lemma_line_start(s: Seq<u8>, i: int, j: int)
    requires
        0 <= i <= j < s.len(),
        forall|k: int| i <= k <= j ==> #[trigger] s[k] != 0x0a,
        i == 0 || i > 1 && s[i - 1] == 0x0a,
    ensures
        clients::line_start(s, j) == i,
    decreases j - i,
{
    if i < j {
        lemma_line_start(s, i, j - 1);
    } else if i > 0 {
        reveal_with_fuel(clients::line_start, 2);
    }
}

/// A reply is complete just when it ends in a whole line that starts with "OK" or with "ACK".
pub proof fn law_complete(before: Seq<u8>, line: Seq<u8>)
    requires
        before.len() == 0 || before.len() > 1 && before.last() == 0x0a,
        !line.contains(0x0a),
    ensures
        clients::is_complete(before + line + seq![0x0au8]) <==> (seq![0x4fu8, 0x4bu8].is_prefix_of(
            line,
        ) || seq![0x41u8, 0x43u8, 0x4bu8].is_prefix_of(line)),
        line.len() > 0 ==> !clients::is_complete(before + line),
{
    let s = before + line + seq![0x0au8];
    let i = before.len() as int;
    if line.len() > 0 {
        assert forall|k: int| i <= k <= s.len() - 2 implies #[trigger] s[k] != 0x0a by {
            assert(s[k] == line[k - i]);
            assert(line.contains(line[k - i]));
        }
        if i > 0 {
            assert(s[i - 1] == before[i - 1]);
        }
        lemma_line_start(s, i, s.len() - 2);
        assert(line.contains(line.last()));
        assert((before + line).last() == line.last());
        assert(forall|k: int| 0 <= k < line.len() ==> #[trigger] s[i + k] == line[k]);
        if line.len() >= 2 {
            assert(s[i] == s[i + 0] && s[i + 1] == line[1]);
            assert(seq![0x4fu8, 0x4bu8].is_prefix_of(line) <==> line[0] == 0x4f && line[1] == 0x4b) by {
                let p = seq![0x4fu8, 0x4bu8];
                if line[0] == 0x4f && line[1] == 0x4b {
                    assert(p =~= line.subrange(0, 2));
                }
                if p.is_prefix_of(line) {
                    assert(line.subrange(0, 2)[0] == p[0] && line.subrange(0, 2)[1] == p[1]);
                }
            }
        }
        if line.len() >= 3 {
            assert(s[i + 2] == line[2]);
            assert(seq![0x41u8, 0x43u8, 0x4bu8].is_prefix_of(line) <==> line[0] == 0x41 && line[1]
                == 0x43 && line[2] == 0x4b) by {
                let p = seq![0x41u8, 0x43u8, 0x4bu8];
                if line[0] == 0x41 && line[1] == 0x43 && line[2] == 0x4b {
                    assert(p =~= line.subrange(0, 3));
                }
                if p.is_prefix_of(line) {
                    let q = line.subrange(0, 3);
                    assert(q[0] == p[0] && q[1] == p[1] && q[2] == p[2]);
                }
            }
        }
    } else if i > 1 {
        assert(s[s.len() - 2] == before[i - 1]);
    }
}

// ---------------------------------------------------------------------------------------------
// Other replies
// ---------------------------------------------------------------------------------------------

/// A request that the server refuses fails, whatever was asked for; one that it grants does not.
pub proof fn law_refused<T: StickerValue>(
    rest: Seq<char>,
    op: clients::Operation,
    msg: Seq<char>,
    name: Seq<char>,
    request: Seq<char>,
)
    ensures
        clients::ok_spec("OK"@ + rest, op, msg) is Ok,
        clients::ok_spec("ACK"@ + rest, op, msg) is Err,
        clients::listing_spec("ACK"@ + rest, name, op) is Err,
        clients::stickers_spec("ACK"@ + rest, name) is Err,
        clients::job_spec("ACK"@ + rest) is Err,
        clients::change_spec("ACK"@ + rest) is Err,
        clients::sticker_spec::<T>("ACK"@ + rest, name, request) matches Ok(value) ==> value is None
            && " [50@0]"@.is_prefix_of(rest),
{
    reveal_strlit("OK");
    reveal_strlit("ACK");
    reveal_strlit("updating_db: ");
    reveal_strlit("changed: ");
    reveal_strlit("sticker: ");
    reveal_strlit("ACK [50@0]");
    reveal_strlit(" [50@0]");
    let reply = "ACK"@ + rest;
    assert(reply[0] == 'A');
    lemma_after("OK"@, rest);
    lemma_after("ACK"@, rest);
    lemma_not_after(reply, "OK"@, 0);
    lemma_not_after(reply, "updating_db: "@, 0);
    lemma_not_after(reply, "changed: "@, 0);
    lemma_not_after(reply, "sticker: "@ + name + "="@, 0);
    if "ACK [50@0]"@.is_prefix_of(reply) {
        let p = "ACK [50@0]"@;
        assert forall|k: int| 0 <= k < 7 implies #[trigger] rest[k] == " [50@0]"@[k] by {
            assert(reply.subrange(0, 10)[k + 3] == p[k + 3]);
            assert(reply[k + 3] == rest[k]);
        }
        assert(rest.subrange(0, 7) =~= " [50@0]"@);
    }
}

/// The number of the job that updates the database is the one that the reply gives.
pub proof fn law_job(n: u64, rest: Seq<char>)
    ensures
        clients::job_spec("updating_db: "@ + number::decimal(n as nat) + "\n"@ + rest) == Ok::<
            u64,
            clients::ErrorView,
        >(n),
{
    reveal_strlit("\n");
    let digits = number::decimal(n as nat);
    let row = digits + "\n"@ + rest;
    assert("updating_db: "@ + digits + "\n"@ + rest =~= "updating_db: "@ + row);
    lemma_after("updating_db: "@, row);
    number::lemma_decimal(n as nat);
    number::law_parsed_decimal(n as nat, u64::MAX as int);
    assert(!digits.contains('\n')) by {
        if digits.contains('\n') {
            let k = digits.index_of('\n');
            assert(number::is_digit(digits[k]));
        }
    }
    lemma_row(digits, rest);
    assert(row.take(digits.len() as int) =~= digits);
}

proof fn lemma_row(row: Seq<char>, rest: Seq<char>)
    requires
        !row.contains('\n'),
    ensures
        text::find_from(row + "\n"@ + rest, '\n', 0) == row.len(),
{
    reveal_strlit("\n");
    let s = row + "\n"@ + rest;
    text::lemma_find_from(s, '\n', 0);
    assert(s[row.len() as int] == '\n');
    let j = text::find_from(s, '\n', 0);
    if j < row.len() {
        assert(s[j] == row[j]);
    }
}

/// Whether a text is a name, with letters of either case.
pub open spec fn spells(s: Seq<char>, name: Seq<char>) -> bool {
    s.len() == name.len() && forall|i: int|
        0 <= i < s.len() ==> #[trigger] s[i] == name[i] || s[i] as int + 32 == name[i] as int
}

/// What is said to have changed is what did: the player or the messages, in letters of either case, &
/// nothing else in ASCII.
pub proof fn law_changed(name: Seq<char>, rest: Seq<char>)
    requires
        text::is_ascii(name),
        !name.contains('\n'),
    ensures
        ({
            let r = clients::change_spec("changed: "@ + name + "\n"@ + "OK"@ + rest);
            &&& spells(name, "player"@) ==> r == Ok::<clients::IdleSubSystem, clients::ErrorView>(
                clients::IdleSubSystem::Player,
            )
            &&& spells(name, "message"@) ==> r == Ok::<clients::IdleSubSystem, clients::ErrorView>(
                clients::IdleSubSystem::Message,
            )
            &&& !spells(name, "player"@) && !spells(name, "message"@) ==> r is Err
        }),
{
    reveal_strlit("\n");
    let row = name + "\n"@ + ("OK"@ + rest);
    assert("changed: "@ + name + "\n"@ + "OK"@ + rest =~= "changed: "@ + row);
    lemma_after("changed: "@, row);
    lemma_row(name, "OK"@ + rest);
    assert(row.take(name.len() as int) =~= name);
    assert(row.skip(name.len() as int + 1) =~= "OK"@ + rest);
    lemma_after("OK"@, rest);
    lemma_spells(name, "player"@);
    lemma_spells(name, "message"@);
    reveal_strlit("player");
    reveal_strlit("message");
    assert("player"@.len() == 6 && "message"@.len() == 7);
}

proof fn lemma_spells(s: Seq<char>, name: Seq<char>)
    requires
        text::is_ascii(s),
        name == "player"@ || name == "message"@,
    ensures
        text::lowercase(s) == name <==> spells(s, name),
{
    reveal_strlit("player");
    reveal_strlit("message");
    let low = text::lowercase(s);
    assert forall|i: int| 0 <= i < name.len() implies 'a' <= #[trigger] name[i] <= 'z' by {}
    if spells(s, name) {
        assert(low =~= name);
    }
    if low == name {
        assert forall|i: int| 0 <= i < s.len() implies #[trigger] s[i] == name[i] || s[i] as int + 32
            == name[i] as int by {
            assert(low[i] == name[i]);
        }
    }
}

/// A server that greets as it should gives the version of its protocol; one that does not is no server.
pub proof fn law_greeting(bytes: Seq<u8>, version: Seq<char>, other: Seq<char>)
    requires
        version.len() > 0,
        !text::is_whitespace(version[0]),
        !text::is_whitespace(version.last()),
        !"OK MPD "@.is_prefix_of(other),
    ensures
        text::decoded(bytes) matches Ok(s) && s == "OK MPD "@ + version + "\n"@
            ==> clients::greeting_spec(bytes) == Ok::<Seq<char>, clients::ErrorView>(version),
        text::decoded(bytes) matches Ok(s) && s == other ==> clients::greeting_spec(bytes) is Err,
        text::decoded(bytes) is Err ==> clients::greeting_spec(bytes) is Err,
{
    reveal_strlit("\n");
    let line = version + "\n"@;
    assert("OK MPD "@ + version + "\n"@ =~= "OK MPD "@ + line);
    lemma_after("OK MPD "@, line);
    assert(line[0] == version[0]);
    assert(line.last() == '\n');
    assert(line[line.len() - 2] == version.last());
    reveal_with_fuel(text::word_end, 2);
    assert(text::word_end(line, line.len() as int) == version.len());
    assert(line.subrange(0, version.len() as int) =~= version);
}

/// A request is sent as it is, with a line feed at its end.
pub proof fn law_frame(msg: Seq<char>)
    ensures
        clients::frame_spec(msg).drop_last() == msg,
        clients::frame_spec(msg).last() == '\n',
{
    assert(clients::frame_spec(msg).drop_last() =~= msg);
}

} // verus!
