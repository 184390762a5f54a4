//! What is kept in stickers is there to be retrieved.

use vstd::prelude::*;

use crate::clients;
use crate::clients::Session;
use crate::number;
use crate::playcounts;
use crate::ratings;
use crate::text;

verus! {

/// The reply that gives a sticker's value.
pub open spec fn sticker_reply(sticker: Seq<char>, value: Seq<char>) -> Seq<char> {
    "sticker: "@ + sticker + "="@ + value + "\nOK\n"@
}

/// Whether a server keeps stickers: right after it has accepted one, it gives its value.
pub open spec fn keeps_stickers(s: Session) -> bool {
    forall|sent: Seq<Seq<char>>, file: Seq<char>, sticker: Seq<char>, value: Seq<char>|
        #![trigger (s.server)(sent.push(clients::set_sticker_request(file, sticker, value)))]
        ((s.server)(sent.push(clients::set_sticker_request(file, sticker, value))) matches Ok(reply)
            && "OK"@.is_prefix_of(reply)) ==> (s.server)(
            sent.push(clients::set_sticker_request(file, sticker, value)).push(
                clients::get_sticker_request(file, sticker),
            ),
        ) == Ok::<Seq<char>, clients::ErrorView>(sticker_reply(sticker, value))
}

/// A number is read back from the reply that gives it.
proof fn lemma_reply(sticker: Seq<char>, n: nat)
    ensures
        text::after(sticker_reply(sticker, number::decimal(n)), "sticker: "@ + sticker + "="@)
            matches Some(rest) && text::first_row(rest) == number::decimal(n),
{
    let prefix = "sticker: "@ + sticker + "="@;
    let digits = number::decimal(n);
    let reply = sticker_reply(sticker, digits);
    let rest = digits + "\nOK\n"@;
    assert(reply =~= prefix + rest);
    assert(reply.subrange(0, prefix.len() as int) =~= prefix);
    assert(prefix.is_prefix_of(reply));
    assert(reply.skip(prefix.len() as int) =~= rest);
    reveal_strlit("\nOK\n");
    number::lemma_decimal(n);
    text::lemma_find_from(rest, '\n', 0);
    assert(rest[digits.len() as int] == '\n');
    let i = text::find_from(rest, '\n', 0);
    assert(i == digits.len()) by {
        if i < digits.len() {
            assert(number::is_digit(digits[i]));
            assert(rest[i] == digits[i]);
        }
    }
    assert(rest.take(i) =~= digits);
}

/// A rating that was set is the rating that is retrieved.
pub proof fn law_rating_kept(
    s: Session,
    sticker: Seq<char>,
    file: Seq<char>,
    rating: u8,
    cmd: Seq<char>,
    args: Seq<Seq<char>>,
    music_dir: Seq<char>,
)
    requires
        keeps_stickers(s),
        ratings::set_rating_spec(s, sticker, file, rating, cmd, args, music_dir).0 is Ok,
    ensures
        ({
            let (_, after) = ratings::set_rating_spec(
                s,
                sticker,
                file,
                rating,
                cmd,
                args,
                music_dir,
            );
            ratings::get_rating_spec(after, sticker, file).0 == Ok::<u8, ratings::ErrorView>(rating)
        }),
{
    let value = number::decimal(rating as nat);
    assert((s.server)(s.sent.push(clients::set_sticker_request(file, sticker, value))) is Ok);
    lemma_reply(sticker, rating as nat);
    number::law_parsed_decimal(rating as nat, 255);
}

/// A play count that was set is the play count that is retrieved.
pub proof fn law_play_count_kept(
    s: Session,
    sticker: Seq<char>,
    file: Seq<char>,
    play_count: usize,
    cmd: Seq<char>,
    args: Seq<Seq<char>>,
    music_dir: Seq<char>,
)
    requires
        keeps_stickers(s),
        playcounts::set_play_count_spec(s, sticker, file, play_count, cmd, args, music_dir).0 is Ok,
    ensures
        ({
            let (_, after) = playcounts::set_play_count_spec(
                s,
                sticker,
                file,
                play_count,
                cmd,
                args,
                music_dir,
            );
            playcounts::get_play_count_spec(after, sticker, file).0 == Ok::<
                Option<usize>,
                playcounts::ErrorView,
            >(Some(play_count))
        }),
{
    let value = number::decimal(play_count as nat);
    assert((s.server)(s.sent.push(clients::set_sticker_request(file, sticker, value))) is Ok);
    lemma_reply(sticker, play_count as nat);
    number::law_parsed_decimal(play_count as nat, usize::MAX as int);
}

/// A last played time that was set is the last played time that is retrieved.
pub proof fn law_last_played_kept(
    s: Session,
    sticker: Seq<char>,
    file: Seq<char>,
    last_played: u64,
)
    requires
        keeps_stickers(s),
        playcounts::set_last_played_spec(s, sticker, file, last_played).0 is Ok,
    ensures
        ({
            let (_, after) = playcounts::set_last_played_spec(s, sticker, file, last_played);
            playcounts::get_last_played_spec(after, sticker, file).0 == Ok::<
                Option<u64>,
                playcounts::ErrorView,
            >(Some(last_played))
        }),
{
    let value = number::decimal(last_played as nat);
    assert((s.server)(s.sent.push(clients::set_sticker_request(file, sticker, value))) is Ok);
    lemma_reply(sticker, last_played as nat);
    number::law_parsed_decimal(last_played as nat, u64::MAX as int);
}

} // verus!
