//! The command history panel: filtering, times and shortened commands.

use crate::gui::{GuiAction, HistoryItem};
use crate::number;
use crate::text;
use vstd::prelude::*;
use vstd::string::StringExecFns;

verus! {

/// An entry passes the filter: its command holds the search text, without regard to case.
pub open spec fn passes(e: HistoryItem, search: Seq<char>) -> bool {
    let wanted = text::lowered(search);
    wanted.len() == 0 || text::contains_word(text::lowered(e.command@), wanted)
}

/// The places, in order, of the entries among the first `n` that pass the filter.
pub open spec fn passing(entries: Seq<HistoryItem>, search: Seq<char>, n: nat) -> Seq<usize>
    decreases n,
{
    if n == 0 {
        Seq::empty()
    } else {
        let before = passing(entries, search, (n - 1) as nat);
        if passes(entries[n - 1], search) {
            before.push((n - 1) as usize)
        } else {
            before
        }
    }
}

/// The entries that pass the filter, by their place.
pub fn filter_history(entries: &Vec<HistoryItem>, search: &str) -> (r: Vec<usize>)
    ensures
        r@ == passing(entries@, search@, entries@.len()),
{
    let lower: String = text::lower_text(search);
    let wanted: Vec<char> = text::to_chars(lower.as_str());
    let mut out: Vec<usize> = Vec::new();
    let mut i: usize = 0;
    while i < entries.len()
        invariant
            i <= entries@.len(),
            wanted@ == text::lowered(search@),
            out@ == passing(entries@, search@, i as nat),
        decreases entries@.len() - i,
    {
        let command: String = text::lower_text(entries[i].command.as_str());
        let chars: Vec<char> = text::to_chars(command.as_str());
        if wanted.len() == 0 || text::contains(&chars, &wanted) {
            out.push(i);
        }
        i = i + 1;
    }
    out
}

/// Every entry that passes is listed and no other, each once and in order.
pub proof fn law_history_filtered(entries: Seq<HistoryItem>, search: Seq<char>, n: nat)
    requires
        n <= entries.len() <= usize::MAX,
    ensures
        ({
            let p = passing(entries, search, n);
            &&& forall|k: int|
                0 <= k < p.len() ==> (#[trigger] p[k]) < n && passes(entries[p[k] as int], search)
            &&& forall|j: int, k: int| 0 <= j < k < p.len() ==> #[trigger] p[j] < #[trigger] p[k]
            &&& forall|i: int|
                0 <= i < n && passes(#[trigger] entries[i], search) ==> p.contains(i as usize)
        }),
    decreases n,
{
    if n > 0 {
        law_history_filtered(entries, search, (n - 1) as nat);
        let before = passing(entries, search, (n - 1) as nat);
        let p = passing(entries, search, n);
        assert forall|i: int| 0 <= i < n && passes(#[trigger] entries[i], search) implies p.contains(
            i as usize,
        ) by {
            if i == n - 1 {
                assert(p[p.len() - 1] == i as usize);
            } else {
                let k = choose|k: int| 0 <= k < before.len() && before[k] == i as usize;
                assert(p[k] == i as usize);
            }
        }
    }
}

/// A number of at most two digits; a negative one with its sign.
pub open spec fn two_digits(negative: bool, n: nat) -> Seq<char> {
    if negative && n > 0 {
        seq!['-'] + number::digits(n)
    } else {
        number::padded(n, 2)
    }
}

/// The time of day of a moment given in seconds, `HH:MM`. Before the epoch both parts count down
/// from it.
pub open spec fn time_text(secs: int) -> Seq<char> {
    let negative = secs < 0;
    let away: nat = if negative {
        (-secs) as nat
    } else {
        secs as nat
    };
    two_digits(negative, away / 3600 % 24) + seq![':'] + two_digits(negative, away / 60 % 60)
}

fn push_two(out: &mut String, negative: bool, n: u64)
    ensures
        final(out)@ == old(out)@ + two_digits(negative, n as nat),
{
    if negative && n > 0 {
        text::push_char(out, '-');
        number::push_digits(out, n);
        assert(out@ =~= old(out)@ + two_digits(negative, n as nat));
    } else {
        number::push_padded(out, n, 2);
    }
}

/// The time of day of an entry, `HH:MM`.
pub fn entry_time(timestamp: i64) -> (r: String)
    ensures
        r@ == time_text(timestamp as int),
{
    let negative: bool = timestamp < 0;
    let away: u64 = if negative {
        (-(timestamp + 1)) as u64 + 1
    } else {
        timestamp as u64
    };
    let mut out: String = String::new();
    push_two(&mut out, negative, away / 3600 % 24);
    text::push_char(&mut out, ':');
    push_two(&mut out, negative, away / 60 % 60);
    assert(out@ =~= time_text(timestamp as int));
    out
}

/// A command as the list shows it: one of more than 60 bytes is cut after 59, with an ellipsis.
pub open spec fn short_command(command: Seq<char>) -> Seq<char> {
    let bytes = vstd::utf8::encode_utf8(command);
    if bytes.len() > 60 {
        vstd::utf8::decode_utf8(bytes.take(59)) + seq!['…']
    } else {
        command
    }
}

/// A command can be shown: a long one is not cut inside a character.
pub open spec fn can_shorten(command: Seq<char>) -> bool {
    let bytes = vstd::utf8::encode_utf8(command);
    bytes.len() > 60 ==> vstd::utf8::is_char_boundary(bytes, 59)
}

/// Whether a command can be shown: a long one is not cut inside a character.
pub fn is_showable(command: &str) -> (r: bool)
    ensures
        r == can_shorten(command@),
{
    command.as_bytes().len() <= 60 || command.is_char_boundary(59)
}

/// A command as the list shows it.
pub fn shorten(command: &str) -> (r: String)
    requires
        can_shorten(command@),
    ensures
        r@ == short_command(command@),
{
    if command.as_bytes().len() > 60 {
        let (head, _tail) = command.split_at(59);
        proof {
            assert(vstd::utf8::encode_utf8(head@) =~= vstd::utf8::encode_utf8(command@).take(59));
            vstd::utf8::encode_utf8_decode_utf8(head@);
        }
        let mut out: String = head.to_owned();
        text::push_char(&mut out, '…');
        assert(out@ =~= short_command(command@));
        out
    } else {
        command.to_owned()
    }
}

/// The colour of an entry's dot: green where the command succeeded, else red.
pub fn exit_color(exit_code: i32) -> (r: [u8; 3])
    ensures
        r == if exit_code == 0 {
            [142u8, 192, 124]
        } else {
            [251u8, 73, 52]
        },
{
    if exit_code == 0 {
        [142, 192, 124]
    } else {
        [251, 73, 52]
    }
}

/// The line above the list that counts the entries.
pub fn count_label(shown: usize) -> (r: String)
    ensures
        r@ == number::digits(shown as nat) + " 条记录"@,
{
    let mut out: String = String::new();
    number::push_digits(&mut out, shown as u64);
    out.append(" 条记录");
    assert(out@ =~= number::digits(shown as nat) + " 条记录"@);
    out
}

/// Handles a click on an entry: its command is run again, whole.
pub fn entry_clicked(e: &HistoryItem, actions: &mut Vec<GuiAction>)
    ensures
        final(actions)@ == old(actions)@.push(GuiAction::ExecHistoryCommand(e.command)),
{
    actions.push(GuiAction::ExecHistoryCommand(e.command.clone()));
}

/// Of ASCII commands those pass that hold the search text somewhere, letter for letter but for
/// case; an empty search lets all pass.
pub proof fn law_search_finds_commands(e: HistoryItem, search: Seq<char>)
    requires
        text::plain(e.command@),
        text::plain(search),
    ensures
        passes(e, search) <==> exists|i: int|
            0 <= i && i + search.len() <= e.command@.len() && text::small_letters(
                #[trigger] e.command@.subrange(i, i + search.len()),
            ) == text::small_letters(search),
{
    let command = e.command@;
    let n = search.len() as int;
    let wanted = text::small_letters(search);
    let low = text::small_letters(command);
    assert forall|i: int| 0 <= i && i + n <= command.len() implies low.subrange(i, i + n)
        == text::small_letters(#[trigger] command.subrange(i, i + n)) by {
        assert(low.subrange(i, i + n) =~= text::small_letters(command.subrange(i, i + n)));
    }
    if n == 0 {
        assert(text::small_letters(command.subrange(0, 0 + n)) =~= wanted);
    } else {
        if text::contains_word(low, wanted) {
            let i = choose|i: int| #[trigger] text::word_at(low, wanted, i);
            assert(text::small_letters(command.subrange(i, i + n)) == wanted);
        }
        if exists|i: int|
            0 <= i && i + n <= command.len() && text::small_letters(
                #[trigger] command.subrange(i, i + n),
            ) == wanted {
            let i = choose|i: int|
                0 <= i && i + n <= command.len() && text::small_letters(
                    #[trigger] command.subrange(i, i + n),
                ) == wanted;
            assert(text::word_at(low, wanted, i));
        }
    }
}

proof fn lemma_two_places(n: nat)
    requires
        n < 100,
    ensures
        number::padded(n, 2) == seq![(48 + n / 10) as u8 as char, (48 + n % 10) as u8 as char],
{
    reveal_with_fuel(number::decimal, 3);
    let d = number::digits(n);
    if n < 10 {
        assert(number::padded(n, 2) =~= seq!['0'] + d);
    }
    assert(number::padded(n, 2) =~= seq![
        (48 + n / 10) as u8 as char,
        (48 + n % 10) as u8 as char,
    ]);
}

/// The time beside an entry is the hours and minutes of the time of day of its moment.
pub proof fn law_entry_time(secs: int, i: int)
    requires
        0 <= secs,
        0 <= i < 5,
    ensures
        time_text(secs).len() == 5,
        time_text(secs)[i] == crate::clock::time_of_day(secs)[i] as char,
{
    let (h, m) = ((secs / 3600) % 24, (secs / 60) % 60);
    lemma_two_places(h as nat);
    lemma_two_places(m as nat);
    assert(time_text(secs) =~= seq![
        (48 + h / 10) as u8 as char,
        (48 + h % 10) as u8 as char,
        ':',
        (48 + m / 10) as u8 as char,
        (48 + m % 10) as u8 as char,
    ]);
    let ts = crate::clock::time_of_day(secs);
    assert(ts[0] == (48 + h / 10) as u8 && ts[1] == (48 + h % 10) as u8 && ts[2] == 58);
    assert(ts[3] == (48 + m / 10) as u8 && ts[4] == (48 + m % 10) as u8);
}

} // verus!
