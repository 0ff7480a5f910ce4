//! What single control functions do to the terminal, told by the cursor and the cells.

use crate::blocks::{Block, BlockState};
use crate::grid::{GridView, ScreenView};
use crate::laws::sound;
use crate::term::TermView;
use crate::vt::EventView;
use vstd::prelude::*;

verus! {

/// The terminal after the control sequence with the parameters `p`, each a single number.
#[verifier::opaque]
pub open spec fn after_csi(t: TermView, p: Seq<u16>, action: char, now: [u8; 8]) -> Option<TermView> {
    t.performed(
        EventView::Csi(p.map_values(|v: u16| seq![v]), Seq::empty(), false, action),
        now,
    )
}

/// The terminal is as before, but its cursor stands at `row` and `col` and no line break is due.
pub open spec fn cursor_stands(before: TermView, after: Option<TermView>, row: int, col: int) -> bool {
    after == Some(TermView {
        grid: GridView {
            screen: ScreenView { row, col, ..before.grid.screen },
            ..before.grid
        },
        in_ground: true,
        pending_wrap: false,
        ..before
    })
}

pub(crate) proof fn lemma_params(p: Seq<u16>)
    requires
        p.len() <= 32,
    ensures
        crate::term::first_params(p.map_values(|v: u16| seq![v])) == p,
{
    assert(crate::term::first_params(p.map_values(|v: u16| seq![v])) =~= p);
}

pub(crate) proof fn lemma_public(t: TermView, p: Seq<u16>, action: char, now: [u8; 8])
    requires
        p.len() <= 32,
        action != 'J',
    ensures
        after_csi(t, p, action, now) == Some(
            TermView { in_ground: true, pending_wrap: false, ..t }.csi_public(
                p,
                Seq::empty(),
                action,
                now,
            ),
        ),
{
    reveal(after_csi);
    lemma_params(p);
}

#[verifier::rlimit(40)]
proof fn lemma_moves(t: TermView, p: Seq<u16>, action: char, now: [u8; 8])
    requires
        p.len() <= 32,
        action == 'A' || action == 'B' || action == 'C' || action == 'D' || action == 'E'
            || action == 'F' || action == 'G' || action == 'H' || action == 'd' || action == 'e'
            || action == 'f' || action == '`',
    ensures
        cursor_stands(t, after_csi(t, p, action, now), t.cursor_target(p, action).0,
            t.cursor_target(p, action).1,
        ),
{
    lemma_public(t, p, action, now);
    reveal(TermView::csi_public);
    let u = TermView { in_ground: true, pending_wrap: false, ..t };
    assert(u.cursor_target(p, action) == t.cursor_target(p, action));
}

/// Cursor Down by `n` goes as many rows down as there are, at most `n`, and stays in its column.
/// Line Position Relative does the same.
#[verifier::rlimit(40)]
pub proof fn law_cursor_down(t: TermView, n: u16, now: [u8; 8])
    requires
        sound(t),
        n >= 1,
    ensures
        ({
            let (row, col) = (t.grid.screen.row, t.grid.screen.col);
            let low = if row + n < t.grid.rows {
                row + n
            } else {
                t.grid.rows - 1
            };
            &&& cursor_stands(t, after_csi(t, seq![n], 'B', now), low, col)
            &&& cursor_stands(t, after_csi(t, seq![n], 'e', now), low, col)
        }),
{
    reveal(sound);
    lemma_moves(t, seq![n], 'B', now);
    lemma_moves(t, seq![n], 'e', now);
}

/// Cursor Up by `n` goes as many rows up as there are, at most `n`, and stays in its column.
pub proof fn law_cursor_up(t: TermView, n: u16, now: [u8; 8])
    requires
        sound(t),
        n >= 1,
    ensures
        ({
            let (row, col) = (t.grid.screen.row, t.grid.screen.col);
            let high = if n <= row {
                row - n
            } else {
                0
            };
            cursor_stands(t, after_csi(t, seq![n], 'A', now), high, col)
        }),
{
    reveal(sound);
    lemma_moves(t, seq![n], 'A', now);
}

#[verifier::rlimit(40)]
proof fn lemma_there_and_back(t: TermView, n: u16, there: char, back: char, now: [u8; 8])
    requires
        0 <= t.grid.screen.row < t.grid.rows,
        0 <= t.grid.screen.col < t.grid.cols,
        n >= 1,
        ({
            ||| there == 'A' && back == 'B' && n <= t.grid.screen.row
            ||| there == 'B' && back == 'A' && t.grid.screen.row + n < t.grid.rows
            ||| there == 'C' && back == 'D' && t.grid.screen.col + n < t.grid.cols
            ||| there == 'D' && back == 'C' && n <= t.grid.screen.col
        }),
    ensures
        cursor_stands(
            t,
            after_csi(after_csi(t, seq![n], there, now).unwrap(), seq![n], back, now),
            t.grid.screen.row,
            t.grid.screen.col,
        ),
{
    lemma_moves(t, seq![n], there, now);
    let s = after_csi(t, seq![n], there, now).unwrap();
    lemma_moves(s, seq![n], back, now);
}

/// Cursor Up undoes Cursor Down that did not reach the bottom, and Cursor Back undoes Cursor
/// Forward that did not reach the last column; and the other way round.
pub proof fn law_cursor_moves_undo(t: TermView, n: u16, now: [u8; 8])
    requires
        sound(t),
        n >= 1,
    ensures
        ({
            let (row, col) = (t.grid.screen.row, t.grid.screen.col);
            &&& row + n < t.grid.rows ==> cursor_stands(t, after_csi(
                after_csi(t, seq![n], 'B', now).unwrap(),
                seq![n],
                'A',
                now,
            ), row, col)
            &&& n <= row ==> cursor_stands(t, after_csi(
                after_csi(t, seq![n], 'A', now).unwrap(),
                seq![n],
                'B',
                now,
            ), row, col)
            &&& col + n < t.grid.cols ==> cursor_stands(t, after_csi(
                after_csi(t, seq![n], 'C', now).unwrap(),
                seq![n],
                'D',
                now,
            ), row, col)
            &&& n <= col ==> cursor_stands(t, after_csi(
                after_csi(t, seq![n], 'D', now).unwrap(),
                seq![n],
                'C',
                now,
            ), row, col)
        }),
{
    assert(0 <= t.grid.screen.row < t.grid.rows && 0 <= t.grid.screen.col < t.grid.cols) by {
        reveal(sound);
    }
    if n <= t.grid.screen.row {
        lemma_there_and_back(t, n, 'A', 'B', now);
    }
    if t.grid.screen.row + n < t.grid.rows {
        lemma_there_and_back(t, n, 'B', 'A', now);
    }
    if t.grid.screen.col + n < t.grid.cols {
        lemma_there_and_back(t, n, 'C', 'D', now);
    }
    if n <= t.grid.screen.col {
        lemma_there_and_back(t, n, 'D', 'C', now);
    }
}

/// Cursor Forward by `n` goes as many columns to the right as there are, at most `n`, Cursor Back
/// as many to the left; both stay in their row.
#[verifier::rlimit(40)]
pub proof fn law_cursor_sideways(t: TermView, n: u16, now: [u8; 8])
    requires
        sound(t),
        n >= 1,
    ensures
        ({
            let (row, col) = (t.grid.screen.row, t.grid.screen.col);
            let right = if col + n < t.grid.cols {
                col + n
            } else {
                t.grid.cols - 1
            };
            let left = if n <= col {
                col - n
            } else {
                0
            };
            &&& cursor_stands(t, after_csi(t, seq![n], 'C', now), row, right)
            &&& cursor_stands(t, after_csi(t, seq![n], 'D', now), row, left)
        }),
{
    reveal(sound);
    lemma_moves(t, seq![n], 'C', now);
    lemma_moves(t, seq![n], 'D', now);
}

/// Next Line and Previous Line go down and up like the plain moves, to the first column.
#[verifier::rlimit(40)]
pub proof fn law_cursor_to_line_start(t: TermView, n: u16, now: [u8; 8])
    requires
        sound(t),
        n >= 1,
    ensures
        ({
            let row = t.grid.screen.row;
            let low = if row + n < t.grid.rows {
                row + n
            } else {
                t.grid.rows - 1
            };
            let high = if n <= row {
                row - n
            } else {
                0
            };
            &&& cursor_stands(t, after_csi(t, seq![n], 'E', now), low, 0)
            &&& cursor_stands(t, after_csi(t, seq![n], 'F', now), high, 0)
        }),
{
    reveal(sound);
    lemma_moves(t, seq![n], 'E', now);
    lemma_moves(t, seq![n], 'F', now);
}

/// A position is addressed from 1 on: every cell of the screen can be reached, and what lies
/// outside leads to the nearest cell. In origin mode rows count from the top margin and end at
/// the bottom one.
#[verifier::rlimit(40)]
pub proof fn law_cursor_addressed(t: TermView, row: u16, col: u16, now: [u8; 8])
    requires
        sound(t),
        row >= 1,
        col >= 1,
    ensures
        ({
            let g = t.grid;
            let (top, bottom) = if g.origin_mode {
                (g.screen.top, g.screen.bottom)
            } else {
                (0, g.rows - 1)
            };
            let r = if top + (row - 1) <= bottom {
                top + (row - 1)
            } else {
                bottom
            };
            let c = if col <= g.cols {
                col - 1
            } else {
                g.cols - 1
            };
            &&& cursor_stands(t, after_csi(t, seq![row, col], 'H', now), r, c)
            &&& cursor_stands(t, after_csi(t, seq![row, col], 'f', now), r, c)
            &&& cursor_stands(t, after_csi(t, seq![row], 'H', now), r, 0)
            &&& cursor_stands(t, after_csi(t, seq![row], 'd', now), r,
                g.screen.col,
            )
            &&& cursor_stands(t, after_csi(t, seq![col], 'G', now), g.screen.row,
                c,
            )
            &&& cursor_stands(t, after_csi(t, seq![col], '`', now), g.screen.row,
                c,
            )
        }),
{
    reveal(sound);
    lemma_moves(t, seq![row, col], 'H', now);
    lemma_moves(t, seq![row, col], 'f', now);
    lemma_moves(t, seq![row], 'H', now);
    lemma_moves(t, seq![row], 'd', now);
    lemma_moves(t, seq![col], 'G', now);
    lemma_moves(t, seq![col], '`', now);
}

/// Counts and positions that are missing or zero are ones.
#[verifier::rlimit(40)]
pub proof fn law_missing_count_is_one(t: TermView, action: char, now: [u8; 8])
    requires
        action == 'A' || action == 'B' || action == 'C' || action == 'D' || action == 'E'
            || action == 'F' || action == 'G' || action == 'H' || action == 'd' || action == 'e'
            || action == 'f' || action == '`' || action == 'L' || action == 'M' || action == '@'
            || action == 'P' || action == 'X' || action == 'S' || action == 'T',
    ensures
        after_csi(t, Seq::empty(), action, now) == after_csi(t, seq![1], action, now),
        after_csi(t, seq![0], action, now) == after_csi(t, seq![1], action, now),
{
    lemma_public(t, Seq::empty(), action, now);
    lemma_public(t, seq![0], action, now);
    lemma_public(t, seq![1], action, now);
    reveal(TermView::csi_public);
}

/// The terminal after an OSC 133 marker that the bell ends, whose second parameter is `kind`.
pub open spec fn after_mark(t: TermView, kind: Seq<u8>, now: [u8; 8]) -> Option<TermView> {
    t.performed(EventView::Osc(seq![seq![49u8, 51u8, 51u8], kind], true), now)
}

/// The terminal is as before, but its blocks are these.
pub open spec fn blocks_stand(before: TermView, after: Option<TermView>, blocks: Seq<Block>) -> bool {
    after matches Some(s) && s == TermView {
        grid: GridView { blocks: s.grid.blocks, ..before.grid },
        in_ground: true,
        ..before
    } && s.grid.blocks.blocks == blocks
}

/// The mark that a command is done changes the state and the exit code of the last block and
/// nothing else: every block starts where it did, its command begins in the column where it did,
/// and the command text of every block is what it was.
#[verifier::rlimit(40)]
pub proof fn law_completing_keeps_command(t: TermView, kind: Seq<u8>, now: [u8; 8], i: int)
    requires
        vstd::utf8::valid_utf8(kind),
        kind.len() > 0,
        kind[0] == 68,
        0 <= i < t.grid.blocks.blocks.len(),
    ensures
        after_mark(t, kind, now) matches Some(s) && {
            let (old_blocks, blocks) = (t.grid.blocks.blocks, s.grid.blocks.blocks);
            let b = blocks[i];
            &&& blocks.len() == old_blocks.len()
            &&& blocks_stand(t, Some(s), blocks)
            &&& s.grid.blocks.next_id == t.grid.blocks.next_id
            &&& s.grid.blocks.has_osc133 == t.grid.blocks.has_osc133
            &&& b == Block { state: b.state, exit_code: b.exit_code, ..old_blocks[i] }
            &&& i + 1 < blocks.len() ==> b == old_blocks[i]
            &&& i + 1 == blocks.len() ==> b.state == BlockState::Completed
            &&& s.grid.command_text(i) == t.grid.command_text(i)
        },
{
    let s = after_mark(t, kind, now).unwrap();
    let b = t.grid.blocks.blocks[i];
    let c = s.grid.blocks.blocks[i];
    assert(s.grid.screen == t.grid.screen);
    let rows = t.grid.blocks.end_row(i, t.grid.screen.total()) - b.start_row;
    assert(s.grid.blocks.end_row(i, s.grid.screen.total()) == t.grid.blocks.end_row(
        i,
        t.grid.screen.total(),
    ));
    lemma_same_command_lines(t.grid, s.grid, b, c, 0, rows);
}

/// The command text of a block comes from the screen, its start and its command's column alone.
proof fn lemma_same_command_lines(g: GridView, h: GridView, b: Block, c: Block, i: int, n: int)
    requires
        g.screen == h.screen,
        b.start_row == c.start_row,
        b.cmd_col == c.cmd_col,
    ensures
        g.command_lines(b, i, n) == h.command_lines(c, i, n),
    decreases n - i,
{
    if i < n {
        lemma_same_command_lines(g, h, b, c, i + 1, n);
        assert(g.command_line(b, i) == h.command_line(c, i));
    }
}

/// The exit code that completes a block is the number that the mark carries.
pub proof fn law_exit_code_read(t: TermView, kind: Seq<u8>, n: nat, now: [u8; 8])
    requires
        t.grid.blocks.blocks.len() > 0,
        n <= i32::MAX,
        vstd::utf8::valid_utf8(kind),
        kind.len() > 0,
        kind[0] == 68,
    ensures
        t.performed(
            EventView::Osc(
                seq![seq![49u8, 51u8, 51u8], kind, crate::number::decimal(n)],
                true,
            ),
            now,
        ) matches Some(s) && s.grid.blocks.blocks.last().exit_code == Some(n as i32),
{
    crate::number::law_decimal_reads_back(n);
}

/// The mark of a prompt starts a block in the cursor's row: the block that was last is done and
/// otherwise as it was, those before it stay, and a new one stands behind them with an ID of its
/// own; in the row where the last block starts, that one starts over under its ID.
#[verifier::rlimit(40)]
pub proof fn law_prompt_starts_block(t: TermView, kind: Seq<u8>, now: [u8; 8])
    requires
        sound(t),
        vstd::utf8::valid_utf8(kind),
        kind.len() > 0,
        kind[0] == 65,
        t.grid.blocks.next_id < u64::MAX,
    ensures
        after_mark(t, kind, now) matches Some(s) && {
            let (old_blocks, blocks) = (t.grid.blocks.blocks, s.grid.blocks.blocks);
            let row = t.grid.screen.history.len() + t.grid.screen.row;
            let n = old_blocks.len();
            let restarts = n > 0 && old_blocks.last().start_row == row;
            let b = blocks.last();
            &&& blocks_stand(t, Some(s), blocks)
            &&& s.grid.blocks.has_osc133
            &&& blocks.len() == if restarts {
                n
            } else {
                n + 1
            }
            &&& b.start_row == row
            &&& b.state == BlockState::Prompt
            &&& b.created_at == now
            &&& b.exit_code == None::<i32>
            &&& b.cmd_col == None::<usize>
            &&& restarts ==> b.id == old_blocks.last().id
            &&& !restarts ==> b.id == t.grid.blocks.next_id && s.grid.blocks.next_id
                == t.grid.blocks.next_id + 1
            &&& forall|i: int| 0 <= i < n - 1 ==> #[trigger] blocks[i] == old_blocks[i]
            &&& n > 0 && !restarts ==> blocks[n - 1] == Block {
                state: BlockState::Completed,
                ..old_blocks[n - 1]
            }
        },
{
    reveal(sound);
}

/// The mark of a command sets the block at its prompt executing and notes the cursor's column as
/// the one where the command begins; a block that is past its prompt stays as it is.
#[verifier::rlimit(40)]
pub proof fn law_command_notes_column(t: TermView, kind: Seq<u8>, now: [u8; 8])
    requires
        sound(t),
        vstd::utf8::valid_utf8(kind),
        kind.len() > 0,
        kind[0] == 66,
    ensures
        after_mark(t, kind, now) matches Some(s) && {
            let (old_blocks, blocks) = (t.grid.blocks.blocks, s.grid.blocks.blocks);
            let n = old_blocks.len();
            let b = blocks.last();
            let prompts = n > 0 && old_blocks.last().state == BlockState::Prompt;
            &&& blocks_stand(t, Some(s), blocks)
            &&& blocks.len() == n
            &&& !prompts ==> blocks == old_blocks
            &&& prompts ==> b.cmd_col is Some && b.cmd_col.unwrap() == t.grid.screen.col
            &&& prompts ==> b == Block {
                state: BlockState::Executing,
                cmd_col: b.cmd_col,
                ..old_blocks.last()
            }
            &&& forall|i: int| 0 <= i < n - 1 ==> #[trigger] blocks[i] == old_blocks[i]
        },
{
    reveal(sound);
}

/// Other marks than those of a prompt, a command and its end, and other commands than the title's
/// and the marks', change nothing.
#[verifier::rlimit(40)]
pub proof fn law_other_commands_ignored(t: TermView, number: Seq<u8>, kind: Seq<u8>, now: [u8; 8])
    requires
        t.in_ground,
        ({
            ||| number == seq![49u8, 51u8, 51u8] && kind.len() > 0 && kind[0] != 65 && kind[0] != 66
                && kind[0] != 68
            ||| number.len() != 1 && number.len() != 3
        }),
    ensures
        t.performed(EventView::Osc(seq![number, kind], true), now) == Some(t),
{
    assert(seq![48u8].len() == 1 && seq![50u8].len() == 1 && seq![49u8, 51u8, 51u8].len() == 3);
}

/// A control sequence with a final character that means nothing changes nothing but that no line
/// break is due.
#[verifier::rlimit(40)]
pub proof fn law_other_sequences_ignored(t: TermView, p: Seq<u16>, action: char, now: [u8; 8])
    requires
        p.len() <= 32,
        !('A' <= action <= 'H') && action != 'J' && action != 'K' && action != 'L' && action != 'M'
            && action != 'P' && action != 'S' && action != 'T' && action != 'X' && action != '@'
            && action != '`' && !('c' <= action <= 'f') && action != 'm' && action != 'n' && action
            != 'q' && action != 'r' && action != 's' && action != 'u',
    ensures
        cursor_stands(t, after_csi(t, p, action, now), t.grid.screen.row, t.grid.screen.col),
{
    lemma_public(t, p, action, now);
    reveal(TermView::csi_public);
}

} // verus!
