//! Operating system commands: the window title and the OSC 133 prompt markers.

use crate::blocks::BlockTrigger;
use crate::grid::GridView;
use crate::number;
use crate::term::TermState;
use crate::term::TermView;
use vstd::prelude::*;

verus! {

/// The text without its leading semicolons.
pub open spec fn without_semicolons(s: Seq<u8>) -> Seq<u8>
    decreases s.len(),
{
    if s.len() > 0 && s[0] == 59 {
        without_semicolons(s.skip(1))
    } else {
        s
    }
}

/// The exit code that a `D` marker carries: its third parameter, or else what follows the
/// marker in its second.
pub open spec fn exit_code(params: Seq<Seq<u8>>) -> Option<i32> {
    let third = if params.len() > 2 {
        number::read_i32(params[2])
    } else {
        None
    };
    if third.is_some() {
        third
    } else if params[1].len() >= 2 {
        number::read_i32(without_semicolons(params[1].skip(2)))
    } else {
        None
    }
}

impl TermView {
    pub open spec fn with_blocks(self, blocks: crate::blocks::BlocksView) -> TermView {
        self.with_grid(GridView { blocks, ..self.grid })
    }

    /// A prompt marker: `A` starts a block, `B` sets it executing, `D` completes it.
    pub open spec fn marked(self, params: Seq<Seq<u8>>, now: [u8; 8]) -> Option<TermView> {
        let kind = params[1];
        let blocks = self.grid.blocks;
        let row = self.grid.cursor_abs();
        if !vstd::utf8::valid_utf8(kind) || kind.len() == 0 {
            Some(self)
        } else if kind[0] == 65 {
            if blocks.has_room(BlockTrigger::Osc133A, row) {
                Some(self.with_blocks(blocks.started(BlockTrigger::Osc133A, row, now)))
            } else {
                None
            }
        } else if kind[0] == 66 {
            Some(self.with_blocks(blocks.executing(self.grid.screen.col)))
        } else if kind[0] == 68 {
            Some(self.with_blocks(blocks.completed(exit_code(params))))
        } else {
            Some(self)
        }
    }

    /// An operating system command. A bell ends it in the ground state of the parser; the
    /// escape character that starts a string terminator ends it in another.
    pub open spec fn osc(
        self,
        params: Seq<Seq<u8>>,
        bell_terminated: bool,
        now: [u8; 8],
    ) -> Option<TermView> {
        let s = TermView { in_ground: self.in_ground || bell_terminated, ..self };
        if params.len() < 2 {
            Some(s)
        } else if params[0] == seq![48u8] || params[0] == seq![50u8] {
            if vstd::utf8::valid_utf8(params[1]) {
                Some(
                    s.with_grid(
                        GridView { title: vstd::utf8::decode_utf8(params[1]), ..s.grid },
                    ),
                )
            } else {
                Some(s)
            }
        } else if params[0] == seq![49u8, 51u8, 51u8] {
            s.marked(params, now)
        } else {
            Some(s)
        }
    }
}

/// `std::str::from_utf8`. It succeeds on valid UTF-8 and nothing else, and gives the text whose
/// encoding the bytes are.
#[verifier::external_body]
pub(crate) fn decode(bytes: &[u8]) -> (r: Option<&str>)
    ensures
        r.is_some() == vstd::utf8::valid_utf8(bytes@),
        r matches Some(s) ==> s@ == vstd::utf8::decode_utf8(bytes@),
{
    std::str::from_utf8(bytes).ok()
}

/// Skips leading semicolons.
fn skip_semicolons(s: &Vec<u8>, from: usize) -> (r: Vec<u8>)
    requires
        from <= s@.len(),
    ensures
        r@ == without_semicolons(s@.skip(from as int)),
{
    let mut i: usize = from;
    while i < s.len() && s[i] == 59
        invariant
            from <= i <= s@.len(),
            without_semicolons(s@.skip(i as int)) == without_semicolons(s@.skip(from as int)),
        decreases s@.len() - i,
    {
        assert(s@.skip(i as int).skip(1) =~= s@.skip(i + 1));
        assert(s@.skip(i as int)[0] == s@[i as int]);
        i = i + 1;
    }
    let mut out: Vec<u8> = Vec::new();
    let ghost start = i;
    assert(i < s@.len() ==> s@.skip(i as int)[0] == s@[i as int]);
    while i < s.len()
        invariant
            start <= i <= s@.len(),
            out@ == s@.subrange(start as int, i as int),
        decreases s@.len() - i,
    {
        out.push(s[i]);
        i = i + 1;
        assert(out@ =~= s@.subrange(start as int, i as int));
    }
    assert(out@ =~= s@.skip(start as int));
    out
}

/// Whether the bytes are the given ones.
fn is_bytes(s: &Vec<u8>, want: &[u8]) -> (r: bool)
    ensures
        r == (s@ == want@),
{
    if s.len() != want.len() {
        return false;
    }
    let mut i: usize = 0;
    while i < s.len()
        invariant
            i <= s@.len() == want@.len(),
            forall|j: int| 0 <= j < i ==> s@[j] == want@[j],
        decreases s@.len() - i,
    {
        if s[i] != want[i] {
            return false;
        }
        i = i + 1;
    }
    assert(s@ =~= want@);
    true
}

/// Reads the exit code of a `D` marker.
fn parse_exit_code(params: &Vec<Vec<u8>>) -> (r: Option<i32>)
    requires
        params.len() >= 2,
    ensures
        r == exit_code(params@.map_values(|v: Vec<u8>| v@)),
{
    let ghost views = params@.map_values(|v: Vec<u8>| v@);
    assert(views[1] == params[1]@);
    assert(params.len() > 2 ==> views[2] == params[2]@);
    if params.len() > 2 {
        let third: Option<i32> = number::parse_i32(params[2].as_slice());
        if third.is_some() {
            return third;
        }
    }
    if params[1].len() >= 2 {
        let rest: Vec<u8> = skip_semicolons(&params[1], 2);
        number::parse_i32(rest.as_slice())
    } else {
        None
    }
}

impl TermState {
    /// Carries out a prompt marker.
    fn mark(&mut self, params: &Vec<Vec<u8>>, now: [u8; 8]) -> (ok: bool)
        requires
            old(self)@.wf(),
            params.len() >= 2,
        ensures
            ok == old(self)@.marked(params@.map_values(|v: Vec<u8>| v@), now).is_some(),
            ok ==> final(self)@ == old(self)@.marked(
                params@.map_values(|v: Vec<u8>| v@),
                now,
            ).unwrap(),
            ok ==> final(self)@.wf(),
    {
        assert(params@.map_values(|v: Vec<u8>| v@)[1] == params[1]@);
        if decode(params[1].as_slice()).is_none() || params[1].len() == 0 {
            return true;
        }
        let kind: u8 = params[1][0];
        if kind == 65 {
            self.mark_prompt(now)
        } else if kind == 66 {
            self.grid.mark_block_executing();
            true
        } else if kind == 68 {
            let code: Option<i32> = parse_exit_code(params);
            self.grid.mark_block_completed(code);
            true
        } else {
            true
        }
    }

    /// Starts a block at a prompt marker; fails where no block ID is left.
    fn mark_prompt(&mut self, now: [u8; 8]) -> (ok: bool)
        requires
            old(self)@.wf(),
        ensures
            ok == old(self)@.grid.blocks.has_room(
                BlockTrigger::Osc133A,
                old(self)@.grid.cursor_abs(),
            ),
            ok ==> final(self)@ == old(self)@.with_blocks(
                old(self)@.grid.blocks.started(
                    BlockTrigger::Osc133A,
                    old(self)@.grid.cursor_abs(),
                    now,
                ),
            ),
            ok ==> final(self)@.wf(),
    {
        proof {
            self.grid.lemma_fields();
        }
        let row: usize = self.grid.scrollback.len() + self.grid.cursor_row;
        let restarts: bool = match self.grid.block_list.current() {
            Some(b) => b.start_row == row,
            None => false,
        };
        if !restarts && self.grid.block_list.next_id() == u64::MAX {
            return false;
        }
        let _ = self.grid.start_block_at(BlockTrigger::Osc133A, now);
        true
    }

    /// Carries out an operating system command.
    pub fn osc_dispatch(
        &mut self,
        params: &Vec<Vec<u8>>,
        bell_terminated: bool,
        now: [u8; 8],
    ) -> (ok: bool)
        requires
            old(self)@.wf(),
        ensures
            ok == old(self)@.osc(
                params@.map_values(|v: Vec<u8>| v@),
                bell_terminated,
                now,
            ).is_some(),
            ok ==> final(self)@ == old(self)@.osc(
                params@.map_values(|v: Vec<u8>| v@),
                bell_terminated,
                now,
            ).unwrap(),
            ok ==> final(self)@.wf(),
    {
        let ghost views = params@.map_values(|v: Vec<u8>| v@);
        if bell_terminated {
            self.in_ground = true;
        }
        if params.len() < 2 {
            return true;
        }
        assert(views[0] == params[0]@);
        assert(views[1] == params[1]@);
        let zero: [u8; 1] = [48u8];
        let two: [u8; 1] = [50u8];
        let prompt: [u8; 3] = [49u8, 51u8, 51u8];
        assert(zero@ =~= seq![48u8]);
        assert(two@ =~= seq![50u8]);
        assert(prompt@ =~= seq![49u8, 51u8, 51u8]);
        if is_bytes(&params[0], zero.as_slice()) || is_bytes(&params[0], two.as_slice()) {
            if let Some(title) = decode(params[1].as_slice()) {
                self.grid.set_title(title.to_owned());
            }
            true
        } else if is_bytes(&params[0], prompt.as_slice()) {
            self.mark(params, now)
        } else {
            true
        }
    }
}

} // verus!
