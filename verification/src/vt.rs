//! Terminal input: bytes go through the `vte` escape-sequence parser, and the events that it
//! recognises change the terminal.

use crate::clock;
use crate::grid::{Grid, GridView};
use crate::term::TermState;
use crate::term::TermView;
use crate::width;
use vstd::prelude::*;

verus! {

/// Something that the escape-sequence parser recognised.
#[derive(Debug)]
pub enum VtEvent {
    /// A character to print.
    Print(char),
    /// A C0 or C1 control.
    Execute(u8),
    /// A control sequence.
    Csi { params: Vec<Vec<u16>>, intermediates: Vec<u8>, ignore: bool, action: char },
    /// An escape sequence.
    Esc { intermediates: Vec<u8>, ignore: bool, byte: u8 },
    /// An operating system command.
    Osc { strings: Vec<Vec<u8>>, bell_terminated: bool },
    /// The start of a device control string.
    Hook { params: Vec<Vec<u16>>, intermediates: Vec<u8>, ignore: bool, action: char },
    /// A byte of a device control string.
    Put(u8),
    /// The end of a device control string.
    Unhook,
}

/// What an event says.
pub ghost enum EventView {
    Print(char),
    Execute(u8),
    Csi(Seq<Seq<u16>>, Seq<u8>, bool, char),
    Esc(Seq<u8>, bool, u8),
    Osc(Seq<Seq<u8>>, bool),
    Hook(Seq<Seq<u16>>, Seq<u8>, bool, char),
    Put(u8),
    Unhook,
}

impl View for VtEvent {
    type V = EventView;

    open spec fn view(&self) -> EventView {
        match *self {
            VtEvent::Print(c) => EventView::Print(c),
            VtEvent::Execute(b) => EventView::Execute(b),
            VtEvent::Csi { params, intermediates, ignore, action } => EventView::Csi(
                params@.map_values(|v: Vec<u16>| v@),
                intermediates@,
                ignore,
                action,
            ),
            VtEvent::Esc { intermediates, ignore, byte } => EventView::Esc(
                intermediates@,
                ignore,
                byte,
            ),
            VtEvent::Osc { strings, bell_terminated } => EventView::Osc(
                strings@.map_values(|v: Vec<u8>| v@),
                bell_terminated,
            ),
            VtEvent::Hook { params, intermediates, ignore, action } => EventView::Hook(
                params@.map_values(|v: Vec<u16>| v@),
                intermediates@,
                ignore,
                action,
            ),
            VtEvent::Put(b) => EventView::Put(b),
            VtEvent::Unhook => EventView::Unhook,
        }
    }
}

/// The events in order.
pub open spec fn event_views(events: Seq<VtEvent>) -> Seq<EventView> {
    events.map_values(|e: VtEvent| e@)
}

impl TermView {
    /// The terminal after an event.
    pub open spec fn performed(self, e: EventView, now: [u8; 8]) -> Option<TermView> {
        match e {
            EventView::Print(c) => Some(self.printed(c, width::printed_width(c), now)),
            EventView::Execute(b) => Some(self.executed(b, now)),
            EventView::Csi(params, intermediates, _, action) => self.csi(
                params,
                intermediates,
                action,
                now,
            ),
            EventView::Esc(intermediates, _, byte) => Some(self.esc(intermediates, byte, now)),
            EventView::Osc(params, bell_terminated) => self.osc(params, bell_terminated, now),
            EventView::Hook(_, _, _, _) => Some(TermView { in_ground: false, ..self }),
            EventView::Put(_) | EventView::Unhook => Some(self),
        }
    }

    /// The terminal after events, one after the other.
    pub open spec fn performed_all(self, events: Seq<EventView>, now: [u8; 8]) -> Option<TermView>
        decreases events.len(),
    {
        if events.len() == 0 {
            Some(self)
        } else {
            match self.performed(events[0], now) {
                Some(t) => t.performed_all(events.skip(1), now),
                None => None,
            }
        }
    }
}

impl TermState {
    /// The device control string starts: the parser has left the ground state.
    pub fn hook(&mut self)
        ensures
            final(self)@ == (TermView { in_ground: false, ..old(self)@ }),
    {
        self.in_ground = false;
    }

    /// Carries out an event.
    pub fn perform(&mut self, e: &VtEvent, now: [u8; 8]) -> (ok: bool)
        requires
            old(self)@.wf(),
        ensures
            ok == old(self)@.performed(e@, now).is_some(),
            ok ==> final(self)@ == old(self)@.performed(e@, now).unwrap(),
            ok ==> final(self)@.wf(),
    {
        match e {
            VtEvent::Print(c) => {
                let w: usize = width::char_width(*c);
                self.print(*c, w, now);
                true
            },
            VtEvent::Execute(b) => {
                self.execute(*b, now);
                true
            },
            VtEvent::Csi { params, intermediates, ignore: _, action } => self.csi_dispatch(
                params,
                intermediates.as_slice(),
                *action,
                now,
            ),
            VtEvent::Esc { intermediates, ignore: _, byte } => {
                self.esc_dispatch(intermediates.as_slice(), *byte, now);
                true
            },
            VtEvent::Osc { strings, bell_terminated } => self.osc_dispatch(
                strings,
                *bell_terminated,
                now,
            ),
            VtEvent::Hook { params: _, intermediates: _, ignore: _, action: _ } => {
                self.hook();
                true
            },
            VtEvent::Put(_) | VtEvent::Unhook => true,
        }
    }

    /// Carries out events, one after the other.
    pub fn perform_all(&mut self, events: &Vec<VtEvent>, now: [u8; 8]) -> (ok: bool)
        requires
            old(self)@.wf(),
        ensures
            ok == old(self)@.performed_all(event_views(events@), now).is_some(),
            ok ==> final(self)@ == old(self)@.performed_all(event_views(events@), now).unwrap(),
            ok ==> final(self)@.wf(),
    {
        let ghost all = event_views(events@);
        let mut i: usize = 0;
        assert(all.skip(0) =~= all);
        while i < events.len()
            invariant
                i <= events@.len(),
                all == event_views(events@),
                self@.wf(),
                self@.performed_all(all.skip(i as int), now) == old(self)@.performed_all(all, now),
            decreases events@.len() - i,
        {
            assert(all.skip(i as int)[0] == events@[i as int]@);
            assert(all.skip(i as int).skip(1) =~= all.skip(i + 1));
            if !self.perform(&events[i], now) {
                return false;
            }
            i = i + 1;
        }
        assert(all.skip(i as int) =~= Seq::empty());
        true
    }
}

/// Records the actions of the escape-sequence parser as events.
pub struct EventSink {
    pub events: Vec<VtEvent>,
}

impl View for EventSink {
    type V = Seq<EventView>;

    open spec fn view(&self) -> Seq<EventView> {
        event_views(self.events@)
    }
}

impl EventSink {
    fn record(&mut self, e: VtEvent)
        ensures
            final(self)@ == old(self)@.push(e@),
    {
        self.events.push(e);
        assert(self@ =~= old(self)@.push(e@));
    }
}

/// `vte::Params`, the parameters of a control sequence.
#[verifier::external_type_specification]
#[verifier::external_body]
pub struct ExVteParams(vte::Params);

/// The parameters that a `vte::Params` holds, each with its subparameters.
pub uninterp spec fn params_of(params: vte::Params) -> Seq<Seq<u16>>;

/// `vte::Params::iter`, copied into vectors: it gives each parameter as the slice of its
/// subparameters.
#[verifier::external_body]
fn copy_params(params: &vte::Params) -> (r: Vec<Vec<u16>>)
    ensures
        r@.map_values(|v: Vec<u16>| v@) == params_of(*params),
{
    params.iter().map(|sub| sub.to_vec()).collect()
}

/// The slices as vectors.
fn copy_slices(params: &[&[u8]]) -> (r: Vec<Vec<u8>>)
    ensures
        r@.map_values(|v: Vec<u8>| v@) == params@.map_values(|s: &[u8]| s@),
{
    let mut out: Vec<Vec<u8>> = Vec::new();
    let mut i: usize = 0;
    while i < params.len()
        invariant
            i <= params@.len(),
            out@.map_values(|v: Vec<u8>| v@) == params@.map_values(|s: &[u8]| s@).take(i as int),
        decreases params@.len() - i,
    {
        let ghost before = out@.map_values(|v: Vec<u8>| v@);
        let copied: Vec<u8> = copy_bytes(params[i]);
        out.push(copied);
        assert(out@.map_values(|v: Vec<u8>| v@) =~= before.push(copied@));
        i = i + 1;
        assert(out@.map_values(|v: Vec<u8>| v@) =~= params@.map_values(|s: &[u8]| s@).take(
            i as int,
        ));
    }
    assert(out@.map_values(|v: Vec<u8>| v@) =~= params@.map_values(|s: &[u8]| s@));
    out
}

/// The bytes as a vector.
fn copy_bytes(bytes: &[u8]) -> (r: Vec<u8>)
    ensures
        r@ == bytes@,
{
    let mut out: Vec<u8> = Vec::new();
    let mut i: usize = 0;
    while i < bytes.len()
        invariant
            i <= bytes@.len(),
            out@ == bytes@.take(i as int),
        decreases bytes@.len() - i,
    {
        out.push(bytes[i]);
        i = i + 1;
        assert(out@ =~= bytes@.take(i as int));
    }
    assert(out@ =~= bytes@);
    out
}

impl vte::Perform for EventSink {
    fn print(&mut self, c: char)
        ensures
            final(self)@ == old(self)@.push(EventView::Print(c)),
    {
        self.record(VtEvent::Print(c));
    }

    fn execute(&mut self, byte: u8)
        ensures
            final(self)@ == old(self)@.push(EventView::Execute(byte)),
    {
        self.record(VtEvent::Execute(byte));
    }

    fn hook(&mut self, params: &vte::Params, intermediates: &[u8], ignore: bool, action: char)
        ensures
            final(self)@ == old(self)@.push(
                EventView::Hook(params_of(*params), intermediates@, ignore, action),
            ),
    {
        let params: Vec<Vec<u16>> = copy_params(params);
        let intermediates: Vec<u8> = copy_bytes(intermediates);
        self.record(VtEvent::Hook { params, intermediates, ignore, action });
    }

    fn put(&mut self, byte: u8)
        ensures
            final(self)@ == old(self)@.push(EventView::Put(byte)),
    {
        self.record(VtEvent::Put(byte));
    }

    fn unhook(&mut self)
        ensures
            final(self)@ == old(self)@.push(EventView::Unhook),
    {
        self.record(VtEvent::Unhook);
    }

    fn osc_dispatch(&mut self, params: &[&[u8]], bell_terminated: bool)
        ensures
            final(self)@ == old(self)@.push(
                EventView::Osc(params@.map_values(|s: &[u8]| s@), bell_terminated),
            ),
    {
        let strings: Vec<Vec<u8>> = copy_slices(params);
        self.record(VtEvent::Osc { strings, bell_terminated });
    }

    fn csi_dispatch(
        &mut self,
        params: &vte::Params,
        intermediates: &[u8],
        ignore: bool,
        action: char,
    )
        ensures
            final(self)@ == old(self)@.push(
                EventView::Csi(params_of(*params), intermediates@, ignore, action),
            ),
    {
        let params: Vec<Vec<u16>> = copy_params(params);
        let intermediates: Vec<u8> = copy_bytes(intermediates);
        self.record(VtEvent::Csi { params, intermediates, ignore, action });
    }

    fn esc_dispatch(&mut self, intermediates: &[u8], ignore: bool, byte: u8)
        ensures
            final(self)@ == old(self)@.push(EventView::Esc(intermediates@, ignore, byte)),
    {
        let intermediates: Vec<u8> = copy_bytes(intermediates);
        self.record(VtEvent::Esc { intermediates, ignore, byte });
    }
}

/// `vte::Parser`, the escape-sequence state machine.
#[verifier::external_type_specification]
#[verifier::external_body]
pub struct ExVteParser<const OSC_RAW_BUF_SIZE: usize>(vte::Parser<OSC_RAW_BUF_SIZE>);

/// The bytes that a parser has been given since it was made.
pub uninterp spec fn fed(parser: vte::Parser) -> Seq<u8>;

/// The actions that a parser takes on `byte` when it has been given the bytes `before`.
pub uninterp spec fn vte_events(before: Seq<u8>, byte: u8) -> Seq<EventView>;

/// `vte::Parser::new`: a parser that has been given nothing.
#[verifier::external_body]
fn new_parser() -> (r: vte::Parser)
    ensures
        fed(r) == Seq::<u8>::empty(),
{
    vte::Parser::new()
}

/// `vte::Parser::advance` with a sink that records the actions. The state machine is
/// deterministic, so what it does on a byte is a function of the bytes before it, which goes by
/// the name `vte_events`.
#[verifier::external_body]
fn advance(parser: &mut vte::Parser, byte: u8) -> (events: Vec<VtEvent>)
    ensures
        fed(*final(parser)) == fed(*old(parser)).push(byte),
        event_views(events@) == vte_events(fed(*old(parser)), byte),
{
    let mut sink = EventSink { events: Vec::new() };
    parser.advance(&mut sink, byte);
    sink.events
}

/// What a terminal with its input parser is: the bytes the parser has been given, and the
/// terminal.
pub ghost struct InputView {
    pub fed: Seq<u8>,
    pub term: TermView,
}

/// A printable ASCII byte.
pub open spec fn printable(b: u8) -> bool {
    0x20 <= b < 0x7f
}

impl InputView {
    /// After one byte. Printable ASCII in the ground state is printed without the parser.
    #[verifier::opaque]
    pub open spec fn after_byte(self, b: u8, now: [u8; 8]) -> Option<InputView> {
        if self.term.in_ground && printable(b) {
            Some(InputView { term: self.term.placed(b as char, 1, now), ..self })
        } else {
            let term = TermView { in_ground: false, ..self.term };
            match term.performed_all(vte_events(self.fed, b), now) {
                Some(term) => Some(InputView { fed: self.fed.push(b), term }),
                None => None,
            }
        }
    }

    /// After a sequence of bytes.
    pub open spec fn after(self, data: Seq<u8>, now: [u8; 8]) -> Option<InputView>
        decreases data.len(),
    {
        if data.len() == 0 {
            Some(self)
        } else {
            match self.after_byte(data[0], now) {
                Some(s) => s.after(data.skip(1), now),
                None => None,
            }
        }
    }

    /// After a batch of bytes that came at the time `now`, which its rows are stamped with.
    pub open spec fn after_batch(self, data: Seq<u8>, now: [u8; 8]) -> Option<InputView> {
        InputView {
            term: self.term.with_grid(GridView { batch: now, ..self.term.grid }),
            ..self
        }.after(data, now)
    }
}

/// Feeding bytes in two pieces is feeding them in one.
pub proof fn law_input_pieces(s: InputView, a: Seq<u8>, b: Seq<u8>, now: [u8; 8])
    ensures
        s.after(a + b, now) == match s.after(a, now) {
            Some(t) => t.after(b, now),
            None => None,
        },
    decreases a.len(),
{
    if a.len() == 0 {
        assert(a + b =~= b);
    } else {
        assert((a + b)[0] == a[0]);
        assert((a + b).skip(1) =~= a.skip(1) + b);
        match s.after_byte(a[0], now) {
            Some(t) => law_input_pieces(t, a.skip(1), b, now),
            None => {},
        }
    }
}

/// Placing a character does not change what is believed of the parser's state.
proof fn lemma_placed_ground(t: TermView, c: char, width: int, now: [u8; 8])
    ensures
        t.placed(c, width, now).in_ground == t.in_ground,
{
}

/// A run of printable bytes in the ground state is printed.
proof fn lemma_after_run(s: InputView, run: Seq<u8>, now: [u8; 8])
    requires
        s.term.in_ground,
        forall|i: int| 0 <= i < run.len() ==> printable(#[trigger] run[i]),
    ensures
        s.after(run, now) == Some(InputView { term: s.term.run_placed(run, now), ..s }),
    decreases run.len(),
{
    reveal(InputView::after_byte);
    if run.len() > 0 {
        assert(printable(run[0]));
        lemma_placed_ground(s.term, run[0] as char, 1, now);
        let term = s.term.placed(run[0] as char, 1, now);
        lemma_after_run(InputView { term, ..s }, run.skip(1), now);
    }
}

/// The outer parser that owns the escape-sequence state machine (persisted across calls).
pub struct TerminalParser {
    vte_parser: vte::Parser,
    pub state: TermState,
}

impl View for TerminalParser {
    type V = InputView;

    closed spec fn view(&self) -> InputView {
        InputView { fed: fed(self.vte_parser), term: self.state@ }
    }
}

impl TerminalParser {
    pub fn new(cols: usize, rows: usize) -> (r: TerminalParser)
        requires
            cols <= crate::grid::size_limit(),
            rows <= crate::grid::size_limit(),
        ensures
            r@ == (InputView {
                fed: Seq::empty(),
                term: TermView::fresh(cols as int, rows as int),
            }),
            cols > 0 && rows > 0 ==> r@.term.wf(),
    {
        TerminalParser { vte_parser: new_parser(), state: TermState::new(cols, rows) }
    }

    /// Feed raw bytes from PTY/SSH into the terminal. Fails where a control function needs a
    /// block ID when none is left; the bytes after it are then not looked at.
    pub fn process(&mut self, data: &[u8]) -> (ok: bool)
        requires
            old(self)@.term.wf(),
        ensures
            exists|now: [u8; 8]|
                {
                    &&& clock::is_time(now)
                    &&& ok == (#[trigger] old(self)@.after_batch(data@, now)).is_some()
                    &&& ok ==> final(self)@ == old(self)@.after_batch(data@, now).unwrap()
                },
            ok ==> final(self)@.term.wf(),
    {
        let now: [u8; 8] = clock::now_timestamp();
        self.process_at(data, now)
    }

    /// Feed raw bytes that came at the time `now`.
    pub fn process_at(&mut self, data: &[u8], now: [u8; 8]) -> (ok: bool)
        requires
            old(self)@.term.wf(),
        ensures
            ok == old(self)@.after_batch(data@, now).is_some(),
            ok ==> final(self)@ == old(self)@.after_batch(data@, now).unwrap(),
            ok ==> final(self)@.term.wf(),
    {
        self.state.grid.set_batch(now);
        let ghost want = self@.after(data@, now);
        let mut i: usize = 0;
        assert(data@.skip(0) =~= data@);
        while i < data.len()
            invariant
                i <= data@.len(),
                self@.term.wf(),
                self@.after(data@.skip(i as int), now) == want,
                want == old(self)@.after_batch(data@, now),
            decreases data@.len() - i,
        {
            let end: usize = if self.state.in_ground {
                printable_end(data, i)
            } else {
                i
            };
            if end > i {
                proof {
                    let run = data@.subrange(i as int, end as int);
                    let rest = data@.skip(end as int);
                    assert(run + rest =~= data@.skip(i as int));
                    law_input_pieces(self@, run, rest, now);
                }
                self.feed_run(vstd::slice::slice_subrange(data, i, end), now);
                i = end;
            } else {
                assert(data@.skip(i as int).skip(1) =~= data@.skip(i + 1));
                assert(data@.skip(i as int)[0] == data@[i as int]);
                if !self.feed_byte(data[i], now) {
                    return false;
                }
                i = i + 1;
            }
        }
        assert(data@.skip(i as int) =~= Seq::empty());
        true
    }

    /// Prints a run of printable bytes in the ground state.
    fn feed_run(&mut self, run: &[u8], now: [u8; 8])
        requires
            old(self)@.term.wf(),
            old(self)@.term.in_ground,
            forall|i: int| 0 <= i < run@.len() ==> printable(#[trigger] run@[i]),
        ensures
            old(self)@.after(run@, now) == Some(final(self)@),
            final(self)@.term.wf(),
    {
        proof {
            lemma_after_run(self@, run@, now);
        }
        self.state.print_ascii_run(run, now);
    }

    /// Hands a byte to the escape-sequence parser and carries out what it recognises.
    fn feed_byte(&mut self, byte: u8, now: [u8; 8]) -> (ok: bool)
        requires
            old(self)@.term.wf(),
            !(old(self)@.term.in_ground && printable(byte)),
        ensures
            ok == old(self)@.after_byte(byte, now).is_some(),
            ok ==> final(self)@ == old(self)@.after_byte(byte, now).unwrap(),
            ok ==> final(self)@.term.wf(),
    {
        proof {
            reveal(InputView::after_byte);
        }
        self.state.in_ground = false;
        let events: Vec<VtEvent> = advance(&mut self.vte_parser, byte);
        self.state.perform_all(&events, now)
    }

    /// Borrow the grid for reading.
    pub fn grid(&self) -> (r: &Grid)
        ensures
            r@ == self@.term.grid,
    {
        &self.state.grid
    }

    /// Mutably borrow the grid (e.g. for resize).
    pub fn grid_mut(&mut self) -> (r: &mut Grid)
        ensures
            r@ == old(self)@.term.grid,
            final(self)@ == (InputView {
                term: old(self)@.term.with_grid(final(r)@),
                ..old(self)@
            }),
    {
        &mut self.state.grid
    }
}

/// The end of the run of printable ASCII bytes that starts at `from`.
fn printable_end(data: &[u8], from: usize) -> (r: usize)
    requires
        from <= data@.len(),
    ensures
        from <= r <= data@.len(),
        forall|i: int| from <= i < r ==> printable(#[trigger] data@[i]),
        r < data@.len() ==> !printable(data@[r as int]),
{
    let mut i: usize = from;
    while i < data.len() && data[i] >= 0x20 && data[i] < 0x7f
        invariant
            from <= i <= data@.len(),
            forall|j: int| from <= j < i ==> printable(#[trigger] data@[j]),
        decreases data@.len() - i,
    {
        i = i + 1;
    }
    i
}

/// Printable ASCII that comes while no escape sequence is under way is printed, character by
/// character, whatever came before.
pub proof fn law_plain_bytes_print(s: InputView, data: Seq<u8>, now: [u8; 8])
    requires
        s.term.in_ground,
        forall|i: int| 0 <= i < data.len() ==> 32 <= #[trigger] data[i] <= 126,
    ensures
        s.after(data, now) == Some(InputView { term: s.term.run_placed(data, now), ..s }),
    decreases data.len(),
{
    reveal(InputView::after_byte);
    if data.len() > 0 {
        let t = s.term.placed(data[0] as char, 1, now);
        assert(32 <= data[0] <= 126);
        assert(t.in_ground);
        assert forall|i: int| 0 <= i < data.skip(1).len() implies 32 <= #[trigger] data.skip(1)[i]
            <= 126 by {
            assert(data.skip(1)[i] == data[i + 1]);
        }
        law_plain_bytes_print(InputView { term: t, ..s }, data.skip(1), now);
    }
}

} // verus!
