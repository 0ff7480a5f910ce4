//! The find bar: when it searches, and what its keys and buttons ask for.

use crate::gui::{GuiAction, Panels};
use crate::number;
use vstd::prelude::*;
use vstd::string::StringExecFns;

verus! {

/// The state of the find bar.
#[derive(Debug)]
pub struct FindBar {
    pub query: String,
    pub case_sensitive: bool,
    pub whole_word: bool,
    pub use_regex: bool,
    pub match_count: usize,
    pub current_index: usize,
    /// The query that was searched last; empty to search again.
    pub last_query: String,
}

/// What the find bar is, with texts as sequences of characters.
pub ghost struct FindView {
    pub query: Seq<char>,
    pub case_sensitive: bool,
    pub whole_word: bool,
    pub use_regex: bool,
    pub match_count: usize,
    pub current_index: usize,
    pub last_query: Seq<char>,
}

/// The keys that the find bar's input got in a frame.
#[derive(Debug, Clone, Copy, PartialEq, Eq, Structural)]
pub struct FindKeys {
    pub escape: bool,
    pub enter: bool,
    pub shift: bool,
}

/// The buttons of the find bar that were clicked in a frame.
#[derive(Debug, Clone, Copy, PartialEq, Eq, Structural)]
pub struct FindClicks {
    pub case_sensitive: bool,
    pub whole_word: bool,
    pub use_regex: bool,
    pub previous: bool,
    pub next: bool,
    pub find_all: bool,
    pub close: bool,
}

impl View for FindBar {
    type V = FindView;

    open spec fn view(&self) -> FindView {
        FindView {
            query: self.query@,
            case_sensitive: self.case_sensitive,
            whole_word: self.whole_word,
            use_regex: self.use_regex,
            match_count: self.match_count,
            current_index: self.current_index,
            last_query: self.last_query@,
        }
    }
}

impl FindView {
    /// The bar with its matches forgotten.
    pub open spec fn without_matches(self) -> FindView {
        FindView { match_count: 0, current_index: 0, ..self }
    }

    /// The bar after the keys of a frame and the search that a new query starts.
    pub open spec fn after_keys(self, keys: FindKeys) -> FindView {
        if keys.escape {
            self.without_matches()
        } else if self.query == self.last_query {
            self
        } else if self.query.len() > 0 {
            FindView { last_query: self.query, ..self }
        } else {
            FindView { last_query: self.query, ..self.without_matches() }
        }
    }

    /// The bar after the clicks of a frame: a toggled option searches again.
    pub open spec fn after_clicks(self, c: FindClicks) -> FindView {
        let toggled = FindView {
            case_sensitive: self.case_sensitive != c.case_sensitive,
            whole_word: self.whole_word != c.whole_word,
            use_regex: self.use_regex != c.use_regex,
            last_query: if c.case_sensitive || c.whole_word || c.use_regex {
                Seq::empty()
            } else {
                self.last_query
            },
            ..self
        };
        if c.close {
            toggled.without_matches()
        } else {
            toggled
        }
    }
}

impl FindBar {
    /// The search for the next match with the bar's query and options.
    pub open spec fn next(self) -> GuiAction {
        GuiAction::FindNext {
            query: self.query,
            case_sensitive: self.case_sensitive,
            whole_word: self.whole_word,
            use_regex: self.use_regex,
        }
    }

    /// The search for the previous match.
    pub open spec fn previous(self) -> GuiAction {
        GuiAction::FindPrev {
            query: self.query,
            case_sensitive: self.case_sensitive,
            whole_word: self.whole_word,
            use_regex: self.use_regex,
        }
    }

    /// The search for all matches.
    pub open spec fn all(self) -> GuiAction {
        GuiAction::FindAll {
            query: self.query,
            case_sensitive: self.case_sensitive,
            whole_word: self.whole_word,
            use_regex: self.use_regex,
        }
    }

    /// What the keys of a frame and a new query ask for.
    pub open spec fn asked_by_keys(self, keys: FindKeys) -> Seq<GuiAction> {
        if keys.escape {
            seq![GuiAction::ClearFind]
        } else {
            let entered = if !keys.enter {
                Seq::empty()
            } else if keys.shift {
                seq![self.previous()]
            } else {
                seq![self.next()]
            };
            let searched = if self.query@ == self.last_query@ {
                Seq::empty()
            } else if self.query@.len() > 0 {
                seq![self.all()]
            } else {
                seq![GuiAction::ClearFind]
            };
            entered + searched
        }
    }

    /// What the arrows ask for: they need matches.
    pub open spec fn asked_by_arrows(self, c: FindClicks) -> Seq<GuiAction> {
        let back = if c.previous && self.match_count > 0 {
            seq![self.previous()]
        } else {
            Seq::empty()
        };
        if c.next && self.match_count > 0 {
            back.push(self.next())
        } else {
            back
        }
    }

    /// What the clicks of a frame ask for, once the options are toggled: the search for all needs
    /// a query.
    pub open spec fn asked_by_clicks(self, c: FindClicks) -> Seq<GuiAction> {
        let all = if c.find_all && self.query@.len() > 0 {
            self.asked_by_arrows(c).push(self.all())
        } else {
            self.asked_by_arrows(c)
        };
        if c.close {
            all.push(GuiAction::ClearFind)
        } else {
            all
        }
    }

    /// The bar with its options toggled and nothing else changed.
    pub open spec fn toggled(self, c: FindClicks, t: FindBar) -> bool {
        &&& t.query == self.query
        &&& t.match_count == self.match_count
        &&& t@ == self@.after_clicks(FindClicks { close: false, ..c })
    }

    /// A bar with no query.
    pub fn new() -> (r: FindBar)
        ensures
            r@ == (FindView {
                query: Seq::empty(),
                case_sensitive: false,
                whole_word: false,
                use_regex: false,
                match_count: 0,
                current_index: 0,
                last_query: Seq::empty(),
            }),
    {
        FindBar {
            query: String::new(),
            case_sensitive: false,
            whole_word: false,
            use_regex: false,
            match_count: 0,
            current_index: 0,
            last_query: String::new(),
        }
    }

    /// Whether the input takes the focus: the bar has just been opened.
    pub fn wants_focus(&self) -> (r: bool)
        ensures
            r == (self.last_query@.len() == 0 && self.query@.len() == 0),
    {
        self.last_query.as_str().is_empty() && self.query.as_str().is_empty()
    }

    fn find_next(&self) -> (r: GuiAction)
        ensures
            r == self.next(),
    {
        GuiAction::FindNext {
            query: self.query.clone(),
            case_sensitive: self.case_sensitive,
            whole_word: self.whole_word,
            use_regex: self.use_regex,
        }
    }

    fn find_previous(&self) -> (r: GuiAction)
        ensures
            r == self.previous(),
    {
        GuiAction::FindPrev {
            query: self.query.clone(),
            case_sensitive: self.case_sensitive,
            whole_word: self.whole_word,
            use_regex: self.use_regex,
        }
    }

    fn find_all(&self) -> (r: GuiAction)
        ensures
            r == self.all(),
    {
        GuiAction::FindAll {
            query: self.query.clone(),
            case_sensitive: self.case_sensitive,
            whole_word: self.whole_word,
            use_regex: self.use_regex,
        }
    }

    fn close(&mut self, panels: &mut Panels, actions: &mut Vec<GuiAction>)
        ensures
            *final(panels) == (Panels { show_find_bar: false, ..*old(panels) }),
            final(self)@ == old(self)@.without_matches(),
            final(actions)@ == old(actions)@.push(GuiAction::ClearFind),
    {
        panels.show_find_bar = false;
        self.match_count = 0;
        self.current_index = 0;
        actions.push(GuiAction::ClearFind);
    }

    /// Handles the keys of a frame and starts the search for a query that has changed. Escape
    /// closes the bar and ends the frame for it.
    pub fn keys(&mut self, panels: &mut Panels, keys: &FindKeys, actions: &mut Vec<GuiAction>)
        ensures
            final(self)@ == old(self)@.after_keys(*keys),
            final(actions)@ == old(actions)@ + old(self).asked_by_keys(*keys),
            *final(panels) == if keys.escape {
                Panels { show_find_bar: false, ..*old(panels) }
            } else {
                *old(panels)
            },
    {
        let ghost asked = self.asked_by_keys(*keys);
        if keys.escape {
            self.close(panels, actions);
            assert(actions@ =~= old(actions)@ + asked);
            return;
        }
        if keys.enter {
            if keys.shift {
                actions.push(self.find_previous());
            } else {
                actions.push(self.find_next());
            }
        }
        if self.query != self.last_query {
            self.last_query = self.query.clone();
            if !self.query.as_str().is_empty() {
                actions.push(self.find_all());
            } else {
                self.match_count = 0;
                self.current_index = 0;
                actions.push(GuiAction::ClearFind);
            }
        }
        assert(actions@ =~= old(actions)@ + asked);
    }

    fn toggle(&mut self, c: &FindClicks)
        ensures
            old(self).toggled(*c, *final(self)),
    {
        if c.case_sensitive {
            self.case_sensitive = !self.case_sensitive;
            self.last_query = String::new();
        }
        if c.whole_word {
            self.whole_word = !self.whole_word;
            self.last_query = String::new();
        }
        if c.use_regex {
            self.use_regex = !self.use_regex;
            self.last_query = String::new();
        }
    }

    fn arrows(&self, c: &FindClicks, actions: &mut Vec<GuiAction>)
        ensures
            final(actions)@ == old(actions)@ + self.asked_by_arrows(*c),
    {
        if c.previous && self.match_count > 0 {
            actions.push(self.find_previous());
        }
        if c.next && self.match_count > 0 {
            actions.push(self.find_next());
        }
        assert(actions@ =~= old(actions)@ + self.asked_by_arrows(*c));
    }

    /// Handles the clicks of a frame.
    pub fn clicks(&mut self, panels: &mut Panels, c: &FindClicks, actions: &mut Vec<GuiAction>)
        ensures
            final(self)@ == old(self)@.after_clicks(*c),
            exists|t: FindBar| #[trigger]
                old(self).toggled(*c, t) && final(actions)@ == old(actions)@ + t.asked_by_clicks(*c),
            *final(panels) == if c.close {
                Panels { show_find_bar: false, ..*old(panels) }
            } else {
                *old(panels)
            },
    {
        self.toggle(c);
        let ghost t = *self;
        self.arrows(c, actions);
        if c.find_all && !self.query.as_str().is_empty() {
            actions.push(self.find_all());
        }
        if c.close {
            self.close(panels, actions);
        }
        proof {
            assert(old(self).toggled(*c, t));
            assert(actions@ =~= old(actions)@ + t.asked_by_clicks(*c));
        }
    }

    /// The count beside the query: the place among the matches, or that there are none, or
    /// nothing where nothing is searched.
    pub open spec fn count_text(self) -> Option<Seq<char>> {
        if self.match_count > 0 {
            Some(
                number::digits((self.current_index + 1) as nat) + " / "@ + number::digits(
                    self.match_count as nat,
                ),
            )
        } else if self.query@.len() > 0 {
            Some("No results"@)
        } else {
            None
        }
    }

    /// The count beside the query.
    pub fn count_label(&self) -> (r: Option<String>)
        requires
            self.match_count > 0 ==> self.current_index < usize::MAX,
        ensures
            match r {
                Some(t) => self.count_text() == Some(t@),
                None => self.count_text() is None,
            },
    {
        if self.match_count > 0 {
            let mut out: String = String::new();
            number::push_digits(&mut out, (self.current_index + 1) as u64);
            out.append(" / ");
            number::push_digits(&mut out, self.match_count as u64);
            assert(out@ =~= number::digits((self.current_index + 1) as nat) + " / "@
                + number::digits(self.match_count as nat));
            Some(out)
        } else if !self.query.as_str().is_empty() {
            Some("No results".to_owned())
        } else {
            None
        }
    }
}

/// A query that has not changed is not searched again: after the keys of one frame, a frame
/// without keys asks for nothing.
pub proof fn law_searches_once(before: FindBar, after: FindBar, keys: FindKeys)
    requires
        !keys.escape,
        after@ == before@.after_keys(keys),
    ensures
        after.asked_by_keys(
            FindKeys { escape: false, enter: false, shift: false },
        ) == Seq::<GuiAction>::empty(),
{
    assert(after.query@ == after@.query);
    assert(after.last_query@ == after@.last_query);
    assert(after.asked_by_keys(FindKeys { escape: false, enter: false, shift: false }) =~= Seq::<
        GuiAction,
    >::empty());
}

/// A toggled option makes the next frame search a query that is not empty, with the new options.
pub proof fn law_toggle_searches_again(before: FindBar, after: FindBar, c: FindClicks)
    requires
        before.query@.len() > 0,
        c.case_sensitive || c.whole_word || c.use_regex,
        after@ == before@.after_clicks(c),
    ensures
        after.asked_by_keys(FindKeys { escape: false, enter: false, shift: false }) == seq![
            after.all(),
        ],
{
    assert(after.query@ == after@.query);
    assert(after.last_query@ == after@.last_query);
    assert(after.asked_by_keys(FindKeys { escape: false, enter: false, shift: false }) =~= seq![
        after.all(),
    ]);
}

/// Enter asks for the next match and with the shift key for the previous one; Escape forgets the
/// search; a query that is new is searched for everywhere, with the options as they are set.
pub proof fn law_keys_ask(f: FindBar)
    ensures
        ({
            let (query, case_sensitive, whole_word, use_regex) = (
                f.query,
                f.case_sensitive,
                f.whole_word,
                f.use_regex,
            );
            let keys = |escape: bool, enter: bool, shift: bool| FindKeys { escape, enter, shift };
            let same = f.query@ == f.last_query@;
            &&& same ==> f.asked_by_keys(keys(false, true, false)) == seq![
                GuiAction::FindNext { query, case_sensitive, whole_word, use_regex },
            ]
            &&& same ==> f.asked_by_keys(keys(false, true, true)) == seq![
                GuiAction::FindPrev { query, case_sensitive, whole_word, use_regex },
            ]
            &&& same ==> f.asked_by_keys(keys(false, false, false)).len() == 0
            &&& !same && f.query@.len() > 0 ==> f.asked_by_keys(keys(false, false, false)) == seq![
                GuiAction::FindAll { query, case_sensitive, whole_word, use_regex },
            ]
            &&& !same && f.query@.len() == 0 ==> f.asked_by_keys(keys(false, false, false)) == seq![
                GuiAction::ClearFind,
            ]
            &&& f.asked_by_keys(keys(true, false, false)) == seq![GuiAction::ClearFind]
        }),
{
    let keys = |escape: bool, enter: bool, shift: bool| FindKeys { escape, enter, shift };
    if f.query@ == f.last_query@ {
        assert(f.asked_by_keys(keys(false, true, false)) =~= seq![f.next()]);
        assert(f.asked_by_keys(keys(false, true, true)) =~= seq![f.previous()]);
        assert(f.asked_by_keys(keys(false, false, false)) =~= Seq::empty());
    } else if f.query@.len() > 0 {
        assert(f.asked_by_keys(keys(false, false, false)) =~= seq![f.all()]);
    } else {
        assert(f.asked_by_keys(keys(false, false, false)) =~= seq![GuiAction::ClearFind]);
    }
}

/// The arrows ask for the match before and the match behind, and only where there are matches; each
/// option is turned over by its own button.
pub proof fn law_clicks_ask(f: FindBar, c: FindClicks)
    ensures
        ({
            let (query, case_sensitive, whole_word, use_regex) = (
                f.query,
                f.case_sensitive,
                f.whole_word,
                f.use_regex,
            );
            let after = f@.after_clicks(c);
            &&& c.previous && !c.next && f.match_count > 0 ==> f.asked_by_arrows(c) == seq![
                GuiAction::FindPrev { query, case_sensitive, whole_word, use_regex },
            ]
            &&& c.next && !c.previous && f.match_count > 0 ==> f.asked_by_arrows(c) == seq![
                GuiAction::FindNext { query, case_sensitive, whole_word, use_regex },
            ]
            &&& f.match_count == 0 ==> f.asked_by_arrows(c).len() == 0
            &&& after.query == f.query@
            &&& (after.case_sensitive != f.case_sensitive) == c.case_sensitive
            &&& (after.whole_word != f.whole_word) == c.whole_word
            &&& (after.use_regex != f.use_regex) == c.use_regex
            &&& !c.close ==> after.match_count == f.match_count && after.current_index
                == f.current_index
        }),
{
    if c.next && !c.previous && f.match_count > 0 {
        assert(f.asked_by_arrows(c) =~= seq![f.next()]);
    }
}

} // verus!
