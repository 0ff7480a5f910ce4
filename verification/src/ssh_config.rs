//! Parser for ~/.ssh/config files.

use crate::number;
use crate::text;
use vstd::prelude::*;

verus! {

/// Parsed SSH config entry.
#[derive(Debug, Clone)]
pub struct SshConfigEntry {
    pub host_pattern: String,
    pub hostname: Option<String>,
    pub port: Option<u16>,
    pub user: Option<String>,
    pub identity_file: Option<String>,
    pub proxy_jump: Option<String>,
    pub forward_agent: bool,
}

/// What an entry says.
pub ghost struct EntryView {
    pub host_pattern: Seq<char>,
    pub hostname: Option<Seq<char>>,
    pub port: Option<u16>,
    pub user: Option<Seq<char>>,
    pub identity_file: Option<Seq<char>>,
    pub proxy_jump: Option<Seq<char>>,
    pub forward_agent: bool,
}

/// The text of an optional string.
pub open spec fn text_of(s: Option<String>) -> Option<Seq<char>> {
    match s {
        Some(t) => Some(t@),
        None => None,
    }
}

impl View for SshConfigEntry {
    type V = EntryView;

    open spec fn view(&self) -> EntryView {
        EntryView {
            host_pattern: self.host_pattern@,
            hostname: text_of(self.hostname),
            port: self.port,
            user: text_of(self.user),
            identity_file: text_of(self.identity_file),
            proxy_jump: text_of(self.proxy_jump),
            forward_agent: self.forward_agent,
        }
    }
}

/// The entries in order.
pub open spec fn entry_views(entries: Seq<SshConfigEntry>) -> Seq<EntryView> {
    entries.map_values(|e: SshConfigEntry| e@)
}

impl EntryView {
    /// An entry of which only the host pattern is known.
    pub open spec fn for_host(host_pattern: Seq<char>) -> EntryView {
        EntryView {
            host_pattern,
            hostname: None,
            port: None,
            user: None,
            identity_file: None,
            proxy_jump: None,
            forward_agent: false,
        }
    }

    /// The entry after a directive, given by its keyword in lower case, its value, and the value
    /// in lower case. Unknown keywords change nothing.
    pub open spec fn directed(self, key: Seq<char>, value: Seq<char>, lower: Seq<char>) -> EntryView {
        if key == "hostname"@ {
            EntryView { hostname: Some(value), ..self }
        } else if key == "port"@ {
            EntryView { port: number::read_u16(vstd::utf8::encode_utf8(value)), ..self }
        } else if key == "user"@ {
            EntryView { user: Some(value), ..self }
        } else if key == "identityfile"@ {
            EntryView { identity_file: Some(value), ..self }
        } else if key == "proxyjump"@ {
            EntryView { proxy_jump: Some(value), ..self }
        } else if key == "forwardagent"@ {
            EntryView { forward_agent: lower == "yes"@, ..self }
        } else {
            self
        }
    }
}

/// The lines of a text; line breaks are not part of them.
pub open spec fn lines_of(s: Seq<char>) -> Seq<Seq<char>>
    decreases s.len(),
{
    if s.len() == 0 {
        seq![Seq::empty()]
    } else {
        let before = lines_of(s.drop_last());
        if s.last() == '\n' {
            before.push(Seq::empty())
        } else {
            before.update(before.len() - 1, before.last().push(s.last()))
        }
    }
}

/// The index of the first whitespace character from `i` on, or the length where there is none.
pub open spec fn first_white(s: Seq<char>, i: int) -> int
    decreases s.len() - i,
{
    if i >= s.len() || text::white(s[i]) {
        i
    } else {
        first_white(s, i + 1)
    }
}

/// The keyword and the value of a line; none for a blank line, a comment, or a keyword alone.
pub open spec fn directive(line: Seq<char>) -> Option<(Seq<char>, Seq<char>)> {
    let t = text::trimmed(line);
    let k = first_white(t, 0);
    if t.len() == 0 || t[0] == '#' || k >= t.len() {
        None
    } else {
        Some((t.take(k), text::trimmed(t.skip(k + 1))))
    }
}

/// Where the parser stands: the entries that are complete, and the one it is in.
pub ghost struct ConfigView {
    pub entries: Seq<EntryView>,
    pub current: Option<EntryView>,
}

impl ConfigView {
    pub open spec fn start() -> ConfigView {
        ConfigView { entries: Seq::empty(), current: None }
    }

    /// The entries with the current one put behind them.
    pub open spec fn all(self) -> Seq<EntryView> {
        match self.current {
            Some(e) => self.entries.push(e),
            None => self.entries,
        }
    }

    /// After a directive.
    pub open spec fn directed(self, key: Seq<char>, value: Seq<char>, lower: Seq<char>) -> ConfigView {
        if key == "host"@ {
            ConfigView { entries: self.all(), current: Some(EntryView::for_host(value)) }
        } else {
            match self.current {
                Some(e) => ConfigView { current: Some(e.directed(key, value, lower)), ..self },
                None => self,
            }
        }
    }

    /// After a line.
    pub open spec fn after_line(self, line: Seq<char>) -> ConfigView {
        match directive(line) {
            Some((key, value)) => self.directed(
                text::lowered(key),
                value,
                text::lowered(value),
            ),
            None => self,
        }
    }

    /// After lines.
    pub open spec fn after_lines(self, lines: Seq<Seq<char>>) -> ConfigView
        decreases lines.len(),
    {
        if lines.len() == 0 {
            self
        } else {
            self.after_lines(lines.drop_last()).after_line(lines.last())
        }
    }
}

/// The entries of a configuration.
pub open spec fn parsed(content: Seq<char>) -> Seq<EntryView> {
    ConfigView::start().after_lines(lines_of(content)).all()
}

/// A line that starts an entry.
pub open spec fn host_line(line: Seq<char>) -> bool {
    directive(line) matches Some((key, _)) && text::lowered(key) == "host"@
}

/// How many of the lines start an entry.
pub open spec fn host_lines(lines: Seq<Seq<char>>) -> int
    decreases lines.len(),
{
    if lines.len() == 0 {
        0
    } else {
        host_lines(lines.drop_last()) + if host_line(lines.last()) {
            1int
        } else {
            0int
        }
    }
}

/// A configuration has one entry for each `Host` line.
pub proof fn law_entry_per_host(content: Seq<char>)
    ensures
        parsed(content).len() == host_lines(lines_of(content)),
{
    lemma_entry_count(lines_of(content));
}

proof fn lemma_entry_count(lines: Seq<Seq<char>>)
    ensures
        ConfigView::start().after_lines(lines).all().len() == host_lines(lines),
    decreases lines.len(),
{
    if lines.len() > 0 {
        lemma_entry_count(lines.drop_last());
    }
}

/// The first of the lines that holds a directive starts an entry, where there is one.
pub open spec fn begins_with_host(lines: Seq<Seq<char>>) -> bool {
    forall|i: int|
        0 <= i < lines.len() && (#[trigger] directive(lines[i])) is Some && no_directive(
            lines.take(i),
        ) ==> host_line(lines[i])
}

/// None of the lines holds a directive.
pub open spec fn no_directive(lines: Seq<Seq<char>>) -> bool {
    forall|i: int| 0 <= i < lines.len() ==> (#[trigger] directive(lines[i])) is None
}

proof fn lemma_joined_lines(a: Seq<char>, b: Seq<char>)
    ensures
        lines_of(a.push('\n') + b) == lines_of(a) + lines_of(b),
        lines_of(b).len() > 0,
    decreases b.len(),
{
    let whole = a.push('\n') + b;
    if b.len() == 0 {
        assert(whole =~= a.push('\n'));
        assert(whole.drop_last() =~= a);
        assert(lines_of(whole) =~= lines_of(a) + lines_of(b));
    } else {
        lemma_joined_lines(a, b.drop_last());
        assert(whole.drop_last() =~= a.push('\n') + b.drop_last());
        assert(whole.last() == b.last());
        assert(lines_of(whole) =~= lines_of(a) + lines_of(b));
    }
}

proof fn lemma_lines_in_turn(s: ConfigView, x: Seq<Seq<char>>, y: Seq<Seq<char>>)
    ensures
        s.after_lines(x + y) == s.after_lines(x).after_lines(y),
    decreases y.len(),
{
    if y.len() == 0 {
        assert(x + y =~= x);
    } else {
        lemma_lines_in_turn(s, x, y.drop_last());
        assert((x + y).drop_last() =~= x + y.drop_last());
    }
}

proof fn lemma_no_leak(s: ConfigView, y: Seq<Seq<char>>)
    requires
        begins_with_host(y),
    ensures
        ({
            let (r, own) = (s.after_lines(y), ConfigView::start().after_lines(y));
            if no_directive(y) {
                r == s && own == ConfigView::start()
            } else {
                &&& r.current is Some
                &&& r.current == own.current
                &&& r.entries == s.all() + own.entries
            }
        }),
    decreases y.len(),
{
    if y.len() > 0 {
        let (rest, last) = (y.drop_last(), y.last());
        let n = y.len() - 1;
        assert forall|i: int|
            0 <= i < rest.len() && (#[trigger] directive(rest[i])) is Some && no_directive(
                rest.take(i),
            ) implies host_line(rest[i]) by {
            assert(rest.take(i) =~= y.take(i));
            assert(directive(y[i]) is Some);
        }
        lemma_no_leak(s, rest);
        assert(y.take(n) =~= rest);
        assert(directive(y[n]) == directive(last));
        if no_directive(rest) {
            if directive(last) is None {
                assert forall|i: int| 0 <= i < y.len() implies (
                #[trigger] directive(y[i])) is None by {
                    if i < n {
                        assert(directive(rest[i]) is None);
                    }
                }
            } else {
                assert(host_line(y[n]));
                let own = ConfigView::start().after_lines(y);
                assert(s.after_lines(y).entries =~= s.all() + own.entries);
            }
        } else {
            let k = choose|k: int| 0 <= k < rest.len() && (#[trigger] directive(rest[k])) is Some;
            assert(directive(y[k]) is Some);
            let (r, own) = (s.after_lines(rest), ConfigView::start().after_lines(rest));
            assert(r.all() =~= s.all() + own.all());
        }
    }
}

/// Two configurations joined by a line break, the second of which begins with a `Host` line or
/// holds no directive, have the entries of the first followed by those of the second: no
/// directive leaks from one entry into another.
pub proof fn law_configs_in_a_row(a: Seq<char>, b: Seq<char>)
    requires
        begins_with_host(lines_of(b)),
    ensures
        parsed(a + seq!['\n'] + b) == parsed(a) + parsed(b),
{
    let (x, y) = (lines_of(a), lines_of(b));
    assert(a + seq!['\n'] + b =~= a.push('\n') + b);
    lemma_joined_lines(a, b);
    lemma_lines_in_turn(ConfigView::start(), x, y);
    lemma_no_leak(ConfigView::start().after_lines(x), y);
    assert(parsed(a + seq!['\n'] + b) =~= parsed(a) + parsed(b));
}

/// Splits a text into lines.
fn split_lines(s: &[char]) -> (r: Vec<Vec<char>>)
    ensures
        r@.map_values(|v: Vec<char>| v@) == lines_of(s@),
{
    let mut out: Vec<Vec<char>> = Vec::new();
    let mut line: Vec<char> = Vec::new();
    let mut i: usize = 0;
    assert(s@.take(0) =~= Seq::empty());
    assert(line@ =~= Seq::empty());
    assert(out@.map_values(|v: Vec<char>| v@).push(line@) =~= lines_of(s@.take(0)));
    while i < s.len()
        invariant
            i <= s@.len(),
            out@.map_values(|v: Vec<char>| v@).push(line@) == lines_of(s@.take(i as int)),
        decreases s@.len() - i,
    {
        let c: char = s[i];
        let ghost before = out@.map_values(|v: Vec<char>| v@);
        let ghost was = line@;
        let ghost upto = s@.take(i + 1);
        assert(upto.drop_last() =~= s@.take(i as int));
        assert(upto.last() == c);
        if c == '\n' {
            out.push(line);
            line = Vec::new();
            assert(line@ =~= Seq::empty());
            assert(out@.map_values(|v: Vec<char>| v@) =~= before.push(was));
        } else {
            line.push(c);
            assert(before.push(line@) =~= before.push(was).update(
                before.len() as int,
                was.push(c),
            ));
        }
        i = i + 1;
        assert(out@.map_values(|v: Vec<char>| v@).push(line@) =~= lines_of(s@.take(i as int)));
    }
    let ghost before = out@.map_values(|v: Vec<char>| v@);
    let ghost last = line@;
    out.push(line);
    assert(out@.map_values(|v: Vec<char>| v@) =~= before.push(last));
    assert(s@.take(i as int) =~= s@);
    out
}

/// Takes a line apart.
fn split_directive(line: &[char]) -> (r: Option<(Vec<char>, Vec<char>)>)
    ensures
        match (r, directive(line@)) {
            (Some((k, v)), Some((key, value))) => k@ == key && v@ == value,
            (None, None) => true,
            _ => false,
        },
{
    let t: Vec<char> = text::trim(line);
    if t.len() == 0 || t[0] == '#' {
        return None;
    }
    let mut k: usize = 0;
    let mut key: Vec<char> = Vec::new();
    while k < t.len() && !text::is_white(t[k])
        invariant
            k <= t@.len(),
            first_white(t@, 0) == first_white(t@, k as int),
            key@ == t@.take(k as int),
        decreases t@.len() - k,
    {
        key.push(t[k]);
        k = k + 1;
        assert(key@ =~= t@.take(k as int));
    }
    if k >= t.len() {
        return None;
    }
    let rest: Vec<char> = text::copy_from(t.as_slice(), k + 1);
    let value: Vec<char> = text::trim(rest.as_slice());
    Some((key, value))
}

/// Changes an entry by a directive, given by its keyword in lower case and its value.
fn apply(entry: SshConfigEntry, key: &[char], value: &[char]) -> (r: SshConfigEntry)
    ensures
        r@ == entry@.directed(key@, value@, text::lowered(value@)),
{
    let mut e: SshConfigEntry = entry;
    let s: String = text::to_string(value);
    if text::is_text(key, "hostname") {
        e.hostname = Some(s);
    } else if text::is_text(key, "port") {
        e.port = number::parse_u16(s.as_str().as_bytes());
    } else if text::is_text(key, "user") {
        e.user = Some(s);
    } else if text::is_text(key, "identityfile") {
        e.identity_file = Some(s);
    } else if text::is_text(key, "proxyjump") {
        e.proxy_jump = Some(s);
    } else if text::is_text(key, "forwardagent") {
        let lower: String = text::lower_text(s.as_str());
        e.forward_agent = text::is_text(text::to_chars(lower.as_str()).as_slice(), "yes");
    }
    e
}

/// The configuration as it is being read.
pub struct ConfigReader {
    pub entries: Vec<SshConfigEntry>,
    pub current: Option<SshConfigEntry>,
}

impl View for ConfigReader {
    type V = ConfigView;

    open spec fn view(&self) -> ConfigView {
        ConfigView {
            entries: entry_views(self.entries@),
            current: match self.current {
                Some(e) => Some(e@),
                None => None,
            },
        }
    }
}

impl ConfigReader {
    /// Completes the current entry.
    fn complete(&mut self)
        ensures
            final(self)@ == (ConfigView { entries: old(self)@.all(), current: None }),
    {
        if let Some(e) = self.current.take() {
            let ghost before = entry_views(self.entries@);
            self.entries.push(e);
            assert(entry_views(self.entries@) =~= before.push(e@));
        }
    }

    /// Takes a directive, given by its keyword in lower case and its value.
    pub fn direct(&mut self, key: &[char], value: &[char])
        ensures
            final(self)@ == old(self)@.directed(key@, value@, text::lowered(value@)),
    {
        if text::is_text(key, "host") {
            self.complete();
            self.current = Some(
                SshConfigEntry {
                    host_pattern: text::to_string(value),
                    hostname: None,
                    port: None,
                    user: None,
                    identity_file: None,
                    proxy_jump: None,
                    forward_agent: false,
                },
            );
        } else if let Some(e) = self.current.take() {
            self.current = Some(apply(e, key, value));
        }
    }

    /// Takes a line.
    fn read_line(&mut self, line: &[char])
        ensures
            final(self)@ == old(self)@.after_line(line@),
    {
        if let Some((key, value)) = split_directive(line) {
            let name: String = text::to_string(key.as_slice());
            let lower: String = text::lower_text(name.as_str());
            let lower: Vec<char> = text::to_chars(lower.as_str());
            self.direct(lower.as_slice(), value.as_slice());
        }
    }
}

/// Parse ~/.ssh/config and return all entries.
pub fn parse_ssh_config(content: &str) -> (r: Vec<SshConfigEntry>)
    ensures
        entry_views(r@) == parsed(content@),
{
    let chars: Vec<char> = text::to_chars(content);
    let lines: Vec<Vec<char>> = split_lines(chars.as_slice());
    let ghost all = lines@.map_values(|v: Vec<char>| v@);
    let mut reader = ConfigReader { entries: Vec::new(), current: None };
    assert(reader@.entries =~= Seq::empty());
    let mut i: usize = 0;
    assert(all.take(0) =~= Seq::empty());
    while i < lines.len()
        invariant
            i <= lines@.len(),
            all == lines@.map_values(|v: Vec<char>| v@),
            reader@ == ConfigView::start().after_lines(all.take(i as int)),
        decreases lines@.len() - i,
    {
        assert(all.take(i + 1).drop_last() =~= all.take(i as int));
        assert(all.take(i + 1).last() == lines[i as int]@);
        reader.read_line(lines[i].as_slice());
        i = i + 1;
    }
    assert(all.take(i as int) =~= all);
    reader.complete();
    reader.entries
}

/// A keyword, a space and a value, neither with whitespace at its ends or, in the keyword, within.
spec fn said(key: Seq<char>, value: Seq<char>) -> Seq<char> {
    key + seq![' '] + value
}

proof fn lemma_first_white(s: Seq<char>, i: int, k: int)
    requires
        0 <= i <= k < s.len(),
        text::white(s[k]),
        forall|j: int| i <= j < k ==> !text::white(#[trigger] s[j]),
    ensures
        first_white(s, i) == k,
    decreases k - i,
{
    if i < k {
        lemma_first_white(s, i + 1, k);
    }
}

proof fn lemma_said(key: Seq<char>, value: Seq<char>)
    requires
        key.len() > 0,
        key[0] != '#',
        forall|j: int| 0 <= j < key.len() ==> !text::white(#[trigger] key[j]),
        value.len() > 0,
        !text::white(value[0]),
        !text::white(value.last()),
    ensures
        directive(said(key, value)) == Some((key, value)),
{
    let line = said(key, value);
    let none = Seq::<char>::empty();
    assert(line[0] == key[0]);
    assert(line.last() == value.last());
    text::law_trim_leaves_the_middle(none, line, none);
    assert(none + line + none =~= line);
    text::law_trim_leaves_the_middle(none, value, none);
    assert(none + value + none =~= value);
    assert(line[key.len() as int] == ' ');
    assert forall|j: int| 0 <= j < key.len() implies !text::white(#[trigger] line[j]) by {
        assert(line[j] == key[j]);
    }
    lemma_first_white(line, 0, key.len() as int);
    assert(line.take(key.len() as int) =~= key);
    assert(line.skip((key.len() + 1) as int) =~= value);
}

/// A line with a keyword and a value sets that field of the entry it stands in, to the value as it
/// is written, and no other; a `Host` line starts an entry of which nothing else is known, and
/// leaves the one before as it is. Keywords are taken in any case of letters.
#[verifier::rlimit(40)]
pub proof fn law_directives(c: ConfigView, e: EntryView, key: Seq<char>, value: Seq<char>)
    requires
        c.current == Some(e),
        text::plain(key),
        key.len() > 0,
        key[0] != '#',
        forall|j: int| 0 <= j < key.len() ==> !text::white(#[trigger] key[j]),
        value.len() > 0,
        !text::white(value[0]),
        !text::white(value.last()),
    ensures
        ({
            let line = key + seq![' '] + value;
            let word = text::small_letters(key);
            let after = c.after_line(line);
            &&& word == "hostname"@ ==> after == ConfigView {
                current: Some(EntryView { hostname: Some(value), ..e }),
                ..c
            }
            &&& word == "user"@ ==> after == ConfigView {
                current: Some(EntryView { user: Some(value), ..e }),
                ..c
            }
            &&& word == "identityfile"@ ==> after == ConfigView {
                current: Some(EntryView { identity_file: Some(value), ..e }),
                ..c
            }
            &&& word == "proxyjump"@ ==> after == ConfigView {
                current: Some(EntryView { proxy_jump: Some(value), ..e }),
                ..c
            }
            &&& word == "forwardagent"@ && text::plain(value) ==> after == ConfigView {
                current: Some(
                    EntryView { forward_agent: text::small_letters(value) == "yes"@, ..e },
                ),
                ..c
            }
            &&& word == "host"@ ==> after == ConfigView {
                entries: c.entries.push(e),
                current: Some(
                    EntryView {
                        host_pattern: value,
                        hostname: None,
                        port: None,
                        user: None,
                        identity_file: None,
                        proxy_jump: None,
                        forward_agent: false,
                    },
                ),
            }
        }),
{
    lemma_said(key, value);
    reveal_strlit("hostname");
    reveal_strlit("port");
    reveal_strlit("user");
    reveal_strlit("identityfile");
    reveal_strlit("proxyjump");
    reveal_strlit("forwardagent");
    reveal_strlit("host");
    assert("hostname"@.len() == 8 && "port"@.len() == 4 && "user"@.len() == 4);
    assert("identityfile"@.len() == 12 && "proxyjump"@.len() == 9 && "forwardagent"@.len() == 12);
    assert("host"@.len() == 4);
    assert("user"@[0] == 'u' && "port"@[0] == 'p' && "host"@[0] == 'h');
    assert("identityfile"@[0] == 'i' && "forwardagent"@[0] == 'f');
    assert(text::lowered(key) == text::small_letters(key));
}

/// A port is the number that is written.
pub proof fn law_port_read(c: ConfigView, e: EntryView, key: Seq<char>, value: Seq<char>, n: nat)
    requires
        c.current == Some(e),
        text::plain(key),
        text::small_letters(key) == "port"@,
        forall|j: int| 0 <= j < key.len() ==> !text::white(#[trigger] key[j]),
        n <= u16::MAX,
        value.len() > 0,
        !text::white(value[0]),
        !text::white(value.last()),
        vstd::utf8::encode_utf8(value) == number::decimal(n),
    ensures
        c.after_line(key + seq![' '] + value) == (ConfigView {
            current: Some(EntryView { port: Some(n as u16), ..e }),
            ..c
        }),
{
    reveal_strlit("hostname");
    reveal_strlit("port");
    reveal_strlit("host");
    assert("port"@.len() == 4 && "port"@[0] == 'p' && "hostname"@.len() == 8 && "host"@[0] == 'h');
    assert(text::small_letters(key).len() == key.len());
    assert(text::small_letters(key)[0] == text::small_letter(key[0]));
    lemma_said(key, value);
    number::law_decimal_reads_back(n);
}

} // verus!
