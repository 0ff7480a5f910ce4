//! The file browser panel: navigation, new files and directories, transfers and the listing.

use crate::gui::{GuiAction, SftpBrowserSnapshot, SftpEntry, SftpTransferInfo};
use crate::number;
use crate::readable;
use crate::text;
use vstd::prelude::*;
use vstd::string::StringExecFns;

verus! {

/// The input fields of the panel.
#[derive(Debug)]
pub struct SftpForm {
    /// Editable path.
    pub path_input: String,
    /// Name of a directory or file to create.
    pub new_name: String,
}

/// A text without the given character at its end.
pub open spec fn without_trailing(s: Seq<char>, c: char) -> Seq<char>
    decreases s.len(),
{
    if s.len() > 0 && s.last() == c {
        without_trailing(s.drop_last(), c)
    } else {
        s
    }
}

/// The path of `name` in the directory `dir`.
pub open spec fn path_in(dir: Seq<char>, name: Seq<char>) -> Seq<char> {
    without_trailing(dir, '/') + seq!['/'] + name
}

/// The part of a path behind its last slash.
pub open spec fn last_part(path: Seq<char>) -> Seq<char>
    decreases path.len(),
{
    if path.len() == 0 || path.last() == '/' {
        Seq::empty()
    } else {
        last_part(path.drop_last()).push(path.last())
    }
}

/// Cuts a character off the end as often as it stands there.
pub fn trim_trailing(s: &mut Vec<char>, c: char)
    ensures
        final(s)@ == without_trailing(old(s)@, c),
{
    while s.len() > 0 && s[s.len() - 1] == c
        invariant
            without_trailing(s@, c) == without_trailing(old(s)@, c),
        decreases s.len(),
    {
        let ghost before = s@;
        let _ = s.pop();
        assert(s@ =~= before.drop_last());
    }
}

proof fn lemma_last_part(path: Seq<char>, from: int)
    requires
        0 <= from <= path.len(),
        forall|i: int| from <= i < path.len() ==> path[i] != '/',
        from == 0 || path[from - 1] == '/',
    ensures
        last_part(path) == path.skip(from),
    decreases path.len(),
{
    if path.len() == from {
        assert(path.skip(from) =~= Seq::empty());
    } else {
        lemma_last_part(path.drop_last(), from);
        assert(path.drop_last().skip(from).push(path.last()) =~= path.skip(from));
    }
}

/// The part of a path behind its last slash.
pub fn file_name(path: &str) -> (r: String)
    ensures
        r@ == last_part(path@),
{
    let chars: Vec<char> = text::to_chars(path);
    let mut from: usize = chars.len();
    while from > 0 && chars[from - 1] != '/'
        invariant
            from <= chars@.len(),
            forall|i: int| from <= i < chars@.len() ==> chars@[i] != '/',
        decreases from,
    {
        from = from - 1;
    }
    proof {
        lemma_last_part(chars@, from as int);
    }
    let tail: Vec<char> = text::copy_from(&chars, from);
    text::to_string(&tail)
}

/// The name of a path never holds a slash, and putting it back behind its directory's path names
/// a file of that name.
pub proof fn law_new_path_has_name(dir: Seq<char>, name: Seq<char>)
    requires
        forall|i: int| 0 <= i < name.len() ==> name[i] != '/',
    ensures
        last_part(path_in(dir, name)) == name,
{
    let path = path_in(dir, name);
    let from = without_trailing(dir, '/').len() + 1;
    lemma_last_part(path, from as int);
    assert(path.skip(from as int) =~= name);
}

impl SftpForm {
    /// A form with nothing filled in.
    pub fn new() -> (r: SftpForm)
        ensures
            r.path_input@ == Seq::<char>::empty(),
            r.new_name@ == Seq::<char>::empty(),
    {
        SftpForm { path_input: String::new(), new_name: String::new() }
    }

    /// Shows the browser's directory in the path field.
    pub fn sync_path(&mut self, snap: &SftpBrowserSnapshot)
        ensures
            final(self).path_input@ == snap.current_path@,
            final(self).new_name == old(self).new_name,
    {
        if self.path_input != snap.current_path {
            self.path_input = snap.current_path.clone();
        }
    }

    /// Goes where the path field says; a blank one goes nowhere.
    pub fn navigate(&self, actions: &mut Vec<GuiAction>)
        ensures
            ({
                let target = text::trimmed(self.path_input@);
                if target.len() == 0 {
                    final(actions)@ == old(actions)@
                } else {
                    final(actions)@.len() == old(actions)@.len() + 1 && final(actions)@.drop_last()
                        == old(actions)@ && (final(actions)@.last() matches GuiAction::SftpNavigate(
                        p,
                    ) && p@ == target)
                }
            }),
    {
        let chars: Vec<char> = text::to_chars(self.path_input.as_str());
        let target: Vec<char> = text::trim(&chars);
        if target.len() > 0 {
            actions.push(GuiAction::SftpNavigate(text::to_string(&target)));
            assert(actions@.drop_last() =~= old(actions)@);
        }
    }

    /// The path of what the name field says, in the browser's directory; none for a blank name.
    fn new_path(&self, snap: &SftpBrowserSnapshot) -> (r: Option<String>)
        ensures
            match r {
                Some(p) => text::trimmed(self.new_name@).len() > 0 && p@ == path_in(
                    snap.current_path@,
                    text::trimmed(self.new_name@),
                ),
                None => text::trimmed(self.new_name@).len() == 0,
            },
    {
        let chars: Vec<char> = text::to_chars(self.new_name.as_str());
        let name: Vec<char> = text::trim(&chars);
        if name.len() == 0 {
            return None;
        }
        let mut path: Vec<char> = text::to_chars(snap.current_path.as_str());
        trim_trailing(&mut path, '/');
        text::push_joined(&mut path, false, '/', &name);
        Some(text::to_string(&path))
    }

    /// Creates a directory, or a file, named as the name field says, in the browser's directory.
    /// A blank name creates nothing; otherwise the field is emptied.
    pub fn create(&mut self, snap: &SftpBrowserSnapshot, dir: bool, actions: &mut Vec<GuiAction>)
        ensures
            ({
                let name = text::trimmed(old(self).new_name@);
                if name.len() == 0 {
                    final(actions)@ == old(actions)@ && *final(self) == *old(self)
                } else {
                    &&& final(actions)@.len() == old(actions)@.len() + 1
                    &&& final(actions)@.drop_last() == old(actions)@
                    &&& dir ==> (final(actions)@.last() matches GuiAction::SftpMkdir(p) && p@
                        == path_in(snap.current_path@, name))
                    &&& !dir ==> (final(actions)@.last() matches GuiAction::SftpTouch(p) && p@
                        == path_in(snap.current_path@, name))
                    &&& final(self).new_name@ == Seq::<char>::empty()
                    &&& final(self).path_input == old(self).path_input
                }
            }),
    {
        if let Some(path) = self.new_path(snap) {
            if dir {
                actions.push(GuiAction::SftpMkdir(path));
            } else {
                actions.push(GuiAction::SftpTouch(path));
            }
            assert(actions@.drop_last() =~= old(actions)@);
            self.new_name = String::new();
        }
    }
}

/// How many of the first `n` transfers are done.
pub open spec fn done_count(ts: Seq<SftpTransferInfo>, n: nat) -> nat
    decreases n,
{
    if n == 0 {
        0
    } else {
        done_count(ts, (n - 1) as nat) + if ts[n - 1].done {
            1nat
        } else {
            0nat
        }
    }
}

/// How many transfers are running and how many are done.
pub fn count_transfers(ts: &Vec<SftpTransferInfo>) -> (r: (usize, usize))
    ensures
        r.1 == done_count(ts@, ts@.len()),
        r.0 + r.1 == ts@.len(),
{
    let mut done: usize = 0;
    let mut i: usize = 0;
    while i < ts.len()
        invariant
            i <= ts@.len(),
            done <= i,
            done == done_count(ts@, i as nat),
        decreases ts@.len() - i,
    {
        if ts[i].done {
            done = done + 1;
        }
        i = i + 1;
    }
    (ts.len() - done, done)
}

/// The line that counts transfers; finished ones can be cleared.
pub fn transfers_label(ts: &Vec<SftpTransferInfo>) -> (r: (String, bool))
    ensures
        ({
            let done = done_count(ts@, ts@.len());
            &&& r.0@ == number::digits((ts@.len() - done) as nat) + " active, "@ + number::digits(
                done,
            ) + " done"@
            &&& r.1 == (done > 0)
        }),
{
    let (active, done) = count_transfers(ts);
    let mut out: String = String::new();
    number::push_digits(&mut out, active as u64);
    out.append(" active, ");
    number::push_digits(&mut out, done as u64);
    out.append(" done");
    assert(out@ =~= number::digits(active as nat) + " active, "@ + number::digits(done as nat)
        + " done"@);
    (out, done > 0)
}

/// How far a transfer has come.
#[derive(Debug, Clone, Copy, PartialEq, Eq, Structural)]
pub enum Progress {
    /// So many bytes of so many, at most all.
    Part { bytes: u64, total: u64 },
    Full,
    Empty,
}

/// A row of the list of transfers.
#[derive(Debug)]
pub struct TransferRow {
    /// The direction and the file's name.
    pub label: String,
    /// The bytes so far and in all.
    pub sizes: String,
    pub color: [u8; 3],
    pub progress: Progress,
}

/// A row is the one of a transfer.
pub open spec fn is_transfer_row(r: TransferRow, t: SftpTransferInfo) -> bool {
    &&& r.label@ == if t.direction@ == "Upload"@ {
        "↑ "@ + last_part(t.remote_path@)
    } else {
        "↓ "@ + last_part(t.remote_path@)
    }
    &&& r.sizes@ == readable::size_text(t.bytes as nat) + " / "@ + if t.total > 0 {
        readable::size_text(t.total as nat)
    } else {
        "?"@
    }
    &&& r.color == if t.error is Some {
        [204u8, 36, 29]
    } else if t.done {
        [22u8, 160, 70]
    } else {
        [0u8, 120, 212]
    }
    &&& r.progress == if t.total > 0 {
        Progress::Part {
            bytes: if t.bytes <= t.total {
                t.bytes
            } else {
                t.total
            },
            total: t.total,
        }
    } else if t.done {
        Progress::Full
    } else {
        Progress::Empty
    }
}

/// The row of a transfer.
pub fn transfer_row(t: &SftpTransferInfo) -> (r: TransferRow)
    ensures
        is_transfer_row(r, *t),
{
    let direction: Vec<char> = text::to_chars(t.direction);
    let mut label: String = if text::is_text(&direction, "Upload") {
        "↑ ".to_owned()
    } else {
        "↓ ".to_owned()
    };
    let name: String = file_name(t.remote_path.as_str());
    label.append(name.as_str());
    let mut sizes: String = readable::fmt_size(t.bytes);
    sizes.append(" / ");
    if t.total > 0 {
        let total: String = readable::fmt_size(t.total);
        sizes.append(total.as_str());
    } else {
        sizes.append("?");
    }
    let color: [u8; 3] = if t.error.is_some() {
        [204, 36, 29]
    } else if t.done {
        [22, 160, 70]
    } else {
        [0, 120, 212]
    };
    let progress: Progress = if t.total > 0 {
        if t.bytes <= t.total {
            Progress::Part { bytes: t.bytes, total: t.total }
        } else {
            Progress::Part { bytes: t.total, total: t.total }
        }
    } else if t.done {
        Progress::Full
    } else {
        Progress::Empty
    };
    TransferRow { label, sizes, color, progress }
}

/// The texts of a row of the listing that are worked out; the others are the entry's own.
#[derive(Debug)]
pub struct EntryRow {
    pub icon: &'static str,
    pub color: [u8; 3],
    pub size: String,
    /// A directory is opened, anything else can be downloaded.
    pub opens: bool,
}

/// A row is the one of an entry.
pub open spec fn is_entry_row(r: EntryRow, e: SftpEntry) -> bool {
    &&& r.icon@ == if e.is_dir {
        "D"@
    } else if e.file_type@ == "link"@ {
        "L"@
    } else {
        "-"@
    }
    &&& r.color == if e.is_dir {
        [0u8, 95, 160]
    } else if e.file_type@ == "link"@ {
        [160u8, 60, 100]
    } else {
        [50u8, 50, 50]
    }
    &&& r.size@ == if e.is_dir {
        "-"@
    } else {
        readable::size_text(e.size as nat)
    }
    &&& r.opens == e.is_dir
}

/// The row of an entry.
pub fn entry_row(e: &SftpEntry) -> (r: EntryRow)
    ensures
        is_entry_row(r, *e),
{
    if e.is_dir {
        return EntryRow { icon: "D", color: [0, 95, 160], size: "-".to_owned(), opens: true };
    }
    let file_type: Vec<char> = text::to_chars(e.file_type.as_str());
    let size: String = readable::fmt_size(e.size);
    if text::is_text(&file_type, "link") {
        EntryRow { icon: "L", color: [160, 60, 100], size, opens: false }
    } else {
        EntryRow { icon: "-", color: [50, 50, 50], size, opens: false }
    }
}

/// The places, in order, of the directories among the first `n` entries.
pub open spec fn dirs(entries: Seq<SftpEntry>, n: nat) -> Seq<usize>
    decreases n,
{
    if n == 0 {
        Seq::empty()
    } else if entries[n - 1].is_dir {
        dirs(entries, (n - 1) as nat).push((n - 1) as usize)
    } else {
        dirs(entries, (n - 1) as nat)
    }
}

/// The directories among the entries, by their place.
pub fn directories(entries: &Vec<SftpEntry>) -> (r: Vec<usize>)
    ensures
        r@ == dirs(entries@, entries@.len()),
{
    let mut out: Vec<usize> = Vec::new();
    let mut i: usize = 0;
    while i < entries.len()
        invariant
            i <= entries@.len(),
            out@ == dirs(entries@, i as nat),
        decreases entries@.len() - i,
    {
        if entries[i].is_dir {
            out.push(i);
        }
        i = i + 1;
    }
    out
}

/// Handles the opening or downloading of an entry: a directory is gone to, anything else fetched.
pub fn entry_chosen(e: &SftpEntry, actions: &mut Vec<GuiAction>)
    ensures
        final(actions)@ == old(actions)@.push(
            if e.is_dir {
                GuiAction::SftpNavigate(e.path)
            } else {
                GuiAction::SftpDownload(e.path)
            },
        ),
{
    if e.is_dir {
        actions.push(GuiAction::SftpNavigate(e.path.clone()));
    } else {
        actions.push(GuiAction::SftpDownload(e.path.clone()));
    }
}

/// The line that tells of an error.
pub fn error_label(error: &str) -> (r: String)
    ensures
        r@ == "Error: "@ + error@,
{
    let mut out: String = "Error: ".to_owned();
    out.append(error);
    out
}

/// A path that ends in slashes names the same directory as without them, and a file in it has the
/// path of the directory, one slash and its name.
pub proof fn law_path_in_directory(dir: Seq<char>, name: Seq<char>)
    requires
        dir.len() > 0 ==> dir.last() != '/',
    ensures
        path_in(dir, name) == dir + seq!['/'] + name,
        path_in(dir + seq!['/'], name) == path_in(dir, name),
{
    assert((dir + seq!['/']).drop_last() =~= dir);
}

/// The name at the end of a path holds no slash, and before it stands nothing or a slash.
pub proof fn law_name_ends_path(path: Seq<char>)
    ensures
        ({
            let name = last_part(path);
            let from = path.len() - name.len();
            &&& from >= 0
            &&& path.skip(from) == name
            &&& from > 0 ==> path[from - 1] == '/'
            &&& forall|i: int| 0 <= i < name.len() ==> #[trigger] name[i] != '/'
        }),
    decreases path.len(),
{
    if path.len() > 0 && path.last() != '/' {
        law_name_ends_path(path.drop_last());
        let name = last_part(path);
        let from = path.len() - name.len();
        assert(path.skip(from) =~= path.drop_last().skip(from).push(path.last()));
    } else {
        assert(path.skip(path.len() as int) =~= Seq::empty());
    }
}

/// Of transfers none is counted as done where none is, all where all are, and never more than there
/// are; one more that is done counts one more.
pub proof fn law_done_counts(ts: Seq<SftpTransferInfo>, n: nat)
    requires
        n <= ts.len(),
    ensures
        done_count(ts, n) <= n,
        (forall|i: int| 0 <= i < n ==> (#[trigger] ts[i]).done) ==> done_count(ts, n) == n,
        (forall|i: int| 0 <= i < n ==> !(#[trigger] ts[i]).done) ==> done_count(ts, n) == 0,
        n < ts.len() && ts[n as int].done ==> done_count(ts, n + 1) == done_count(ts, n) + 1,
        n < ts.len() && !ts[n as int].done ==> done_count(ts, n + 1) == done_count(ts, n),
    decreases n,
{
    if n > 0 {
        law_done_counts(ts, (n - 1) as nat);
    }
}

} // verus!
