//! The system panel: the chosen network interface, the order of the processes, and texts.

use crate::gui::{ProcessSnapshot, ServerStatusSnapshot};
use crate::number;
use crate::readable;
use crate::sftp_panel;
use crate::text;
use vstd::prelude::*;
use vstd::string::StringExecFns;

verus! {

/// What is chosen in the panel.
#[derive(Debug, Clone, Copy, PartialEq, Eq, Structural)]
pub struct SystemChoice {
    /// Selected network interface index (None = aggregate all).
    pub selected_net_if: Option<usize>,
    /// Process sort column: 0 = CPU (default), 1 = Memory.
    pub proc_sort_col: u8,
    /// Process sort ascending (false = descending, default).
    pub proc_sort_asc: bool,
}

/// How serious a number is.
#[derive(Debug, Clone, Copy, PartialEq, Eq, Structural)]
pub enum Level {
    High,
    Medium,
    Low,
}

/// How serious a round trip time is: over 500 ms, over 200 ms, or less.
pub fn latency_level(ms: u32) -> (r: Level)
    ensures
        r == if ms > 500 {
            Level::High
        } else if ms > 200 {
            Level::Medium
        } else {
            Level::Low
        },
{
    if ms > 500 {
        Level::High
    } else if ms > 200 {
        Level::Medium
    } else {
        Level::Low
    }
}

/// The colour of a level: red, yellow or green.
pub fn level_color(level: Level) -> (r: [u8; 3])
    ensures
        r == match level {
            Level::High => [210u8, 50, 45],
            Level::Medium => [200u8, 150, 0],
            Level::Low => [22u8, 160, 70],
        },
{
    match level {
        Level::High => [210, 50, 45],
        Level::Medium => [200, 150, 0],
        Level::Low => [22, 160, 70],
    }
}

/// Memory in use and in all.
pub fn memory_label(ss: &ServerStatusSnapshot) -> (r: String)
    ensures
        r@ == readable::mem_text(ss.mem_used_mb as nat) + "/"@ + readable::mem_text(
            ss.mem_total_mb as nat,
        ),
{
    let mut out: String = readable::fmt_mem_mb(ss.mem_used_mb);
    out.append("/");
    let total: String = readable::fmt_mem_mb(ss.mem_total_mb);
    out.append(total.as_str());
    out
}

/// The round trip time in words.
pub fn latency_label(ms: u32) -> (r: String)
    ensures
        r@ == number::digits(ms as nat) + "ms"@,
{
    let mut out: String = String::new();
    number::push_digits(&mut out, ms as u64);
    out.append("ms");
    assert(out@ =~= number::digits(ms as nat) + "ms"@);
    out
}

/// The number in a usage such as `42%`, still as text.
pub fn percent_number(use_pct: &str) -> (r: String)
    ensures
        r@ == sftp_panel::without_trailing(use_pct@, '%'),
{
    let mut chars: Vec<char> = text::to_chars(use_pct);
    sftp_panel::trim_trailing(&mut chars, '%');
    text::to_string(&chars)
}

/// The key that a process is sorted by.
pub open spec fn sort_key(p: ProcessSnapshot, col: u8) -> int {
    if col == 1 {
        p.mem_kb as int
    } else {
        p.cpu_rank as int
    }
}

/// The process at `a` is listed before the one at `b`: its key comes first in the order, or the
/// keys are the same and it came first.
pub open spec fn goes_before(
    procs: Seq<ProcessSnapshot>,
    col: u8,
    asc: bool,
    a: int,
    b: int,
) -> bool {
    let x = sort_key(procs[a], col);
    let y = sort_key(procs[b], col);
    (if asc {
        x < y
    } else {
        x > y
    }) || (x == y && a < b)
}

/// A list of places holds each of the first `n` processes, in order.
pub open spec fn in_order(
    list: Seq<usize>,
    procs: Seq<ProcessSnapshot>,
    col: u8,
    asc: bool,
    n: nat,
) -> bool {
    &&& list.len() == n
    &&& forall|i: int| 0 <= i < list.len() ==> (#[trigger] list[i]) < n
    &&& forall|i: int, j: int|
        0 <= i < j < list.len() ==> goes_before(
            procs,
            col,
            asc,
            (#[trigger] list[i]) as int,
            (#[trigger] list[j]) as int,
        )
    &&& forall|k: int| 0 <= k < n ==> list.contains(#[trigger] (k as usize))
}

fn key_before(a: &ProcessSnapshot, b: &ProcessSnapshot, col: u8, asc: bool) -> (r: bool)
    ensures
        r == if asc {
            sort_key(*a, col) < sort_key(*b, col)
        } else {
            sort_key(*a, col) > sort_key(*b, col)
        },
{
    if col == 1 {
        if asc {
            a.mem_kb < b.mem_kb
        } else {
            a.mem_kb > b.mem_kb
        }
    } else if asc {
        a.cpu_rank < b.cpu_rank
    } else {
        a.cpu_rank > b.cpu_rank
    }
}

/// The places of the processes in the order in which they are listed.
pub fn sort_processes(procs: &Vec<ProcessSnapshot>, col: u8, asc: bool) -> (r: Vec<usize>)
    ensures
        in_order(r@, procs@, col, asc, procs@.len()),
{
    let mut list: Vec<usize> = Vec::new();
    let mut i: usize = 0;
    while i < procs.len()
        invariant
            i <= procs@.len(),
            in_order(list@, procs@, col, asc, i as nat),
        decreases procs@.len() - i,
    {
        let ghost before = list@;
        let mut at: usize = 0;
        while at < list.len() && !key_before(&procs[i], &procs[list[at]], col, asc)
            invariant
                i < procs@.len(),
                at <= list@.len(),
                list@ == before,
                in_order(before, procs@, col, asc, i as nat),
                forall|k: int|
                    0 <= k < at ==> goes_before(procs@, col, asc, (#[trigger] before[k]) as int, i as int),
            decreases list@.len() - at,
        {
            at = at + 1;
        }
        list.insert(at, i);
        proof {
            assert(list@ == before.insert(at as int, i));
            assert forall|k: int| 0 <= k < i + 1 implies list@.contains(#[trigger] (k as usize)) by {
                if k == i {
                    assert(list@[at as int] == k as usize);
                } else {
                    let h = choose|h: int| 0 <= h < before.len() && before[h] == k as usize;
                    if h < at {
                        assert(list@[h] == k as usize);
                    } else {
                        assert(list@[h + 1] == k as usize);
                    }
                }
            }
            assert forall|j: int, k: int| 0 <= j < k < list@.len() implies goes_before(
                procs@,
                col,
                asc,
                (#[trigger] list@[j]) as int,
                (#[trigger] list@[k]) as int,
            ) by {
                let oj = if j < at {
                    j
                } else {
                    j - 1
                };
                let ok = if k < at {
                    k
                } else {
                    k - 1
                };
                if j != at {
                    assert(list@[j] == before[oj]);
                }
                if k != at {
                    assert(list@[k] == before[ok]);
                }
                if j == at && ok > at {
                    assert(goes_before(
                        procs@,
                        col,
                        asc,
                        before[at as int] as int,
                        before[ok] as int,
                    ));
                }
            }
        }
        i = i + 1;
    }
    list
}

/// There is only one order: two lists that are in order are the same.
pub proof fn law_order_unique(
    a: Seq<usize>,
    b: Seq<usize>,
    procs: Seq<ProcessSnapshot>,
    col: u8,
    asc: bool,
    n: nat,
)
    requires
        n <= usize::MAX,
        in_order(a, procs, col, asc, n),
        in_order(b, procs, col, asc, n),
    ensures
        a == b,
{
    assert forall|i: int| 0 <= i < n implies a[i] == b[i] by {
        lemma_same_at(a, b, procs, col, asc, n, i);
    }
    assert(a =~= b);
}

proof fn lemma_same_at(
    a: Seq<usize>,
    b: Seq<usize>,
    procs: Seq<ProcessSnapshot>,
    col: u8,
    asc: bool,
    n: nat,
    i: int,
)
    requires
        n <= usize::MAX,
        in_order(a, procs, col, asc, n),
        in_order(b, procs, col, asc, n),
        0 <= i < n,
    ensures
        a[i] == b[i],
    decreases i,
{
    assert forall|j: int| 0 <= j < i implies a[j] == b[j] by {
        lemma_same_at(a, b, procs, col, asc, n, j);
    }
    if a[i] != b[i] {
        assert(b.contains((a[i] as int) as usize));
        let p = choose|p: int| 0 <= p < b.len() && b[p] == a[i];
        assert(a.contains((b[i] as int) as usize));
        let q = choose|q: int| 0 <= q < a.len() && a[q] == b[i];
        if p < i {
            assert(a[p] == b[p]);
            assert(goes_before(procs, col, asc, a[p] as int, a[i] as int));
        }
        if q < i {
            assert(a[q] == b[q]);
            assert(goes_before(procs, col, asc, b[q] as int, b[i] as int));
        }
        assert(goes_before(procs, col, asc, b[i] as int, b[p] as int));
        assert(goes_before(procs, col, asc, a[i] as int, a[q] as int));
    }
}

impl SystemChoice {
    /// All interfaces, processes by CPU from the top.
    pub fn new() -> (r: SystemChoice)
        ensures
            r == (SystemChoice { selected_net_if: None, proc_sort_col: 0, proc_sort_asc: false }),
    {
        SystemChoice { selected_net_if: None, proc_sort_col: 0, proc_sort_asc: false }
    }

    /// The interface whose history is shown; none for all of them, or where the chosen one is
    /// gone.
    pub open spec fn shown_interface(self, interfaces: Seq<String>) -> Option<usize> {
        match self.selected_net_if {
            Some(i) => if i < interfaces.len() {
                Some(i)
            } else {
                None
            },
            None => None,
        }
    }

    /// The interface whose history is shown.
    pub fn interface(&self, interfaces: &Vec<String>) -> (r: Option<usize>)
        ensures
            r == self.shown_interface(interfaces@),
    {
        match self.selected_net_if {
            Some(i) => if i < interfaces.len() {
                Some(i)
            } else {
                None
            },
            None => None,
        }
    }

    /// The name of the interface whose history is shown.
    pub fn interface_label(&self, interfaces: &Vec<String>) -> (r: String)
        ensures
            r@ == match self.shown_interface(interfaces@) {
                Some(i) => interfaces@[i as int]@,
                None => "All"@,
            },
    {
        match self.interface(interfaces) {
            Some(i) => interfaces[i].clone(),
            None => "All".to_owned(),
        }
    }

    /// What a column's header shows behind its name: an arrow where the list is sorted by it.
    pub open spec fn arrow(self, col: u8) -> Seq<char> {
        if self.proc_sort_col != col {
            Seq::empty()
        } else if self.proc_sort_asc {
            " ▲"@
        } else {
            " ▼"@
        }
    }

    /// The header of a column.
    pub fn header(&self, col: u8) -> (r: String)
        ensures
            r@ == if col == 1 {
                "Mem"@ + self.arrow(col)
            } else {
                "CPU"@ + self.arrow(col)
            },
    {
        let mut out: String = if col == 1 {
            "Mem".to_owned()
        } else {
            "CPU".to_owned()
        };
        let ghost name = out@;
        if self.proc_sort_col == col {
            if self.proc_sort_asc {
                out.append(" ▲");
            } else {
                out.append(" ▼");
            }
        }
        assert(out@ =~= name + self.arrow(col));
        out
    }

    /// The choice after a click on a column's header: the column the list is sorted by turns
    /// round, another one sorts from the top.
    pub open spec fn after_header(self, col: u8) -> SystemChoice {
        if self.proc_sort_col == col {
            SystemChoice { proc_sort_asc: !self.proc_sort_asc, ..self }
        } else {
            SystemChoice { proc_sort_col: col, proc_sort_asc: false, ..self }
        }
    }

    /// Handles a click on a column's header.
    pub fn header_clicked(&mut self, col: u8)
        ensures
            *final(self) == old(self).after_header(col),
    {
        if self.proc_sort_col == col {
            self.proc_sort_asc = !self.proc_sort_asc;
        } else {
            self.proc_sort_col = col;
            self.proc_sort_asc = false;
        }
    }
}

/// Two clicks on the header of the sorted column leave the order as it was.
pub proof fn law_header_twice(c: SystemChoice)
    ensures
        c.after_header(c.proc_sort_col).after_header(c.proc_sort_col) == c,
{
}

/// A list in order by memory has the memory, and one by processor time the processor's, rising or
/// falling as asked; processes that are equal stay as they came.
pub proof fn law_sorted_list(
    list: Seq<usize>,
    procs: Seq<ProcessSnapshot>,
    col: u8,
    asc: bool,
    i: int,
    j: int,
)
    requires
        in_order(list, procs, col, asc, procs.len()),
        0 <= i < j < list.len(),
    ensures
        ({
            let (a, b) = (procs[list[i] as int], procs[list[j] as int]);
            &&& list[i] != list[j]
            &&& col == 1 && asc ==> a.mem_kb <= b.mem_kb
            &&& col == 1 && !asc ==> a.mem_kb >= b.mem_kb
            &&& col != 1 && asc ==> a.cpu_rank <= b.cpu_rank
            &&& col != 1 && !asc ==> a.cpu_rank >= b.cpu_rank
            &&& col == 1 && a.mem_kb == b.mem_kb ==> list[i] < list[j]
            &&& col != 1 && a.cpu_rank == b.cpu_rank ==> list[i] < list[j]
        }),
{
    assert(goes_before(procs, col, asc, list[i] as int, list[j] as int));
}

} // verus!
