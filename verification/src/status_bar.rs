//! The status bar: what it says about the active tab.

use crate::gui::{ServerStatusSnapshot, TabInfo};
use crate::number;
use vstd::prelude::*;
use vstd::string::StringExecFns;

verus! {

/// One entry of the status bar.
#[derive(Debug)]
pub struct StatusItem {
    pub text: String,
    pub color: Option<[u8; 3]>,
    pub small: bool,
    /// What hovering over the entry shows.
    pub hover: Option<String>,
}

/// An entry of the status bar, with texts as sequences of characters.
pub ghost struct ItemView {
    pub text: Seq<char>,
    pub color: Option<[u8; 3]>,
    pub small: bool,
    pub hover: Option<Seq<char>>,
}

impl View for StatusItem {
    type V = ItemView;

    open spec fn view(&self) -> ItemView {
        ItemView {
            text: self.text@,
            color: self.color,
            small: self.small,
            hover: match self.hover {
                Some(h) => Some(h@),
                None => None,
            },
        }
    }
}

/// The entries, with texts as sequences of characters.
pub open spec fn views(items: Seq<StatusItem>) -> Seq<ItemView> {
    items.map_values(|i: StatusItem| i@)
}

pub open spec fn red() -> [u8; 3] {
    [204, 36, 29]
}

pub open spec fn yellow() -> [u8; 3] {
    [250, 189, 47]
}

pub open spec fn green() -> [u8; 3] {
    [152, 151, 26]
}

pub open spec fn faded() -> [u8; 3] {
    [146, 131, 116]
}

/// The colour of a number: above the first bound red, above the second yellow, else green.
pub open spec fn graded(n: nat, high: nat, medium: nat) -> [u8; 3] {
    if n > high {
        red()
    } else if n > medium {
        yellow()
    } else {
        green()
    }
}

/// The colour of a number by two bounds.
pub fn grade(n: u32, high: u32, medium: u32) -> (r: [u8; 3])
    ensures
        r == graded(n as nat, high as nat, medium as nat),
{
    if n > high {
        [204, 36, 29]
    } else if n > medium {
        [250, 189, 47]
    } else {
        [152, 151, 26]
    }
}

/// The connection: its state in words and in colour.
pub open spec fn connection_item(tab: TabInfo) -> ItemView {
    let (text, color) = if tab.is_ssh {
        if tab.is_connected {
            ("SSH Connected"@, green())
        } else {
            ("Disconnected"@, red())
        }
    } else {
        ("Local"@, [69u8, 133, 136])
    };
    ItemView { text, color: Some(color), small: false, hover: None }
}

/// Text without colour.
pub open spec fn plain(text: Seq<char>) -> ItemView {
    ItemView { text, color: None, small: false, hover: None }
}

/// The mark of an operating system.
pub open spec fn os_mark(os: Seq<char>) -> Seq<char> {
    if os == "Linux"@ {
        "[L]"@
    } else if os == "Darwin"@ {
        "[M]"@
    } else {
        "[?]"@
    }
}

pub open spec fn os_items(ss: ServerStatusSnapshot) -> Seq<ItemView> {
    if ss.os@.len() == 0 {
        Seq::empty()
    } else {
        seq![
            ItemView {
                text: os_mark(ss.os@) + " "@ + ss.os@,
                color: Some([184u8, 187, 38]),
                small: false,
                hover: Some(
                    "OS: "@ + ss.os@ + "\nKernel: "@ + ss.kernel@ + "\nHostname: "@ + ss.hostname@,
                ),
            },
        ]
    }
}

pub open spec fn host_items(ss: ServerStatusSnapshot) -> Seq<ItemView> {
    if ss.hostname@.len() == 0 {
        Seq::empty()
    } else {
        seq![ItemView { text: ss.hostname@, color: Some(yellow()), small: false, hover: None }]
    }
}

/// A small faded text behind a label, with the whole story on hovering; nothing for no text.
pub open spec fn noted(
    label: Seq<char>,
    text: Seq<char>,
    hover_label: Option<Seq<char>>,
) -> Seq<ItemView> {
    if text.len() == 0 {
        Seq::empty()
    } else {
        seq![
            ItemView {
                text: label + text,
                color: Some(faded()),
                small: true,
                hover: match hover_label {
                    Some(h) => Some(h + text),
                    None => None,
                },
            },
        ]
    }
}

pub open spec fn memory_items(ss: ServerStatusSnapshot, percent: u32) -> Seq<ItemView> {
    if ss.mem_total_mb == 0 {
        Seq::empty()
    } else {
        seq![
            ItemView {
                text: "Mem: "@ + number::digits(percent as nat) + "%"@,
                color: Some(graded(percent as nat, 90, 70)),
                small: true,
                hover: Some(
                    "Memory: "@ + number::digits(ss.mem_used_mb as nat) + " / "@ + number::digits(
                        ss.mem_total_mb as nat,
                    ) + " MB ("@ + number::digits(percent as nat) + "%)"@,
                ),
            },
        ]
    }
}

pub open spec fn latency_items(ss: ServerStatusSnapshot) -> Seq<ItemView> {
    if ss.latency_ms == 0 {
        Seq::empty()
    } else {
        seq![
            ItemView {
                text: number::digits(ss.latency_ms as nat) + "ms"@,
                color: Some(graded(ss.latency_ms as nat, 500, 200)),
                small: true,
                hover: None,
            },
        ]
    }
}

/// What the bar says of a server; what is not known is left out.
pub open spec fn server_items(ss: ServerStatusSnapshot, percent: u32) -> Seq<ItemView> {
    os_items(ss) + host_items(ss) + noted("Up: "@, ss.uptime@, Some("Uptime: "@)) + noted(
        "Load: "@,
        ss.load_avg@,
        Some("Load Average (1/5/15): "@),
    ) + memory_items(ss, percent) + noted("Disk: "@, ss.disk_usage@, None) + latency_items(ss)
        + noted("Dur: "@, ss.connection_duration@, None)
}

/// What the bar says of a tab.
pub open spec fn tab_items(tab: TabInfo, percent: u32) -> Seq<ItemView> {
    seq![
        connection_item(tab),
        plain("UTF-8"@),
        plain(number::digits(tab.cols as nat) + "x"@ + number::digits(tab.rows as nat)),
    ] + match tab.server_status {
        Some(ss) => server_items(ss, percent),
        None => Seq::empty(),
    }
}

/// What the bar says of the active tab, or that there is none.
pub open spec fn bar_items(tabs: Seq<TabInfo>, active_tab: nat, percent: u32) -> Seq<ItemView> {
    if active_tab < tabs.len() {
        tab_items(tabs[active_tab as int], percent)
    } else {
        seq![plain("No active session"@)]
    }
}

proof fn lemma_views_push(items: Seq<StatusItem>, item: StatusItem)
    ensures
        views(items.push(item)) == views(items).push(item@),
{
    assert(views(items.push(item)) =~= views(items).push(item@));
}

fn push_item(out: &mut Vec<StatusItem>, item: StatusItem)
    ensures
        views(final(out)@) == views(old(out)@) + seq![item@],
{
    proof {
        lemma_views_push(out@, item);
    }
    out.push(item);
    assert(views(out@) =~= views(old(out)@) + seq![item@]);
}

fn joined2(a: &str, b: &str) -> (r: String)
    ensures
        r@ == a@ + b@,
{
    let mut out: String = a.to_owned();
    out.append(b);
    out
}

fn push_os(out: &mut Vec<StatusItem>, ss: &ServerStatusSnapshot)
    ensures
        views(final(out)@) == views(old(out)@) + os_items(*ss),
{
    if !ss.os.as_str().is_empty() {
        let linux: String = "Linux".to_owned();
        let darwin: String = "Darwin".to_owned();
        let mark = if ss.os == linux {
            "[L]"
        } else if ss.os == darwin {
            "[M]"
        } else {
            "[?]"
        };
        let mut text: String = joined2(mark, " ");
        text.append(ss.os.as_str());
        let mut hover: String = joined2("OS: ", ss.os.as_str());
        hover.append("\nKernel: ");
        hover.append(ss.kernel.as_str());
        hover.append("\nHostname: ");
        hover.append(ss.hostname.as_str());
        let item = StatusItem { text, color: Some([184, 187, 38]), small: false, hover: Some(hover) };
        push_item(out, item);
    } else {
        assert(views(out@) =~= views(old(out)@) + os_items(*ss));
    }
}

fn push_host(out: &mut Vec<StatusItem>, ss: &ServerStatusSnapshot)
    ensures
        views(final(out)@) == views(old(out)@) + host_items(*ss),
{
    if !ss.hostname.as_str().is_empty() {
        let item = StatusItem {
            text: ss.hostname.clone(),
            color: Some([250, 189, 47]),
            small: false,
            hover: None,
        };
        push_item(out, item);
    } else {
        assert(views(out@) =~= views(old(out)@) + host_items(*ss));
    }
}

fn push_noted(out: &mut Vec<StatusItem>, label: &str, text: &str, hover_label: Option<&str>)
    ensures
        views(final(out)@) == views(old(out)@) + noted(
            label@,
            text@,
            match hover_label {
                Some(h) => Some(h@),
                None => None,
            },
        ),
{
    if !text.is_empty() {
        let hover: Option<String> = match hover_label {
            Some(h) => Some(joined2(h, text)),
            None => None,
        };
        let item = StatusItem {
            text: joined2(label, text),
            color: Some([146, 131, 116]),
            small: true,
            hover,
        };
        push_item(out, item);
    } else {
        assert(views(out@) =~= views(old(out)@) + Seq::empty());
    }
}

fn push_memory(out: &mut Vec<StatusItem>, ss: &ServerStatusSnapshot, percent: u32)
    ensures
        views(final(out)@) == views(old(out)@) + memory_items(*ss, percent),
{
    if ss.mem_total_mb > 0 {
        let mut text: String = "Mem: ".to_owned();
        number::push_digits(&mut text, percent as u64);
        text.append("%");
        let mut hover: String = "Memory: ".to_owned();
        number::push_digits(&mut hover, ss.mem_used_mb);
        hover.append(" / ");
        number::push_digits(&mut hover, ss.mem_total_mb);
        hover.append(" MB (");
        number::push_digits(&mut hover, percent as u64);
        hover.append("%)");
        let item = StatusItem {
            text,
            color: Some(grade(percent, 90, 70)),
            small: true,
            hover: Some(hover),
        };
        push_item(out, item);
    } else {
        assert(views(out@) =~= views(old(out)@) + memory_items(*ss, percent));
    }
}

fn push_latency(out: &mut Vec<StatusItem>, ss: &ServerStatusSnapshot)
    ensures
        views(final(out)@) == views(old(out)@) + latency_items(*ss),
{
    if ss.latency_ms > 0 {
        let mut text: String = String::new();
        number::push_digits(&mut text, ss.latency_ms as u64);
        text.append("ms");
        assert(text@ =~= number::digits(ss.latency_ms as nat) + "ms"@);
        let item = StatusItem {
            text,
            color: Some(grade(ss.latency_ms, 500, 200)),
            small: true,
            hover: None,
        };
        push_item(out, item);
    } else {
        assert(views(out@) =~= views(old(out)@) + latency_items(*ss));
    }
}

fn push_server(out: &mut Vec<StatusItem>, ss: &ServerStatusSnapshot, percent: u32)
    ensures
        views(final(out)@) == views(old(out)@) + server_items(*ss, percent),
{
    push_os(out, ss);
    push_host(out, ss);
    push_noted(out, "Up: ", ss.uptime.as_str(), Some("Uptime: "));
    push_noted(out, "Load: ", ss.load_avg.as_str(), Some("Load Average (1/5/15): "));
    push_memory(out, ss, percent);
    push_noted(out, "Disk: ", ss.disk_usage.as_str(), None);
    push_latency(out, ss);
    push_noted(out, "Dur: ", ss.connection_duration.as_str(), None);
    assert(views(out@) =~= views(old(out)@) + server_items(*ss, percent));
}

fn push_plain(out: &mut Vec<StatusItem>, text: String)
    ensures
        views(final(out)@) == views(old(out)@) + seq![plain(text@)],
{
    push_item(out, StatusItem { text, color: None, small: false, hover: None });
}

fn push_connection(out: &mut Vec<StatusItem>, tab: &TabInfo)
    ensures
        views(final(out)@) == views(old(out)@) + seq![connection_item(*tab)],
{
    let item = if tab.is_ssh {
        if tab.is_connected {
            StatusItem {
                text: "SSH Connected".to_owned(),
                color: Some([152, 151, 26]),
                small: false,
                hover: None,
            }
        } else {
            StatusItem {
                text: "Disconnected".to_owned(),
                color: Some([204, 36, 29]),
                small: false,
                hover: None,
            }
        }
    } else {
        StatusItem {
            text: "Local".to_owned(),
            color: Some([69, 133, 136]),
            small: false,
            hover: None,
        }
    };
    push_item(out, item);
}

/// What the status bar says of the active tab, entry by entry. `mem_percent` is the part of the
/// active tab's server memory that is in use.
pub fn status_items(tabs: &Vec<TabInfo>, active_tab: usize, mem_percent: u32) -> (r: Vec<StatusItem>)
    ensures
        views(r@) == bar_items(tabs@, active_tab as nat, mem_percent),
{
    let mut out: Vec<StatusItem> = Vec::new();
    if active_tab < tabs.len() {
        let tab = &tabs[active_tab];
        push_connection(&mut out, tab);
        push_plain(&mut out, "UTF-8".to_owned());
        let mut size: String = String::new();
        number::push_digits(&mut size, tab.cols as u64);
        size.append("x");
        number::push_digits(&mut size, tab.rows as u64);
        assert(size@ =~= number::digits(tab.cols as nat) + "x"@ + number::digits(tab.rows as nat));
        push_plain(&mut out, size);
        if let Some(ss) = &tab.server_status {
            push_server(&mut out, ss, mem_percent);
        }
        assert(views(out@) =~= tab_items(*tab, mem_percent));
    } else {
        push_plain(&mut out, "No active session".to_owned());
        assert(views(out@) =~= bar_items(tabs@, active_tab as nat, mem_percent));
    }
    out
}

/// A local tab shows three entries: where it runs, the encoding and its size.
pub proof fn law_local_tab_entries(tab: TabInfo, percent: u32)
    requires
        !tab.is_ssh,
        tab.server_status is None,
    ensures
        tab_items(tab, percent).len() == 3,
        tab_items(tab, percent)[0].text == "Local"@,
        tab_items(tab, percent)[1].text == "UTF-8"@,
{
}

/// The bar says of the active tab whether it is connected, green where it is and red where it is
/// not, and its size in columns by rows; where no tab is active it says so.
pub proof fn law_bar_of_active_tab(tabs: Seq<TabInfo>, active_tab: nat, percent: u32)
    ensures
        ({
            let items = bar_items(tabs, active_tab, percent);
            let tab = tabs[active_tab as int];
            &&& active_tab >= tabs.len() ==> items.len() == 1 && items[0].text
                == "No active session"@
            &&& active_tab < tabs.len() ==> {
                &&& items.len() >= 3
                &&& tab.is_ssh && tab.is_connected ==> items[0].text == "SSH Connected"@
                    && items[0].color == Some([152u8, 151, 26])
                &&& tab.is_ssh && !tab.is_connected ==> items[0].text == "Disconnected"@
                    && items[0].color == Some([204u8, 36, 29])
                &&& !tab.is_ssh ==> items[0].text == "Local"@
                &&& items[2].text == number::digits(tab.cols as nat) + "x"@ + number::digits(
                    tab.rows as nat,
                )
            }
        }),
{
}

/// A number is green up to its lower bound, yellow up to its upper one, and red above.
pub proof fn law_grades(n: nat, high: nat, medium: nat)
    requires
        medium <= high,
    ensures
        n <= medium ==> graded(n, high, medium) == [152u8, 151, 26],
        medium < n <= high ==> graded(n, high, medium) == [250u8, 189, 47],
        n > high ==> graded(n, high, medium) == [204u8, 36, 29],
{
}

} // verus!
