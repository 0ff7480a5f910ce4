//! The window: menus, panels and dialogs.

use nexterm::agent_panel::{message_style, AgentChat};
use nexterm::find_bar::{FindBar, FindClicks, FindKeys};
use nexterm::gui::{
    background_step, frame_panels, label_of_tool, menu_clicked, mode_tip, scroll_alphas,
    scroll_drag, scroll_to, session_panel_label, shell_clicked, shell_label, tab_background,
    tab_clicked, tab_close_clicked, tab_dot, tool_clicked, AgentChatMessage, AgentChatRole,
    BackgroundStep, DiskSnapshot, Grip, GuiAction, HistoryItem, MenuItem, Panels, ProcessSnapshot,
    ScrollInfo, ScrollPointer, ServerStatusSnapshot, SftpBrowserSnapshot, SftpEntry,
    SftpTransferInfo, ShellInfo, SshAuthInput, SshProfileEntry, TabInfo, TerminalDisplayMode,
    ToolButton,
};
use nexterm::history_panel::{
    count_label, entry_clicked, entry_time, exit_color, filter_history, is_showable, shorten,
};
use nexterm::session_panel as sessions;
use nexterm::settings::{settings_clicked, Settings};
use nexterm::sftp_panel as files;
use nexterm::ssh_dialog::{DialogButton, SshForm};
use nexterm::state::GuiState;
use nexterm::status_bar::status_items;
use nexterm::system_panel as system;

fn said(a: &GuiAction) -> String {
    format!("{a:?}")
}

fn tab(title: &str, is_ssh: bool, is_connected: bool) -> TabInfo {
    TabInfo {
        title: title.to_string(),
        is_active: false,
        is_ssh,
        is_connected,
        cols: 80,
        rows: 24,
        server_status: None,
    }
}

fn status() -> ServerStatusSnapshot {
    ServerStatusSnapshot {
        os: "Linux".into(),
        kernel: "6.1".into(),
        hostname: "web".into(),
        uptime: "3 days".into(),
        load_avg: String::new(),
        mem_total_mb: 1000,
        mem_used_mb: 910,
        disks: vec![DiskSnapshot::default()],
        net_interfaces: vec!["eth0".into(), "lo".into()],
        disk_usage: String::new(),
        latency_ms: 250,
        connection_duration: "1m".into(),
        top_procs: vec![],
    }
}

fn profile(name: &str, group: &str, host: &str) -> SshProfileEntry {
    SshProfileEntry {
        id: name.into(),
        name: name.into(),
        group: group.into(),
        host: host.into(),
        port: 22,
        username: "root".into(),
        auth_display: "Key".into(),
        color_tag: None,
    }
}

#[test]
fn the_window_opens_with_its_defaults() {
    let s = GuiState::new("Fira", "nord", "bash");
    assert!(s.panels.show_session_panel);
    assert!(!s.panels.show_settings && !s.panels.show_agent_panel);
    assert_eq!(s.settings.font_family, "Fira");
    assert_eq!((s.settings.cursor_style, s.settings.scrollback), (1, 100_000));
    assert_eq!((s.ssh.port.as_str(), s.ssh.group.as_str()), ("22", "Default"));
    assert_eq!(s.agent.base_url, "https://api.deepseek.com/v1");
    assert_eq!(s.terminal_mode, TerminalDisplayMode::Normal);
}

#[test]
fn menu_entries_ask_and_show() {
    let mut p = Panels::new();
    let mut a = vec![];
    menu_clicked(&mut p, MenuItem::NewLocal, &mut a);
    menu_clicked(&mut p, MenuItem::Disconnect, &mut a);
    menu_clicked(&mut p, MenuItem::NewSsh, &mut a);
    menu_clicked(&mut p, MenuItem::ToggleSessions, &mut a);
    menu_clicked(&mut p, MenuItem::Find, &mut a);
    let words: Vec<String> = a.iter().map(said).collect();
    assert_eq!(words, ["NewTab", "DisconnectTab(0)", "ToggleSessionPanel"]);
    assert!(p.show_ssh_dialog && !p.show_session_panel && p.show_find_bar);
    menu_clicked(&mut p, MenuItem::SessionManager, &mut a);
    assert!(p.show_session_panel);
}

#[test]
fn toolbar_toggles_undo_themselves() {
    let mut p = Panels::new();
    let mut mode = TerminalDisplayMode::Normal;
    let mut a = vec![];
    for b in [ToolButton::Settings, ToolButton::Sftp, ToolButton::System, ToolButton::Sessions] {
        let before = p;
        tool_clicked(&mut p, &mut mode, b, &mut a);
        assert_ne!(p, before);
        tool_clicked(&mut p, &mut mode, b, &mut a);
        assert_eq!(p, before);
    }
    tool_clicked(&mut p, &mut mode, ToolButton::Mode, &mut a);
    assert_eq!(mode, TerminalDisplayMode::Log);
    assert_eq!(label_of_tool(&p, mode, ToolButton::Mode), "LOG");
    assert_eq!(mode_tip(mode), "切换到普通终端");
    tool_clicked(&mut p, &mut mode, ToolButton::Mode, &mut a);
    assert_eq!(mode, TerminalDisplayMode::Normal);
    assert_eq!(label_of_tool(&p, mode, ToolButton::Sftp), "SFTP");
    p.show_sftp_panel = true;
    assert_eq!(label_of_tool(&p, mode, ToolButton::Sftp), "SFTP*");
    assert_eq!(session_panel_label(true), "  隐藏会话面板");
}

#[test]
fn tabs_and_shells() {
    let mut a = vec![];
    tab_clicked(1, 1, &mut a);
    assert!(a.is_empty());
    tab_clicked(2, 1, &mut a);
    tab_close_clicked(0, &mut a);
    let sh = ShellInfo { name: "zsh".into(), path: "/bin/zsh".into() };
    assert_eq!(shell_label(&sh), "  zsh  (/bin/zsh)");
    shell_clicked(&sh, &mut a);
    let words: Vec<String> = a.iter().map(said).collect();
    assert_eq!(words, ["SwitchTab(2)", "CloseTab(0)", "NewTabWithShell(\"/bin/zsh\")"]);
    assert_eq!(tab_dot(&tab("a", true, true)), [22, 160, 70]);
    assert_eq!(tab_dot(&tab("a", true, false)), [210, 50, 45]);
    assert_eq!(tab_dot(&tab("a", false, false)), [0, 120, 212]);
    assert_eq!(tab_background(1, 1), [255, 255, 255]);
    assert_eq!(tab_background(0, 1), [235, 235, 235]);
}

#[test]
fn frames_draw_what_is_there() {
    let mut p = Panels::new();
    p.show_system_panel = true;
    p.show_sftp_panel = true;
    let mut tabs = vec![tab("a", true, true)];
    let f = frame_panels(&p, &tabs, 0, false);
    assert!(f.session && !f.system && !f.sftp);
    tabs[0].server_status = Some(status());
    let f = frame_panels(&p, &tabs, 0, true);
    assert!(f.system && f.sftp);
    assert!(!frame_panels(&p, &tabs, 1, true).system);
}

#[test]
fn background_images_are_tried_once() {
    assert!(matches!(background_step(" a.png ", "a.png"), BackgroundStep::Keep));
    assert!(matches!(background_step("  ", "a.png"), BackgroundStep::Drop));
    let mut s = GuiState::new("", "", "");
    s.settings.background_image = " b.png".into();
    assert!(matches!(s.sync_background(), BackgroundStep::Load(p) if p == "b.png"));
    assert!(matches!(s.sync_background(), BackgroundStep::Keep));
    s.settings.background_image.clear();
    assert!(matches!(s.sync_background(), BackgroundStep::Drop));
    assert_eq!(s.bg_loaded_path, "");
}

#[test]
fn the_scrollbar_follows_the_pointer() {
    let info = ScrollInfo { scrollback_len: 100, visible_rows: 24, scroll_offset: 0 };
    let none = ScrollInfo { scrollback_len: 0, ..info };
    let press = ScrollPointer { hovered: true, pressing: true, just_pressed: true, on_thumb: false };
    assert_eq!(scroll_drag(&info, false, &press), (true, Grip::AtMiddle));
    let on = ScrollPointer { on_thumb: true, ..press };
    assert_eq!(scroll_drag(&info, false, &on), (true, Grip::AtPointer));
    let held = ScrollPointer { just_pressed: false, hovered: false, ..press };
    assert_eq!(scroll_drag(&info, true, &held), (true, Grip::Nowhere));
    assert_eq!(scroll_drag(&info, false, &held), (false, Grip::Nowhere));
    let gone = ScrollPointer { pressing: false, ..held };
    assert_eq!(scroll_drag(&info, true, &gone), (false, Grip::Nowhere));
    assert_eq!(scroll_drag(&none, true, &press), (false, Grip::Nowhere));
    assert_eq!(scroll_alphas(&info, false, false), (30, 80));
    assert_eq!(scroll_alphas(&info, true, false), (60, 200));
    assert_eq!(said(&scroll_to(&info, 250)), "ScrollTo(100)");
    assert_eq!(said(&scroll_to(&info, 7)), "ScrollTo(7)");
}

#[test]
fn the_connection_dialog_saves_and_connects() {
    let mut p = Panels::new();
    let mut f = SshForm::new();
    f.host = "example.org".into();
    f.username = "ann".into();
    f.port = "2222".into();
    f.password = "pw".into();
    assert_eq!(f.title(), "New SSH Connection");
    assert_eq!(f.name_to_save(), "ann@example.org");
    assert_eq!(f.port(), 2222);
    p.show_ssh_dialog = true;
    let mut a = vec![];
    f.clicked(&mut p, DialogButton::Connect, &mut a);
    assert!(p.show_ssh_dialog);
    f.clicked(&mut p, DialogButton::SaveAndConnect, &mut a);
    assert!(!p.show_ssh_dialog);
    assert_eq!(a.len(), 3);
    match (&a[1], &a[2]) {
        (
            GuiAction::SaveProfile { name, host, port, auth_mode, .. },
            GuiAction::ConnectSsh { host: h, port: q, username, auth },
        ) => {
            assert_eq!(name, "ann@example.org");
            assert_eq!((host, port), (h, q));
            assert_eq!(*auth_mode, 0);
            assert_eq!(username, "ann");
            assert!(matches!(auth, SshAuthInput::Password(x) if x == "pw"));
        }
        other => panic!("{other:?}"),
    }
}

#[test]
fn the_connection_dialog_edits() {
    let mut p = Panels::new();
    let mut f = SshForm::new();
    f.name = "prod".into();
    f.port = "http".into();
    f.key_path = "/k".into();
    f.auth_mode = 1;
    f.editing_profile_id = Some("42".into());
    assert_eq!(f.title(), "Edit SSH Connection");
    assert_eq!(f.port(), 22);
    let mut a = vec![];
    f.clicked(&mut p, DialogButton::UpdateAndConnect, &mut a);
    assert!(f.editing_profile_id.is_none());
    assert!(matches!(&a[0], GuiAction::UpdateProfile { id, name, port: 22, .. } if id == "42" && name == "prod"));
    assert!(matches!(&a[1], GuiAction::ConnectSsh { auth: SshAuthInput::KeyFile(k), .. } if k == "/k"));
    f.editing_profile_id = Some("43".into());
    f.clicked(&mut p, DialogButton::Update, &mut a);
    assert_eq!(a.len(), 3);
    f.open_new(&mut p);
    assert!(p.show_ssh_dialog && f.name.is_empty() && f.port == "22");
    f.clicked(&mut p, DialogButton::Save, &mut a);
    f.clicked(&mut p, DialogButton::Cancel, &mut a);
    assert_eq!(a.len(), 4);
    assert!(!p.show_ssh_dialog);
}

const NO_KEYS: FindKeys = FindKeys { escape: false, enter: false, shift: false };
const NO_CLICKS: FindClicks = FindClicks {
    case_sensitive: false,
    whole_word: false,
    use_regex: false,
    previous: false,
    next: false,
    find_all: false,
    close: false,
};

#[test]
fn a_query_is_searched_once() {
    let mut p = Panels::new();
    p.show_find_bar = true;
    let mut f = FindBar::new();
    assert!(f.wants_focus());
    f.query = "abc".into();
    let mut a = vec![];
    f.keys(&mut p, &NO_KEYS, &mut a);
    f.keys(&mut p, &NO_KEYS, &mut a);
    assert_eq!(a.len(), 1);
    assert!(matches!(&a[0], GuiAction::FindAll { query, case_sensitive: false, .. } if query == "abc"));
    f.clicks(&mut p, &FindClicks { case_sensitive: true, ..NO_CLICKS }, &mut a);
    f.keys(&mut p, &NO_KEYS, &mut a);
    assert_eq!(a.len(), 2);
    assert!(matches!(&a[1], GuiAction::FindAll { case_sensitive: true, .. }));
    f.query.clear();
    f.match_count = 3;
    f.keys(&mut p, &NO_KEYS, &mut a);
    assert_eq!(said(&a[2]), "ClearFind");
    assert_eq!(f.match_count, 0);
}

#[test]
fn find_keys_and_buttons() {
    let mut p = Panels::new();
    p.show_find_bar = true;
    let mut f = FindBar::new();
    f.query = "x".into();
    f.last_query = "x".into();
    let mut a = vec![];
    f.keys(&mut p, &FindKeys { enter: true, ..NO_KEYS }, &mut a);
    f.keys(&mut p, &FindKeys { enter: true, shift: true, ..NO_KEYS }, &mut a);
    assert!(matches!(a[0], GuiAction::FindNext { .. }));
    assert!(matches!(a[1], GuiAction::FindPrev { .. }));
    let all = FindClicks { previous: true, next: true, find_all: true, ..NO_CLICKS };
    f.clicks(&mut p, &all, &mut a);
    assert_eq!(a.len(), 3);
    assert!(matches!(a[2], GuiAction::FindAll { .. }));
    f.match_count = 2;
    assert_eq!(f.count_label().unwrap(), "1 / 2");
    f.clicks(&mut p, &FindClicks { close: true, ..all }, &mut a);
    assert_eq!(a.len(), 7);
    assert!(!p.show_find_bar);
    assert_eq!(f.count_label().unwrap(), "No results");
    p.show_find_bar = true;
    f.keys(&mut p, &FindKeys { escape: true, ..NO_KEYS }, &mut a);
    assert!(!p.show_find_bar);
    assert_eq!(said(&a[7]), "ClearFind");
    assert!(FindBar::new().count_label().is_none());
}

#[test]
fn messages_go_out_one_at_a_time() {
    let mut c = AgentChat::new();
    assert!(c.shows_hint() && !c.button_enabled());
    c.input = "  list files ".into();
    assert!(c.button_enabled());
    let mut a = vec![];
    assert!(!c.submit(false, false, &mut a));
    assert!(c.submit(false, true, &mut a));
    assert_eq!(said(&a[0]), "AgentSendMessage(\"list files\")");
    assert_eq!(c.messages[0].content, "list files");
    assert_eq!(c.messages[0].role, AgentChatRole::User);
    assert!(c.is_running && c.thinking() && c.input.is_empty());
    c.input = "more".into();
    assert!(!c.submit(false, true, &mut a));
    assert_eq!(a.len(), 1);
    assert!(!c.submit(true, false, &mut a));
    assert_eq!(said(&a[1]), "AgentCancel");
    c.streaming_text = "hm".into();
    let AgentChatMessage { role, content } = c.streaming().unwrap();
    assert_eq!((role, content.as_str()), (AgentChatRole::Assistant, "hm"));
    assert!(!c.thinking());
    assert_eq!(message_style(AgentChatRole::Error).prefix, "✗");
    assert_eq!(message_style(AgentChatRole::ToolCall).color, [200, 180, 100]);
    assert!(matches!(c.configure(), GuiAction::AgentConfigure { model_id, .. } if model_id == "deepseek-chat"));
}

#[test]
fn settings_are_applied() {
    let mut s = Settings::new("Fira", "nord", "bash");
    let mut p = Panels::new();
    p.show_settings = true;
    let mut a = vec![];
    settings_clicked(&s, &mut p, true, false, &mut a);
    assert!(p.show_settings);
    assert!(matches!(&a[0], GuiAction::ApplySettings { theme, cursor_style: 1, .. } if theme == "nord"));
    settings_clicked(&s, &mut p, false, true, &mut a);
    assert!(!p.show_settings);
    let names: Vec<&str> = [0, 1, 2, 9]
        .iter()
        .map(|i| {
            s.cursor_style = *i;
            s.cursor_style_name()
        })
        .collect();
    assert_eq!(names, ["Block", "Beam", "Underline", "Beam"]);
}

#[test]
fn history_is_filtered_and_shortened() {
    let item = |c: &str| HistoryItem {
        command: c.into(),
        exit_code: 0,
        timestamp: 0,
        host: None,
        cwd: None,
    };
    let list = vec![item("ls -la"), item("Cargo build"), item("cargo test")];
    assert_eq!(filter_history(&list, ""), vec![0, 1, 2]);
    assert_eq!(filter_history(&list, "CARGO"), vec![1, 2]);
    assert_eq!(filter_history(&list, "zzz"), Vec::<usize>::new());
    assert_eq!(entry_time(3_600 * 25 + 61), "01:01");
    for secs in [-1i64, -61, -3_600, -90_000, 0, 59, i64::MAX, i64::MIN] {
        let want = format!("{:02}:{:02}", (secs / 3600) % 24, (secs / 60) % 60);
        assert_eq!(entry_time(secs), want);
    }
    let long = "x".repeat(61);
    assert_eq!(shorten(&long), format!("{}…", "x".repeat(59)));
    assert_eq!(shorten(&"x".repeat(60)), "x".repeat(60));
    let cut = format!("{}é{}", "x".repeat(58), "y".repeat(10));
    assert!(!is_showable(&cut));
    assert!(is_showable(&long));
    assert_eq!(exit_color(0), [142, 192, 124]);
    assert_eq!(exit_color(1), [251, 73, 52]);
    assert_eq!(count_label(3), "3 条记录");
    let mut a = vec![];
    entry_clicked(&list[0], &mut a);
    assert_eq!(said(&a[0]), "ExecHistoryCommand(\"ls -la\")");
}

#[test]
fn sessions_are_grouped_in_order() {
    let list = vec![
        profile("c", "web", "h1"),
        profile("a", "db", "h2"),
        profile("b", "web", "h3"),
        profile("d", "Default", "h4"),
    ];
    let groups = sessions::group_profiles(&list, "");
    let got: Vec<(String, Vec<usize>)> =
        groups.iter().map(|g| (g.name.clone(), g.members.clone())).collect();
    assert_eq!(
        got,
        [("Default".to_string(), vec![3]), ("db".to_string(), vec![1]), ("web".to_string(), vec![0, 2])]
    );
    assert_eq!(sessions::group_header(&groups[2]), "web  (2)");
    let groups = sessions::group_profiles(&list, "H3");
    assert_eq!(groups.len(), 1);
    assert_eq!(groups[0].members, vec![2]);
    assert_eq!(sessions::visible_count(&list, "WEB"), 2);
    assert_eq!(sessions::visible_count(&list, ""), 4);
    assert_eq!(sessions::group_names(&list), ["Default", "db", "web"]);
    assert_eq!(sessions::filter_badge(&list, "web"), Some(("2 项匹配".to_string(), [250, 189, 47])));
    assert_eq!(sessions::filter_badge(&list, "nope"), Some(("0 项匹配".to_string(), [204, 36, 29])));
    assert_eq!(sessions::filter_badge(&list, ""), None);
    assert_eq!(sessions::footer(&list, &vec![]), "4 saved  |  0 active");
}

#[test]
fn session_rows_say_what_they_are() {
    let p = profile("prod", "web", "h1");
    assert_eq!(sessions::profile_label(&p), " [K] prod");
    assert_eq!(sessions::profile_address(&p), "root@h1:22");
    assert_eq!(sessions::profile_note(&p), "Auth: Key | Group: web");
    assert_eq!(sessions::auth_tag("Agent"), "[A]");
    assert_eq!(sessions::auth_tag("Keyboard"), "[I]");
    assert_eq!(sessions::auth_tag("Password"), "[P]");
    let tabs = vec![tab("root@h1", true, true), tab("bash", false, false)];
    assert!(sessions::is_live(&tabs, "h1"));
    assert!(!sessions::is_live(&tabs, "bash"));
    let rows = sessions::tab_rows(&tabs, "");
    assert_eq!(rows.len(), 2);
    assert_eq!(rows[0].label, " root@h1  (SSH)");
    assert_eq!(rows[0].hover, "SSH  |  80x24");
    assert_eq!(rows[1].dot, [69, 133, 136]);
    assert_eq!(sessions::tab_rows(&tabs, "BASH")[0].index, 1);
    let mut selected = None;
    assert!(sessions::profile_event(&mut selected, sessions::ProfileEvent::Click, 4).is_none());
    assert_eq!(selected, Some(4));
    let a = sessions::profile_event(&mut selected, sessions::ProfileEvent::Delete, 5).unwrap();
    assert_eq!(said(&a), "DeleteSavedProfile(5)");
    assert_eq!(selected, Some(4));
}

#[test]
fn groups_have_their_colours() {
    let palette: [[u8; 3]; 8] = [
        [69, 133, 136],
        [177, 98, 134],
        [214, 93, 14],
        [104, 157, 106],
        [211, 134, 155],
        [152, 151, 26],
        [204, 36, 29],
        [69, 133, 136],
    ];
    for name in ["", "Default", "web", "Production/Web", "数据库", "aaaaaaaaaaaaaaaaaaaa"] {
        let h = name.bytes().fold(0u32, |a, b| a.wrapping_mul(31).wrapping_add(b as u32));
        assert_eq!(sessions::group_color(name), palette[h as usize % 8], "{name}");
    }
}

fn entry(name: &str, is_dir: bool, file_type: &str) -> SftpEntry {
    SftpEntry {
        name: name.into(),
        path: format!("/srv/{name}"),
        is_dir,
        size: 2048,
        file_type: file_type.into(),
        permissions: String::new(),
        modified: String::new(),
        owner: String::new(),
        group: String::new(),
    }
}

fn transfer(direction: &'static str, bytes: u64, total: u64, done: bool) -> SftpTransferInfo {
    SftpTransferInfo {
        direction,
        remote_path: "/srv/data.bin".into(),
        local_path: String::new(),
        bytes,
        total,
        done,
        error: None,
    }
}

#[test]
fn files_are_navigated_and_created() {
    let mut snap = SftpBrowserSnapshot::default();
    snap.current_path = "/srv//".into();
    let mut f = files::SftpForm::new();
    f.sync_path(&snap);
    assert_eq!(f.path_input, "/srv//");
    let mut a = vec![];
    f.create(&snap, true, &mut a);
    assert!(a.is_empty());
    f.new_name = " logs ".into();
    f.create(&snap, true, &mut a);
    assert_eq!(f.new_name, "");
    f.new_name = "x.txt".into();
    f.create(&snap, false, &mut a);
    f.path_input = "  /tmp ".into();
    f.navigate(&mut a);
    f.path_input = " ".into();
    f.navigate(&mut a);
    let words: Vec<String> = a.iter().map(said).collect();
    assert_eq!(words, ["SftpMkdir(\"/srv/logs\")", "SftpTouch(\"/srv/x.txt\")", "SftpNavigate(\"/tmp\")"]);
    assert_eq!(files::file_name("/srv/x.txt"), "x.txt");
    assert_eq!(files::file_name("plain"), "plain");
    assert_eq!(files::file_name("/srv/"), "");
    assert_eq!(files::error_label("no"), "Error: no");
}

#[test]
fn transfers_and_entries_have_rows() {
    let mut ts = vec![transfer("Upload", 512, 1024, false), transfer("Download", 5, 0, true)];
    assert_eq!(files::count_transfers(&ts), (1, 1));
    assert_eq!(files::transfers_label(&ts), ("1 active, 1 done".to_string(), true));
    let r = files::transfer_row(&ts[0]);
    assert_eq!((r.label.as_str(), r.sizes.as_str()), ("↑ data.bin", "512 B / 1.0 K"));
    assert_eq!(r.progress, files::Progress::Part { bytes: 512, total: 1024 });
    assert_eq!(r.color, [0, 120, 212]);
    let r = files::transfer_row(&ts[1]);
    assert_eq!((r.label.as_str(), r.sizes.as_str()), ("↓ data.bin", "5 B / ?"));
    assert_eq!(r.progress, files::Progress::Full);
    assert_eq!(r.color, [22, 160, 70]);
    ts[1].error = Some("x".into());
    ts[1].done = false;
    let r = files::transfer_row(&ts[1]);
    assert_eq!((r.color, r.progress), ([204, 36, 29], files::Progress::Empty));
    let es = vec![entry("a", true, "dir"), entry("b", false, "link"), entry("c", false, "file")];
    assert_eq!(files::directories(&es), vec![0]);
    let icons: Vec<&str> = es.iter().map(|e| files::entry_row(e).icon).collect();
    assert_eq!(icons, ["D", "L", "-"]);
    assert_eq!(files::entry_row(&es[0]).size, "-");
    assert_eq!(files::entry_row(&es[2]).size, "2.0 K");
    let mut a = vec![];
    files::entry_chosen(&es[0], &mut a);
    files::entry_chosen(&es[2], &mut a);
    let words: Vec<String> = a.iter().map(said).collect();
    assert_eq!(words, ["SftpNavigate(\"/srv/a\")", "SftpDownload(\"/srv/c\")"]);
}

#[test]
fn the_status_bar_tells_of_the_tab() {
    let texts = |tabs: &Vec<TabInfo>, i: usize, pct: u32| -> Vec<String> {
        status_items(tabs, i, pct).into_iter().map(|x| x.text).collect()
    };
    let mut tabs = vec![tab("a", false, false), tab("b", true, true)];
    assert_eq!(texts(&tabs, 0, 0), ["Local", "UTF-8", "80x24"]);
    assert_eq!(texts(&tabs, 9, 0), ["No active session"]);
    tabs[1].server_status = Some(status());
    assert_eq!(
        texts(&tabs, 1, 91),
        ["SSH Connected", "UTF-8", "80x24", "[L] Linux", "web", "Up: 3 days", "Mem: 91%", "250ms", "Dur: 1m"]
    );
    let items = status_items(&tabs, 1, 91);
    assert_eq!(items[3].hover.as_deref(), Some("OS: Linux\nKernel: 6.1\nHostname: web"));
    assert_eq!(items[6].color, Some([204, 36, 29]));
    assert_eq!(items[6].hover.as_deref(), Some("Memory: 910 / 1000 MB (91%)"));
    assert_eq!(items[7].color, Some([250, 189, 47]));
    assert_eq!(status_items(&tabs, 1, 90)[6].color, Some([250, 189, 47]));
    tabs[1].is_connected = false;
    assert_eq!(texts(&tabs, 1, 0)[0], "Disconnected");
}

#[test]
fn processes_are_sorted_and_stay_put() {
    let p = |cpu: i64, mem: u64| ProcessSnapshot {
        name: String::new(),
        cpu_rank: cpu,
        mem_str: String::new(),
        mem_kb: mem,
    };
    let procs = vec![p(5, 10), p(9, 10), p(5, 30), p(1, 20)];
    assert_eq!(system::sort_processes(&procs, 0, false), vec![1, 0, 2, 3]);
    assert_eq!(system::sort_processes(&procs, 0, true), vec![3, 0, 2, 1]);
    assert_eq!(system::sort_processes(&procs, 1, false), vec![2, 3, 0, 1]);
    assert_eq!(system::sort_processes(&procs, 1, true), vec![0, 1, 3, 2]);
    let mut c = system::SystemChoice::new();
    assert_eq!((c.header(0), c.header(1)), ("CPU ▼".to_string(), "Mem".to_string()));
    c.header_clicked(0);
    assert_eq!(c.header(0), "CPU ▲");
    c.header_clicked(0);
    assert_eq!(c, system::SystemChoice::new());
    c.header_clicked(1);
    assert_eq!((c.proc_sort_col, c.proc_sort_asc), (1, false));
}

#[test]
fn the_system_panel_labels() {
    let ss = status();
    let mut c = system::SystemChoice::new();
    assert_eq!(c.interface_label(&ss.net_interfaces), "All");
    c.selected_net_if = Some(1);
    assert_eq!(c.interface_label(&ss.net_interfaces), "lo");
    assert_eq!(c.interface(&ss.net_interfaces), Some(1));
    c.selected_net_if = Some(2);
    assert_eq!(c.interface_label(&ss.net_interfaces), "All");
    assert_eq!(c.interface(&ss.net_interfaces), None);
    assert_eq!(system::memory_label(&ss), "910 MB/1000 MB");
    assert_eq!(system::latency_label(250), "250ms");
    assert_eq!(system::latency_level(501), system::Level::High);
    assert_eq!(system::latency_level(500), system::Level::Medium);
    assert_eq!(system::latency_level(200), system::Level::Low);
    assert_eq!(system::level_color(system::Level::Medium), [200, 150, 0]);
    assert_eq!(system::percent_number("42%"), "42");
    assert_eq!(system::percent_number("7%%"), "7");
}
