//! The window around the terminal: what it shows, what it asks of the application, and how the
//! menu, the toolbar and the tab bar answer a click.

use crate::text;
use vstd::prelude::*;
use vstd::string::StringExecFns;

verus! {

/// Terminal display mode.
#[derive(Debug, Clone, Copy, PartialEq, Eq, Structural)]
pub enum TerminalDisplayMode {
    /// Standard raw terminal.
    Normal,
    /// Log viewer: line numbers, timestamps, alternating row bg, block style.
    Log,
}

/// How to log in, as the connection dialog has it.
#[derive(Debug, Clone)]
pub enum SshAuthInput {
    Password(String),
    KeyFile(String),
}

/// What the window asks of the application.
#[derive(Debug, Clone)]
pub enum GuiAction {
    SwitchTab(usize),
    CloseTab(usize),
    NewTab,
    NewTabWithShell(String),
    NewWslTab,
    ConnectSsh { host: String, port: u16, username: String, auth: SshAuthInput },
    OpenSshDialog,
    ToggleSettings,
    /// Apply the settings; the sliders' values go beside it.
    ApplySettings {
        font_family: String,
        theme: String,
        shell: String,
        background_image: String,
        cursor_style: usize,
        cursor_blink: bool,
    },
    SplitHorizontal,
    SplitVertical,
    DisconnectTab(usize),
    CopySelection,
    PasteClipboard,
    SelectAll,
    Find,
    FindNext { query: String, case_sensitive: bool, whole_word: bool, use_regex: bool },
    FindPrev { query: String, case_sensitive: bool, whole_word: bool, use_regex: bool },
    FindAll { query: String, case_sensitive: bool, whole_word: bool, use_regex: bool },
    ClearFind,
    ToggleTerminalMode,
    ToggleFold(usize, u64),
    ToggleFullScreen,
    ToggleSessionPanel,
    FontZoomIn,
    FontZoomOut,
    FontZoomReset,
    ShowAbout,
    ConnectSavedProfile(usize),
    DeleteSavedProfile(usize),
    EditSavedProfile(usize),
    DuplicateTab,
    RenameTab(usize, String),
    ReconnectTab(usize),
    /// Scroll the focused terminal to a specific offset into scrollback.
    ScrollTo(usize),
    /// Save a new SSH profile.
    SaveProfile {
        name: String,
        group: String,
        host: String,
        port: u16,
        username: String,
        auth_mode: usize,
        password: String,
        key_path: String,
    },
    /// Navigate the SFTP browser to a given path.
    SftpNavigate(String),
    /// Navigate SFTP browser up one level.
    SftpGoUp,
    /// Navigate SFTP browser to home.
    SftpGoHome,
    /// Create a new directory at the given path.
    SftpMkdir(String),
    /// Create a new empty file at the given path.
    SftpTouch(String),
    /// Download a remote file to local.
    SftpDownload(String),
    /// Upload a local file to the current remote directory.
    SftpUpload,
    /// Clear completed transfers from the visible list.
    SftpClearTransfers,
    /// Execute a command from history (write it to the active PTY + Enter).
    ExecHistoryCommand(String),
    /// Toggle command history panel.
    ToggleHistoryPanel,
    /// Refresh the cached history list from the database.
    RefreshHistory,
    /// Import profiles from ~/.ssh/config.
    ImportSshConfig,
    /// Update an existing saved profile by its UUID string.
    UpdateProfile {
        id: String,
        name: String,
        group: String,
        host: String,
        port: u16,
        username: String,
        auth_mode: usize,
        password: String,
        key_path: String,
    },
    /// Toggle the Agent chat panel.
    ToggleAgentPanel,
    /// Send a message to the Agent.
    AgentSendMessage(String),
    /// Cancel the current agent run.
    AgentCancel,
    /// Reset agent conversation.
    AgentReset,
    /// Configure agent (provider_type, base_url, api_key, model_id).
    AgentConfigure { provider_type: String, base_url: String, api_key: String, model_id: String },
}

/// A command history entry for GUI display.
#[derive(Debug, Clone)]
pub struct HistoryItem {
    pub command: String,
    pub exit_code: i32,
    pub timestamp: i64,
    pub host: Option<String>,
    pub cwd: Option<String>,
}

/// A saved session as the session panel lists it.
#[derive(Debug, Clone)]
pub struct SshProfileEntry {
    pub id: String,
    pub name: String,
    pub group: String,
    pub host: String,
    pub port: u16,
    pub username: String,
    pub auth_display: String,
    pub color_tag: Option<[u8; 3]>,
}

/// One remote file/dir entry for GUI display.
#[derive(Debug, Clone)]
pub struct SftpEntry {
    pub name: String,
    pub path: String,
    pub is_dir: bool,
    pub size: u64,
    pub file_type: String,
    pub permissions: String,
    pub modified: String,
    pub owner: String,
    pub group: String,
}

/// In-flight or recently-completed file transfer info for UI display.
#[derive(Debug, Clone)]
pub struct SftpTransferInfo {
    /// "Upload" or "Download".
    pub direction: &'static str,
    pub remote_path: String,
    pub local_path: String,
    pub bytes: u64,
    pub total: u64,
    pub done: bool,
    pub error: Option<String>,
}

/// Snapshot of the SFTP browser state for the active SSH pane.
#[derive(Debug, Clone)]
pub struct SftpBrowserSnapshot {
    pub current_path: String,
    pub entries: Vec<SftpEntry>,
    pub initialized: bool,
    pub error: Option<String>,
    pub transfers: Vec<SftpTransferInfo>,
}

impl Default for SftpBrowserSnapshot {
    fn default() -> (r: SftpBrowserSnapshot)
        ensures
            r.current_path@ == Seq::<char>::empty(),
            r.entries@ == Seq::<SftpEntry>::empty(),
            !r.initialized,
            r.error is None,
            r.transfers@ == Seq::<SftpTransferInfo>::empty(),
    {
        SftpBrowserSnapshot {
            current_path: String::new(),
            entries: Vec::new(),
            initialized: false,
            error: None,
            transfers: Vec::new(),
        }
    }
}

/// One tab as the tab bar and the status bar show it.
#[derive(Debug, Clone)]
pub struct TabInfo {
    pub title: String,
    pub is_active: bool,
    pub is_ssh: bool,
    pub is_connected: bool,
    pub cols: u16,
    pub rows: u16,
    /// Server status snapshot (SSH only).
    pub server_status: Option<ServerStatusSnapshot>,
}

/// Per-disk usage snapshot for GUI display.
#[derive(Debug, Clone)]
pub struct DiskSnapshot {
    pub mount: String,
    pub fstype: String,
    pub total: String,
    pub used: String,
    pub avail: String,
    pub use_pct: String,
}

impl Default for DiskSnapshot {
    fn default() -> (r: DiskSnapshot)
        ensures
            r.mount@ == Seq::<char>::empty(),
            r.fstype@ == Seq::<char>::empty(),
            r.total@ == Seq::<char>::empty(),
            r.used@ == Seq::<char>::empty(),
            r.avail@ == Seq::<char>::empty(),
            r.use_pct@ == Seq::<char>::empty(),
    {
        DiskSnapshot {
            mount: String::new(),
            fstype: String::new(),
            total: String::new(),
            used: String::new(),
            avail: String::new(),
            use_pct: String::new(),
        }
    }
}

/// Detected shell info for the "New Tab" shell selector.
#[derive(Debug, Clone)]
pub struct ShellInfo {
    pub name: String,
    pub path: String,
}

/// Lightweight snapshot of SSH server status for GUI display. Rates and load percentages, which
/// are no whole numbers, stay with the drawing code.
#[derive(Debug, Clone)]
pub struct ServerStatusSnapshot {
    pub os: String,
    pub kernel: String,
    pub hostname: String,
    pub uptime: String,
    pub load_avg: String,
    pub mem_total_mb: u64,
    pub mem_used_mb: u64,
    pub disks: Vec<DiskSnapshot>,
    /// Names of the network interfaces.
    pub net_interfaces: Vec<String>,
    pub disk_usage: String,
    pub latency_ms: u32,
    pub connection_duration: String,
    /// Top processes by CPU usage.
    pub top_procs: Vec<ProcessSnapshot>,
}

/// A single process entry for display.
#[derive(Debug, Clone)]
pub struct ProcessSnapshot {
    pub name: String,
    /// A number that orders processes as their CPU percentage does.
    pub cpu_rank: i64,
    pub mem_str: String,
    /// Raw RSS in KB for sorting.
    pub mem_kb: u64,
}

/// Role in the agent conversation.
#[derive(Debug, Clone, Copy, PartialEq, Eq, Structural)]
pub enum AgentChatRole {
    User,
    Assistant,
    ToolCall,
    Error,
}

/// A single message in the Agent chat panel.
#[derive(Debug, Clone)]
pub struct AgentChatMessage {
    pub role: AgentChatRole,
    pub content: String,
}

/// Information needed to draw the terminal scrollbar.
#[derive(Debug, Clone, Copy, PartialEq, Eq, Structural)]
pub struct ScrollInfo {
    /// Number of scrollback lines available.
    pub scrollback_len: usize,
    /// Number of visible rows.
    pub visible_rows: usize,
    /// Current scroll offset (0 = bottom/live).
    pub scroll_offset: usize,
}

/// Which panels, windows and bars are shown.
#[derive(Debug, Clone, Copy, PartialEq, Eq, Structural)]
pub struct Panels {
    pub show_settings: bool,
    pub show_ssh_dialog: bool,
    pub show_session_panel: bool,
    pub show_about: bool,
    pub show_find_bar: bool,
    pub show_system_panel: bool,
    pub show_sftp_panel: bool,
    pub show_history_panel: bool,
    pub show_agent_panel: bool,
}

/// What the window shows at first: the session panel and nothing else.
pub open spec fn first_panels() -> Panels {
    Panels {
        show_settings: false,
        show_ssh_dialog: false,
        show_session_panel: true,
        show_about: false,
        show_find_bar: false,
        show_system_panel: false,
        show_sftp_panel: false,
        show_history_panel: false,
        show_agent_panel: false,
    }
}

impl Panels {
    /// What the window shows at first.
    pub fn new() -> (r: Panels)
        ensures
            r == first_panels(),
    {
        Panels {
            show_settings: false,
            show_ssh_dialog: false,
            show_session_panel: true,
            show_about: false,
            show_find_bar: false,
            show_system_panel: false,
            show_sftp_panel: false,
            show_history_panel: false,
            show_agent_panel: false,
        }
    }
}

/// The entries of the menu bar.
#[derive(Debug, Clone, Copy, PartialEq, Eq, Structural)]
pub enum MenuItem {
    NewLocal,
    NewWsl,
    NewSsh,
    DuplicateTab,
    Disconnect,
    Reconnect,
    Copy,
    Paste,
    SelectAll,
    Find,
    ZoomIn,
    ZoomOut,
    ZoomReset,
    ToggleSessions,
    FullScreen,
    SessionManager,
    SplitHorizontal,
    SplitVertical,
    Settings,
    About,
}

/// What an entry of the menu bar asks of the application, if it asks anything.
pub open spec fn menu_action(item: MenuItem) -> Option<GuiAction> {
    match item {
        MenuItem::NewLocal => Some(GuiAction::NewTab),
        MenuItem::NewWsl => Some(GuiAction::NewWslTab),
        MenuItem::DuplicateTab => Some(GuiAction::DuplicateTab),
        MenuItem::Disconnect => Some(GuiAction::DisconnectTab(0)),
        MenuItem::Reconnect => Some(GuiAction::ReconnectTab(0)),
        MenuItem::Copy => Some(GuiAction::CopySelection),
        MenuItem::Paste => Some(GuiAction::PasteClipboard),
        MenuItem::SelectAll => Some(GuiAction::SelectAll),
        MenuItem::ZoomIn => Some(GuiAction::FontZoomIn),
        MenuItem::ZoomOut => Some(GuiAction::FontZoomOut),
        MenuItem::ZoomReset => Some(GuiAction::FontZoomReset),
        MenuItem::ToggleSessions => Some(GuiAction::ToggleSessionPanel),
        MenuItem::FullScreen => Some(GuiAction::ToggleFullScreen),
        MenuItem::SessionManager => Some(GuiAction::ToggleSessionPanel),
        MenuItem::SplitHorizontal => Some(GuiAction::SplitHorizontal),
        MenuItem::SplitVertical => Some(GuiAction::SplitVertical),
        MenuItem::NewSsh | MenuItem::Find | MenuItem::Settings | MenuItem::About => None,
    }
}

/// What is shown after a click on an entry of the menu bar.
pub open spec fn menu_panels(p: Panels, item: MenuItem) -> Panels {
    match item {
        MenuItem::NewSsh => Panels { show_ssh_dialog: true, ..p },
        MenuItem::Find => Panels { show_find_bar: !p.show_find_bar, ..p },
        MenuItem::ToggleSessions => Panels { show_session_panel: !p.show_session_panel, ..p },
        MenuItem::SessionManager => Panels { show_session_panel: true, ..p },
        MenuItem::Settings => Panels { show_settings: true, ..p },
        MenuItem::About => Panels { show_about: true, ..p },
        _ => p,
    }
}

/// The actions with one more, if there is one.
pub open spec fn with_action(actions: Seq<GuiAction>, a: Option<GuiAction>) -> Seq<GuiAction> {
    match a {
        Some(a) => actions.push(a),
        None => actions,
    }
}

/// Handles a click on an entry of the menu bar.
pub fn menu_clicked(panels: &mut Panels, item: MenuItem, actions: &mut Vec<GuiAction>)
    ensures
        *final(panels) == menu_panels(*old(panels), item),
        final(actions)@ == with_action(old(actions)@, menu_action(item)),
{
    match item {
        MenuItem::NewLocal => actions.push(GuiAction::NewTab),
        MenuItem::NewWsl => actions.push(GuiAction::NewWslTab),
        MenuItem::NewSsh => {
            panels.show_ssh_dialog = true;
        },
        MenuItem::DuplicateTab => actions.push(GuiAction::DuplicateTab),
        MenuItem::Disconnect => actions.push(GuiAction::DisconnectTab(0)),
        MenuItem::Reconnect => actions.push(GuiAction::ReconnectTab(0)),
        MenuItem::Copy => actions.push(GuiAction::CopySelection),
        MenuItem::Paste => actions.push(GuiAction::PasteClipboard),
        MenuItem::SelectAll => actions.push(GuiAction::SelectAll),
        MenuItem::Find => {
            panels.show_find_bar = !panels.show_find_bar;
        },
        MenuItem::ZoomIn => actions.push(GuiAction::FontZoomIn),
        MenuItem::ZoomOut => actions.push(GuiAction::FontZoomOut),
        MenuItem::ZoomReset => actions.push(GuiAction::FontZoomReset),
        MenuItem::ToggleSessions => {
            panels.show_session_panel = !panels.show_session_panel;
            actions.push(GuiAction::ToggleSessionPanel);
        },
        MenuItem::FullScreen => actions.push(GuiAction::ToggleFullScreen),
        MenuItem::SessionManager => {
            panels.show_session_panel = true;
            actions.push(GuiAction::ToggleSessionPanel);
        },
        MenuItem::SplitHorizontal => actions.push(GuiAction::SplitHorizontal),
        MenuItem::SplitVertical => actions.push(GuiAction::SplitVertical),
        MenuItem::Settings => {
            panels.show_settings = true;
        },
        MenuItem::About => {
            panels.show_about = true;
        },
    }
}

/// The buttons of the toolbar.
#[derive(Debug, Clone, Copy, PartialEq, Eq, Structural)]
pub enum ToolButton {
    NewLocal,
    NewSsh,
    SplitHorizontal,
    SplitVertical,
    Mode,
    Settings,
    Agent,
    History,
    Sftp,
    System,
    Sessions,
}

/// What a button of the toolbar asks of the application, if it asks anything.
pub open spec fn tool_action(button: ToolButton) -> Option<GuiAction> {
    match button {
        ToolButton::NewLocal => Some(GuiAction::NewTab),
        ToolButton::SplitHorizontal => Some(GuiAction::SplitHorizontal),
        ToolButton::SplitVertical => Some(GuiAction::SplitVertical),
        ToolButton::Mode => Some(GuiAction::ToggleTerminalMode),
        ToolButton::Agent => Some(GuiAction::ToggleAgentPanel),
        ToolButton::History => Some(GuiAction::ToggleHistoryPanel),
        ToolButton::Sessions => Some(GuiAction::ToggleSessionPanel),
        ToolButton::NewSsh | ToolButton::Settings | ToolButton::Sftp | ToolButton::System => None,
    }
}

/// What is shown after a click on a button of the toolbar.
pub open spec fn tool_panels(p: Panels, button: ToolButton) -> Panels {
    match button {
        ToolButton::NewSsh => Panels { show_ssh_dialog: true, ..p },
        ToolButton::Settings => Panels { show_settings: !p.show_settings, ..p },
        ToolButton::Sftp => Panels { show_sftp_panel: !p.show_sftp_panel, ..p },
        ToolButton::System => Panels { show_system_panel: !p.show_system_panel, ..p },
        ToolButton::Sessions => Panels { show_session_panel: !p.show_session_panel, ..p },
        _ => p,
    }
}

/// The other display mode.
pub open spec fn other_mode(mode: TerminalDisplayMode) -> TerminalDisplayMode {
    match mode {
        TerminalDisplayMode::Normal => TerminalDisplayMode::Log,
        TerminalDisplayMode::Log => TerminalDisplayMode::Normal,
    }
}

/// Handles a click on a button of the toolbar.
pub fn tool_clicked(
    panels: &mut Panels,
    mode: &mut TerminalDisplayMode,
    button: ToolButton,
    actions: &mut Vec<GuiAction>,
)
    ensures
        *final(panels) == tool_panels(*old(panels), button),
        *final(mode) == if button is Mode {
            other_mode(*old(mode))
        } else {
            *old(mode)
        },
        final(actions)@ == with_action(old(actions)@, tool_action(button)),
{
    match button {
        ToolButton::NewLocal => actions.push(GuiAction::NewTab),
        ToolButton::NewSsh => {
            panels.show_ssh_dialog = true;
        },
        ToolButton::SplitHorizontal => actions.push(GuiAction::SplitHorizontal),
        ToolButton::SplitVertical => actions.push(GuiAction::SplitVertical),
        ToolButton::Mode => {
            *mode = match *mode {
                TerminalDisplayMode::Normal => TerminalDisplayMode::Log,
                TerminalDisplayMode::Log => TerminalDisplayMode::Normal,
            };
            actions.push(GuiAction::ToggleTerminalMode);
        },
        ToolButton::Settings => {
            panels.show_settings = !panels.show_settings;
        },
        ToolButton::Agent => actions.push(GuiAction::ToggleAgentPanel),
        ToolButton::History => actions.push(GuiAction::ToggleHistoryPanel),
        ToolButton::Sftp => {
            panels.show_sftp_panel = !panels.show_sftp_panel;
        },
        ToolButton::System => {
            panels.show_system_panel = !panels.show_system_panel;
        },
        ToolButton::Sessions => {
            panels.show_session_panel = !panels.show_session_panel;
            actions.push(GuiAction::ToggleSessionPanel);
        },
    }
}

/// Two clicks on the same toolbar button leave the panels as they were, but for the one that
/// opens the connection dialog.
pub proof fn law_toggles_undo(p: Panels, button: ToolButton)
    requires
        button !is NewSsh,
    ensures
        tool_panels(tool_panels(p, button), button) == p,
{
}

/// Two clicks on the mode button leave the display mode as it was.
pub proof fn law_mode_toggles_back(mode: TerminalDisplayMode)
    ensures
        other_mode(other_mode(mode)) == mode,
{
}

/// The label of a toolbar button.
pub open spec fn tool_label(p: Panels, mode: TerminalDisplayMode, button: ToolButton) -> Seq<char> {
    match button {
        ToolButton::NewLocal => "  本地终端   Ctrl+Shift+T"@,
        ToolButton::NewSsh => "  SSH 连接..."@,
        ToolButton::SplitHorizontal => "|"@,
        ToolButton::SplitVertical => "-"@,
        ToolButton::Mode => match mode {
            TerminalDisplayMode::Normal => "TTY"@,
            TerminalDisplayMode::Log => "LOG"@,
        },
        ToolButton::Settings => "*"@,
        ToolButton::Agent => if p.show_agent_panel {
            "AI*"@
        } else {
            "AI"@
        },
        ToolButton::History => if p.show_history_panel {
            "HIST*"@
        } else {
            "HIST"@
        },
        ToolButton::Sftp => if p.show_sftp_panel {
            "SFTP*"@
        } else {
            "SFTP"@
        },
        ToolButton::System => if p.show_system_panel {
            "SYS*"@
        } else {
            "SYS"@
        },
        ToolButton::Sessions => if p.show_session_panel {
            "<<"@
        } else {
            ">>"@
        },
    }
}

/// The label of a toolbar button.
pub fn label_of_tool(p: &Panels, mode: TerminalDisplayMode, button: ToolButton) -> (r: &'static str)
    ensures
        r@ == tool_label(*p, mode, button),
{
    match button {
        ToolButton::NewLocal => "  本地终端   Ctrl+Shift+T",
        ToolButton::NewSsh => "  SSH 连接...",
        ToolButton::SplitHorizontal => "|",
        ToolButton::SplitVertical => "-",
        ToolButton::Mode => match mode {
            TerminalDisplayMode::Normal => "TTY",
            TerminalDisplayMode::Log => "LOG",
        },
        ToolButton::Settings => "*",
        ToolButton::Agent => if p.show_agent_panel {
            "AI*"
        } else {
            "AI"
        },
        ToolButton::History => if p.show_history_panel {
            "HIST*"
        } else {
            "HIST"
        },
        ToolButton::Sftp => if p.show_sftp_panel {
            "SFTP*"
        } else {
            "SFTP"
        },
        ToolButton::System => if p.show_system_panel {
            "SYS*"
        } else {
            "SYS"
        },
        ToolButton::Sessions => if p.show_session_panel {
            "<<"
        } else {
            ">>"
        },
    }
}

/// What the mode button would switch to.
pub fn mode_tip(mode: TerminalDisplayMode) -> (r: &'static str)
    ensures
        r@ == match mode {
            TerminalDisplayMode::Normal => "切换到日志视图（时间戳、行号）"@,
            TerminalDisplayMode::Log => "切换到普通终端"@,
        },
{
    match mode {
        TerminalDisplayMode::Normal => "切换到日志视图（时间戳、行号）",
        TerminalDisplayMode::Log => "切换到普通终端",
    }
}

/// The menu entry that shows or hides the session panel.
pub fn session_panel_label(shown: bool) -> (r: &'static str)
    ensures
        r@ == if shown {
            "  隐藏会话面板"@
        } else {
            "  显示会话面板"@
        },
{
    if shown {
        "  隐藏会话面板"
    } else {
        "  显示会话面板"
    }
}

/// A shell in the menu of new tabs: its name, then its path in brackets.
pub open spec fn shell_text(name: Seq<char>, path: Seq<char>) -> Seq<char> {
    "  "@ + name + "  ("@ + path + ")"@
}

/// The label of a shell in the menu of new tabs.
pub fn shell_label(shell: &ShellInfo) -> (r: String)
    ensures
        r@ == shell_text(shell.name@, shell.path@),
{
    let mut out: String = "  ".to_owned();
    out.append(shell.name.as_str());
    out.append("  (");
    out.append(shell.path.as_str());
    out.append(")");
    out
}

/// Handles a click on a shell in the menu of new tabs.
pub fn shell_clicked(shell: &ShellInfo, actions: &mut Vec<GuiAction>)
    ensures
        final(actions)@ == old(actions)@.push(GuiAction::NewTabWithShell(shell.path)),
{
    actions.push(GuiAction::NewTabWithShell(shell.path.clone()));
}

/// The colour of a tab's status dot: blue for a local one, else green or red.
pub open spec fn dot_color(tab: TabInfo) -> [u8; 3] {
    if tab.is_ssh {
        if tab.is_connected {
            [22, 160, 70]
        } else {
            [210, 50, 45]
        }
    } else {
        [0, 120, 212]
    }
}

/// The colour of a tab's status dot.
pub fn tab_dot(tab: &TabInfo) -> (r: [u8; 3])
    ensures
        r == dot_color(*tab),
{
    if tab.is_ssh {
        if tab.is_connected {
            [22, 160, 70]
        } else {
            [210, 50, 45]
        }
    } else {
        [0, 120, 212]
    }
}

/// The background of a tab: white for the active one, grey for the others.
pub fn tab_background(index: usize, active_tab: usize) -> (r: [u8; 3])
    ensures
        r == if index == active_tab {
            [255u8, 255, 255]
        } else {
            [235u8, 235, 235]
        },
{
    if index == active_tab {
        [255, 255, 255]
    } else {
        [235, 235, 235]
    }
}

/// Handles a click on a tab's title: the active tab stays as it is.
pub fn tab_clicked(index: usize, active_tab: usize, actions: &mut Vec<GuiAction>)
    ensures
        final(actions)@ == if index == active_tab {
            old(actions)@
        } else {
            old(actions)@.push(GuiAction::SwitchTab(index))
        },
{
    if index != active_tab {
        actions.push(GuiAction::SwitchTab(index));
    }
}

/// Handles a click on a tab's close button.
pub fn tab_close_clicked(index: usize, actions: &mut Vec<GuiAction>)
    ensures
        final(actions)@ == old(actions)@.push(GuiAction::CloseTab(index)),
{
    actions.push(GuiAction::CloseTab(index));
}

/// What the background image needs.
#[derive(Debug)]
pub enum BackgroundStep {
    /// Nothing: the path has not changed.
    Keep,
    /// Drop the image: no path is set.
    Drop,
    /// Drop the image and try to load the one at the path, which counts as loaded either way.
    Load(String),
}

/// Decides what the background image needs, from the path in the settings and the path that was
/// tried last.
pub fn background_step(setting: &str, loaded: &str) -> (r: BackgroundStep)
    ensures
        match r {
            BackgroundStep::Keep => text::trimmed(setting@) == loaded@,
            BackgroundStep::Drop => text::trimmed(setting@) != loaded@ && text::trimmed(
                setting@,
            ).len() == 0,
            BackgroundStep::Load(p) => text::trimmed(setting@) != loaded@ && p@ == text::trimmed(
                setting@,
            ) && p@.len() > 0,
        },
{
    let chars: Vec<char> = text::to_chars(setting);
    let path: Vec<char> = text::trim(&chars);
    if text::is_text(&path, loaded) {
        BackgroundStep::Keep
    } else if path.len() == 0 {
        BackgroundStep::Drop
    } else {
        BackgroundStep::Load(text::to_string(&path))
    }
}

/// The panels that a frame draws.
#[derive(Debug, Clone, Copy, PartialEq, Eq, Structural)]
pub struct FramePanels {
    pub session: bool,
    pub settings: bool,
    pub ssh_dialog: bool,
    pub about: bool,
    pub find_bar: bool,
    pub history: bool,
    pub agent: bool,
    pub system: bool,
    pub sftp: bool,
}

/// Decides which panels a frame draws: the system panel needs the active tab's server status, the
/// SFTP panel a browser.
pub fn frame_panels(
    p: &Panels,
    tabs: &Vec<TabInfo>,
    active_tab: usize,
    has_browser: bool,
) -> (r: FramePanels)
    ensures
        r.session == p.show_session_panel,
        r.settings == p.show_settings,
        r.ssh_dialog == p.show_ssh_dialog,
        r.about == p.show_about,
        r.find_bar == p.show_find_bar,
        r.history == p.show_history_panel,
        r.agent == p.show_agent_panel,
        r.system == (p.show_system_panel && active_tab < tabs@.len()
            && tabs@[active_tab as int].server_status is Some),
        r.sftp == (p.show_sftp_panel && has_browser),
{
    let has_status: bool = active_tab < tabs.len() && tabs[active_tab].server_status.is_some();
    FramePanels {
        session: p.show_session_panel,
        settings: p.show_settings,
        ssh_dialog: p.show_ssh_dialog,
        about: p.show_about,
        find_bar: p.show_find_bar,
        history: p.show_history_panel,
        agent: p.show_agent_panel,
        system: p.show_system_panel && has_status,
        sftp: p.show_sftp_panel && has_browser,
    }
}

/// Whether a terminal has a scrollbar: there is history to scroll to.
pub open spec fn scrollable(info: ScrollInfo) -> bool {
    info.scrollback_len > 0
}

/// The pointer over the scrollbar in one frame.
#[derive(Debug, Clone, Copy, PartialEq, Eq, Structural)]
pub struct ScrollPointer {
    /// Over the track, with a margin.
    pub hovered: bool,
    /// The button is down.
    pub pressing: bool,
    /// The button went down in this frame.
    pub just_pressed: bool,
    /// Over the thumb.
    pub on_thumb: bool,
}

/// Where a drag that starts takes hold of the thumb.
#[derive(Debug, Clone, Copy, PartialEq, Eq, Structural)]
pub enum Grip {
    /// No drag starts.
    Nowhere,
    /// Where the pointer is on the thumb.
    AtPointer,
    /// At the middle of the thumb.
    AtMiddle,
}

/// Follows a drag of the scrollbar: whether the thumb is held after this frame, and where a drag
/// that starts takes hold. A terminal without history lets go.
pub fn scroll_drag(info: &ScrollInfo, dragging: bool, p: &ScrollPointer) -> (r: (bool, Grip))
    ensures
        r.0 == (scrollable(*info) && p.pressing && (dragging || (p.just_pressed && p.hovered))),
        r.1 == if !scrollable(*info) || !p.just_pressed || !p.hovered {
            Grip::Nowhere
        } else if p.on_thumb {
            Grip::AtPointer
        } else {
            Grip::AtMiddle
        },
{
    if info.scrollback_len == 0 {
        return (false, Grip::Nowhere);
    }
    let starts: bool = p.just_pressed && p.hovered;
    let grip: Grip = if !starts {
        Grip::Nowhere
    } else if p.on_thumb {
        Grip::AtPointer
    } else {
        Grip::AtMiddle
    };
    (p.pressing && (dragging || starts), grip)
}

/// How opaque the track and the thumb of the scrollbar are.
pub fn scroll_alphas(info: &ScrollInfo, hovered: bool, dragging: bool) -> (r: (u8, u8))
    ensures
        r.0 == if hovered || dragging {
            60u8
        } else {
            30u8
        },
        r.1 == if hovered || dragging || info.scroll_offset > 0 {
            200u8
        } else {
            80u8
        },
{
    let track: u8 = if hovered || dragging {
        60
    } else {
        30
    };
    let thumb: u8 = if hovered || dragging || info.scroll_offset > 0 {
        200
    } else {
        80
    };
    (track, thumb)
}

/// The action of a held thumb: scroll to the offset it stands for, no further than the history
/// goes.
pub fn scroll_to(info: &ScrollInfo, offset: usize) -> (r: GuiAction)
    ensures
        r == GuiAction::ScrollTo(
            if offset <= info.scrollback_len {
                offset
            } else {
                info.scrollback_len
            },
        ),
{
    if offset <= info.scrollback_len {
        GuiAction::ScrollTo(offset)
    } else {
        GuiAction::ScrollTo(info.scrollback_len)
    }
}

/// Menu and toolbar agree on what a new terminal and a split are, copying is not pasting and
/// zooming in is not zooming out; what an entry opens is open afterwards, and nothing else is opened
/// or closed.
pub proof fn law_entries_do_what_they_say(p: Panels)
    ensures
        menu_action(MenuItem::NewLocal) == Some(GuiAction::NewTab),
        menu_action(MenuItem::Copy) == Some(GuiAction::CopySelection),
        menu_action(MenuItem::Paste) == Some(GuiAction::PasteClipboard),
        menu_action(MenuItem::SelectAll) == Some(GuiAction::SelectAll),
        menu_action(MenuItem::ZoomIn) == Some(GuiAction::FontZoomIn),
        menu_action(MenuItem::ZoomOut) == Some(GuiAction::FontZoomOut),
        menu_action(MenuItem::ZoomReset) == Some(GuiAction::FontZoomReset),
        menu_action(MenuItem::SplitHorizontal) == Some(GuiAction::SplitHorizontal),
        menu_action(MenuItem::SplitVertical) == Some(GuiAction::SplitVertical),
        menu_action(MenuItem::DuplicateTab) == Some(GuiAction::DuplicateTab),
        menu_action(MenuItem::Disconnect) == Some(GuiAction::DisconnectTab(0)),
        menu_action(MenuItem::Reconnect) == Some(GuiAction::ReconnectTab(0)),
        menu_action(MenuItem::FullScreen) == Some(GuiAction::ToggleFullScreen),
        menu_action(MenuItem::Settings) is None,
        tool_action(ToolButton::NewLocal) == menu_action(MenuItem::NewLocal),
        tool_action(ToolButton::SplitHorizontal) == menu_action(MenuItem::SplitHorizontal),
        tool_action(ToolButton::SplitVertical) == menu_action(MenuItem::SplitVertical),
        tool_action(ToolButton::Mode) == Some(GuiAction::ToggleTerminalMode),
        menu_panels(p, MenuItem::Settings) == (Panels { show_settings: true, ..p }),
        menu_panels(p, MenuItem::About) == (Panels { show_about: true, ..p }),
        menu_panels(p, MenuItem::NewSsh) == (Panels { show_ssh_dialog: true, ..p }),
        menu_panels(p, MenuItem::SessionManager) == (Panels { show_session_panel: true, ..p }),
        menu_panels(p, MenuItem::Copy) == p,
        tool_panels(p, ToolButton::NewSsh) == menu_panels(p, MenuItem::NewSsh),
{
}

} // verus!
