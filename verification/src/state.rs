//! The state of the window around the terminal.

use crate::agent_panel::AgentChat;
use crate::find_bar::FindBar;
use crate::gui::{
    BackgroundStep, HistoryItem, Panels, ShellInfo, SshProfileEntry, TerminalDisplayMode,
};
use crate::settings::Settings;
use crate::sftp_panel::SftpForm;
use crate::ssh_dialog::SshForm;
use crate::system_panel::SystemChoice;
use crate::text;
use vstd::prelude::*;

verus! {

/// What the window shows and what its fields hold.
#[derive(Debug)]
pub struct GuiState {
    pub panels: Panels,
    pub terminal_mode: TerminalDisplayMode,
    pub settings: Settings,
    pub ssh: SshForm,
    pub find: FindBar,
    pub sftp: SftpForm,
    pub system: SystemChoice,
    pub agent: AgentChat,
    /// Detected available shells on the system.
    pub available_shells: Vec<ShellInfo>,
    pub ssh_profiles: Vec<SshProfileEntry>,
    pub session_filter: String,
    pub selected_profile: Option<usize>,
    pub history_search: String,
    pub history_entries: Vec<HistoryItem>,
    pub scrollbar_dragging: bool,
    /// Whether the window's style has been set.
    pub style_applied: bool,
    /// Path of the background image that was tried last.
    pub bg_loaded_path: String,
}

impl GuiState {
    /// The window as it opens: the session panel beside a normal terminal, and empty fields.
    pub fn new(font_family: &str, theme: &str, shell: &str) -> (r: GuiState)
        ensures
            r.panels == crate::gui::first_panels(),
            r.terminal_mode == TerminalDisplayMode::Normal,
            r.settings.font_family@ == font_family@,
            r.settings.theme@ == theme@,
            r.settings.shell@ == shell@,
            r.settings.background_image@ == Seq::<char>::empty(),
            r.settings.cursor_style == 1,
            r.settings.cursor_blink,
            r.settings.scrollback == 100_000,
            r.settings.tab == 0,
            r.ssh.is_blank(),
            r.find@.query == Seq::<char>::empty(),
            r.find@.last_query == Seq::<char>::empty(),
            !r.find@.case_sensitive && !r.find@.whole_word && !r.find@.use_regex,
            r.find@.match_count == 0 && r.find@.current_index == 0,
            r.sftp.path_input@ == Seq::<char>::empty(),
            r.sftp.new_name@ == Seq::<char>::empty(),
            r.system == (SystemChoice {
                selected_net_if: None,
                proc_sort_col: 0,
                proc_sort_asc: false,
            }),
            r.agent.is_fresh(),
            r.available_shells@.len() == 0,
            r.ssh_profiles@.len() == 0,
            r.session_filter@ == Seq::<char>::empty(),
            r.selected_profile is None,
            r.history_search@ == Seq::<char>::empty(),
            r.history_entries@.len() == 0,
            !r.scrollbar_dragging,
            !r.style_applied,
            r.bg_loaded_path@ == Seq::<char>::empty(),
    {
        GuiState {
            panels: Panels::new(),
            terminal_mode: TerminalDisplayMode::Normal,
            settings: Settings::new(font_family, theme, shell),
            ssh: SshForm::new(),
            find: FindBar::new(),
            sftp: SftpForm::new(),
            system: SystemChoice::new(),
            agent: AgentChat::new(),
            available_shells: Vec::new(),
            ssh_profiles: Vec::new(),
            session_filter: String::new(),
            selected_profile: None,
            history_search: String::new(),
            history_entries: Vec::new(),
            scrollbar_dragging: false,
            style_applied: false,
            bg_loaded_path: String::new(),
        }
    }

    /// Decides what the background image needs and remembers the path that is tried: an image that
    /// cannot be loaded is not tried again until the path changes.
    pub fn sync_background(&mut self) -> (r: BackgroundStep)
        ensures
            ({
                let path = text::trimmed(old(self).settings.background_image@);
                &&& final(self).bg_loaded_path@ == path
                &&& *final(self) == (GuiState {
                    bg_loaded_path: final(self).bg_loaded_path,
                    ..*old(self)
                })
                &&& match r {
                    BackgroundStep::Keep => path == old(self).bg_loaded_path@,
                    BackgroundStep::Drop => path != old(self).bg_loaded_path@ && path.len() == 0,
                    BackgroundStep::Load(p) => path != old(self).bg_loaded_path@ && p@ == path
                        && path.len() > 0,
                }
            }),
    {
        let step = crate::gui::background_step(
            self.settings.background_image.as_str(),
            self.bg_loaded_path.as_str(),
        );
        match &step {
            BackgroundStep::Keep => {},
            BackgroundStep::Drop => {
                self.bg_loaded_path = String::new();
                assert(self.bg_loaded_path@ =~= text::trimmed(old(self).settings.background_image@));
            },
            BackgroundStep::Load(p) => {
                self.bg_loaded_path = p.clone();
            },
        }
        step
    }
}

} // verus!
