//! The settings window's choices and what applying them asks for.

use crate::gui::{GuiAction, Panels};
use vstd::prelude::*;

verus! {

/// The settings that are no sliders.
#[derive(Debug)]
pub struct Settings {
    pub font_family: String,
    pub theme: String,
    pub shell: String,
    pub background_image: String,
    pub cursor_style: usize,
    pub cursor_blink: bool,
    pub scrollback: u32,
    /// The open page: appearance, terminal, keyboard.
    pub tab: usize,
}

impl Settings {
    /// The settings to begin with.
    pub fn new(font_family: &str, theme: &str, shell: &str) -> (r: Settings)
        ensures
            r.font_family@ == font_family@,
            r.theme@ == theme@,
            r.shell@ == shell@,
            r.background_image@ == Seq::<char>::empty(),
            r.cursor_style == 1,
            r.cursor_blink,
            r.scrollback == 100_000,
            r.tab == 0,
    {
        Settings {
            font_family: font_family.to_owned(),
            theme: theme.to_owned(),
            shell: shell.to_owned(),
            background_image: String::new(),
            cursor_style: 1,
            cursor_blink: true,
            scrollback: 100_000,
            tab: 0,
        }
    }

    /// The action that applies the settings.
    pub fn apply(&self) -> (r: GuiAction)
        ensures
            r == (GuiAction::ApplySettings {
                font_family: self.font_family,
                theme: self.theme,
                shell: self.shell,
                background_image: self.background_image,
                cursor_style: self.cursor_style,
                cursor_blink: self.cursor_blink,
            }),
    {
        GuiAction::ApplySettings {
            font_family: self.font_family.clone(),
            theme: self.theme.clone(),
            shell: self.shell.clone(),
            background_image: self.background_image.clone(),
            cursor_style: self.cursor_style,
            cursor_blink: self.cursor_blink,
        }
    }

    /// The name of the chosen cursor style; an unknown one shows as a beam.
    pub fn cursor_style_name(&self) -> (r: &'static str)
        ensures
            r@ == if self.cursor_style == 0 {
                "Block"@
            } else if self.cursor_style == 2 {
                "Underline"@
            } else {
                "Beam"@
            },
    {
        if self.cursor_style == 0 {
            "Block"
        } else if self.cursor_style == 2 {
            "Underline"
        } else {
            "Beam"
        }
    }
}

/// Handles the settings window's buttons: applying hands the settings out, closing hides the
/// window.
pub fn settings_clicked(
    settings: &Settings,
    panels: &mut Panels,
    apply: bool,
    close: bool,
    actions: &mut Vec<GuiAction>,
)
    ensures
        *final(panels) == if close {
            Panels { show_settings: false, ..*old(panels) }
        } else {
            *old(panels)
        },
        final(actions)@ == if apply {
            old(actions)@.push(
                GuiAction::ApplySettings {
                    font_family: settings.font_family,
                    theme: settings.theme,
                    shell: settings.shell,
                    background_image: settings.background_image,
                    cursor_style: settings.cursor_style,
                    cursor_blink: settings.cursor_blink,
                },
            )
        } else {
            old(actions)@
        },
{
    if apply {
        actions.push(settings.apply());
    }
    if close {
        panels.show_settings = false;
    }
}

} // verus!
