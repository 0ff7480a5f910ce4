//! The connection dialog: its fields and what its buttons ask for.

use crate::gui::{GuiAction, Panels, SshAuthInput};
use crate::number;
use vstd::prelude::*;
use vstd::string::StringExecFns;

verus! {

/// The fields of the connection dialog.
#[derive(Debug)]
pub struct SshForm {
    pub name: String,
    pub group: String,
    pub host: String,
    pub port: String,
    pub username: String,
    pub password: String,
    pub key_path: String,
    /// 0 for a password, else a key.
    pub auth_mode: usize,
    /// UUID of the profile currently being edited (None = creating new).
    pub editing_profile_id: Option<String>,
}

/// The buttons of the connection dialog.
#[derive(Debug, Clone, Copy, PartialEq, Eq, Structural)]
pub enum DialogButton {
    UpdateAndConnect,
    Update,
    Connect,
    SaveAndConnect,
    Save,
    Cancel,
}

impl SshForm {
    /// A form with nothing filled in but the usual port and group.
    pub open spec fn is_blank(self) -> bool {
        &&& self.name@ == Seq::<char>::empty()
        &&& self.group@ == "Default"@
        &&& self.host@ == Seq::<char>::empty()
        &&& self.port@ == "22"@
        &&& self.username@ == Seq::<char>::empty()
        &&& self.password@ == Seq::<char>::empty()
        &&& self.key_path@ == Seq::<char>::empty()
        &&& self.auth_mode == 0
        &&& self.editing_profile_id is None
    }

    /// The port that the text writes; 22 where it writes none.
    pub open spec fn port_number(self) -> u16 {
        match number::read_u16(vstd::utf8::encode_utf8(self.port@)) {
            Some(p) => p,
            None => 22,
        }
    }

    /// The profile's name: the one filled in, else `user@host`.
    pub open spec fn profile_name(self) -> Seq<char> {
        if self.name@.len() == 0 {
            self.username@ + "@"@ + self.host@
        } else {
            self.name@
        }
    }

    /// What logs in: the password or the key, by the mode.
    pub open spec fn auth(self) -> SshAuthInput {
        if self.auth_mode == 0 {
            SshAuthInput::Password(self.password)
        } else {
            SshAuthInput::KeyFile(self.key_path)
        }
    }

    /// The action that connects.
    pub open spec fn connects(self) -> GuiAction {
        GuiAction::ConnectSsh {
            host: self.host,
            port: self.port_number(),
            username: self.username,
            auth: self.auth(),
        }
    }

    /// An action saves what the form holds as a new profile.
    pub open spec fn saved_by(self, a: GuiAction) -> bool {
        a matches GuiAction::SaveProfile {
            name,
            group,
            host,
            port,
            username,
            auth_mode,
            password,
            key_path,
        } && name@ == self.profile_name() && group == self.group && host == self.host && port
            == self.port_number() && username == self.username && auth_mode == self.auth_mode
            && password == self.password && key_path == self.key_path
    }

    /// An action writes what the form holds to the profile being edited.
    pub open spec fn updated_by(self, a: GuiAction) -> bool {
        a matches GuiAction::UpdateProfile {
            id,
            name,
            group,
            host,
            port,
            username,
            auth_mode,
            password,
            key_path,
        } && self.editing_profile_id == Some(id) && name@ == self.profile_name() && group
            == self.group && host == self.host && port == self.port_number() && username
            == self.username && auth_mode == self.auth_mode && password == self.password
            && key_path == self.key_path
    }

    /// Whether the dialog shows a button: updating needs a profile being edited, connecting and
    /// saving need that there is none.
    pub open spec fn shows(self, button: DialogButton) -> bool {
        match button {
            DialogButton::UpdateAndConnect | DialogButton::Update => self.editing_profile_id is Some,
            DialogButton::Connect | DialogButton::SaveAndConnect | DialogButton::Save =>
                self.editing_profile_id is None,
            DialogButton::Cancel => true,
        }
    }

    /// The actions that a click on a button adds.
    pub open spec fn answers(self, button: DialogButton, added: Seq<GuiAction>) -> bool {
        match button {
            DialogButton::UpdateAndConnect => added.len() == 2 && self.updated_by(added[0])
                && added[1] == self.connects(),
            DialogButton::Update => added.len() == 1 && self.updated_by(added[0]),
            DialogButton::Connect => added.len() == 1 && added[0] == self.connects(),
            DialogButton::SaveAndConnect => added.len() == 2 && self.saved_by(added[0]) && added[1]
                == self.connects(),
            DialogButton::Save => added.len() == 1 && self.saved_by(added[0]),
            DialogButton::Cancel => added.len() == 0,
        }
    }

    /// A blank form.
    pub fn new() -> (r: SshForm)
        ensures
            r.is_blank(),
    {
        let f = SshForm {
            name: String::new(),
            group: "Default".to_owned(),
            host: String::new(),
            port: "22".to_owned(),
            username: String::new(),
            password: String::new(),
            key_path: String::new(),
            auth_mode: 0,
            editing_profile_id: None,
        };
        assert(f.name@ =~= Seq::empty());
        f
    }

    /// The title of the dialog.
    pub fn title(&self) -> (r: &'static str)
        ensures
            r@ == if self.editing_profile_id is Some {
                "Edit SSH Connection"@
            } else {
                "New SSH Connection"@
            },
    {
        if self.editing_profile_id.is_some() {
            "Edit SSH Connection"
        } else {
            "New SSH Connection"
        }
    }

    /// The port to connect to.
    pub fn port(&self) -> (r: u16)
        ensures
            r == self.port_number(),
    {
        match number::parse_u16(self.port.as_str().as_bytes()) {
            Some(p) => p,
            None => 22,
        }
    }

    /// The name to save under.
    pub fn name_to_save(&self) -> (r: String)
        ensures
            r@ == self.profile_name(),
    {
        if self.name.as_str().is_empty() {
            let mut out: String = self.username.clone();
            out.append("@");
            out.append(self.host.as_str());
            out
        } else {
            self.name.clone()
        }
    }

    /// The action that connects.
    pub fn connect(&self) -> (r: GuiAction)
        ensures
            r == self.connects(),
    {
        let auth = if self.auth_mode == 0 {
            SshAuthInput::Password(self.password.clone())
        } else {
            SshAuthInput::KeyFile(self.key_path.clone())
        };
        GuiAction::ConnectSsh {
            host: self.host.clone(),
            port: self.port(),
            username: self.username.clone(),
            auth,
        }
    }

    /// The action that saves a new profile.
    pub fn save(&self) -> (r: GuiAction)
        ensures
            self.saved_by(r),
    {
        GuiAction::SaveProfile {
            name: self.name_to_save(),
            group: self.group.clone(),
            host: self.host.clone(),
            port: self.port(),
            username: self.username.clone(),
            auth_mode: self.auth_mode,
            password: self.password.clone(),
            key_path: self.key_path.clone(),
        }
    }

    /// The action that updates the profile being edited.
    pub fn update(&self, id: &String) -> (r: GuiAction)
        requires
            self.editing_profile_id == Some(*id),
        ensures
            self.updated_by(r),
    {
        GuiAction::UpdateProfile {
            id: id.clone(),
            name: self.name_to_save(),
            group: self.group.clone(),
            host: self.host.clone(),
            port: self.port(),
            username: self.username.clone(),
            auth_mode: self.auth_mode,
            password: self.password.clone(),
            key_path: self.key_path.clone(),
        }
    }

    /// Closes the dialog and ends editing.
    pub fn close(&mut self, panels: &mut Panels)
        ensures
            *final(panels) == (Panels { show_ssh_dialog: false, ..*old(panels) }),
            *final(self) == (SshForm { editing_profile_id: None, ..*old(self) }),
    {
        panels.show_ssh_dialog = false;
        self.editing_profile_id = None;
    }

    /// Opens the dialog for a new session.
    pub fn open_new(&mut self, panels: &mut Panels)
        ensures
            *final(panels) == (Panels { show_ssh_dialog: true, ..*old(panels) }),
            final(self).is_blank(),
    {
        *self = SshForm::new();
        panels.show_ssh_dialog = true;
    }

    /// Handles a click on a button of the dialog. Every button but the plain connect closes the
    /// dialog; updating and cancelling also end editing.
    pub fn clicked(
        &mut self,
        panels: &mut Panels,
        button: DialogButton,
        actions: &mut Vec<GuiAction>,
    )
        requires
            old(self).shows(button),
        ensures
            final(actions)@.len() >= old(actions)@.len(),
            final(actions)@.take(old(actions)@.len() as int) == old(actions)@,
            old(self).answers(button, final(actions)@.skip(old(actions)@.len() as int)),
            *final(panels) == if button is Connect {
                *old(panels)
            } else {
                Panels { show_ssh_dialog: false, ..*old(panels) }
            },
            *final(self) == (SshForm { editing_profile_id: if button is Connect {
                old(self).editing_profile_id
            } else {
                None
            }, ..*old(self) }),
    {
        let ghost n = actions@.len() as int;
        match button {
            DialogButton::UpdateAndConnect => {
                if let Some(id) = self.editing_profile_id.clone() {
                    actions.push(self.update(&id));
                }
                actions.push(self.connect());
                self.close(panels);
            },
            DialogButton::Update => {
                if let Some(id) = self.editing_profile_id.clone() {
                    actions.push(self.update(&id));
                }
                self.close(panels);
            },
            DialogButton::Connect => {
                actions.push(self.connect());
            },
            DialogButton::SaveAndConnect => {
                actions.push(self.save());
                actions.push(self.connect());
                panels.show_ssh_dialog = false;
            },
            DialogButton::Save => {
                actions.push(self.save());
                panels.show_ssh_dialog = false;
            },
            DialogButton::Cancel => {
                self.close(panels);
            },
        }
        assert(actions@.take(n) =~= old(actions)@);
        proof {
            let added = actions@.skip(n);
            assert(button is Cancel ==> added.len() == 0);
            assert(added.len() > 0 ==> added[0] == actions@[n]);
            assert(added.len() > 1 ==> added[1] == actions@[n + 1]);
        }
    }
}

/// What is saved and connected to in one click is one and the same host, port and user.
pub proof fn law_save_and_connect_agree(f: SshForm, added: Seq<GuiAction>)
    requires
        f.answers(DialogButton::SaveAndConnect, added),
    ensures
        added[0]->SaveProfile_host == added[1]->ConnectSsh_host,
        added[0]->SaveProfile_port == added[1]->ConnectSsh_port,
        added[0]->SaveProfile_username == added[1]->ConnectSsh_username,
{
}

/// What is connected to is the host and the user as filled in, at the port that the text writes in
/// decimal, with the password or, in the other mode, the key file.
pub proof fn law_connects_to_what_is_filled_in(f: SshForm, n: nat)
    requires
        n <= u16::MAX,
        vstd::utf8::encode_utf8(f.port@) == number::decimal(n),
    ensures
        f.connects() == (GuiAction::ConnectSsh {
            host: f.host,
            port: n as u16,
            username: f.username,
            auth: if f.auth_mode == 0 {
                SshAuthInput::Password(f.password)
            } else {
                SshAuthInput::KeyFile(f.key_path)
            },
        }),
{
    number::law_decimal_reads_back(n);
}

} // verus!
