//! SSH profiles, tunnels and requests, and what a connection attempt does with a profile.

use crate::ids;
use crate::number;
use crate::text;
use uuid::Uuid;
use vstd::prelude::*;

verus! {

/// Authentication method for an SSH connection.
#[derive(Debug)]
pub enum AuthMethod {
    /// Password authentication.
    Password(String),
    /// Public key file path (with optional passphrase).
    PublicKey { key_path: String, passphrase: Option<String> },
    /// Use the system SSH agent.
    Agent,
    /// Interactive keyboard authentication.
    KeyboardInteractive,
}

/// SSH connection profile (stored in session manager).
#[derive(Debug)]
pub struct SshProfile {
    pub id: Uuid,
    pub name: String,
    pub host: String,
    pub port: u16,
    pub username: String,
    pub auth: AuthMethod,
    /// Optional jump host chain.
    pub proxy_jump: Vec<String>,
    /// Custom environment variables to set on the remote.
    pub env: Vec<(String, String)>,
    /// Keep-alive interval in seconds (0 = disabled).
    pub keepalive_interval: u32,
    /// Tags for grouping/filtering.
    pub tags: Vec<String>,
    /// Group path (e.g., "Production/Web").
    pub group: Option<String>,
}

fn copy_option(s: &Option<String>) -> (r: Option<String>)
    ensures
        r == *s,
{
    match s {
        Some(t) => Some(t.clone()),
        None => None,
    }
}

fn copy_strings(v: &Vec<String>) -> (r: Vec<String>)
    ensures
        r@ == v@,
{
    let mut out: Vec<String> = Vec::new();
    let mut i: usize = 0;
    while i < v.len()
        invariant
            i <= v@.len(),
            out@ == v@.take(i as int),
        decreases v@.len() - i,
    {
        out.push(v[i].clone());
        i = i + 1;
        assert(out@ =~= v@.take(i as int));
    }
    assert(v@.take(i as int) =~= v@);
    out
}

fn copy_pairs(v: &Vec<(String, String)>) -> (r: Vec<(String, String)>)
    ensures
        r@ == v@,
{
    let mut out: Vec<(String, String)> = Vec::new();
    let mut i: usize = 0;
    while i < v.len()
        invariant
            i <= v@.len(),
            out@ == v@.take(i as int),
        decreases v@.len() - i,
    {
        out.push((v[i].0.clone(), v[i].1.clone()));
        i = i + 1;
        assert(out@ =~= v@.take(i as int));
    }
    assert(v@.take(i as int) =~= v@);
    out
}

impl Clone for AuthMethod {
    fn clone(&self) -> (r: AuthMethod)
        ensures
            r == *self,
    {
        match self {
            AuthMethod::Password(p) => AuthMethod::Password(p.clone()),
            AuthMethod::PublicKey { key_path, passphrase } => AuthMethod::PublicKey {
                key_path: key_path.clone(),
                passphrase: copy_option(passphrase),
            },
            AuthMethod::Agent => AuthMethod::Agent,
            AuthMethod::KeyboardInteractive => AuthMethod::KeyboardInteractive,
        }
    }
}

impl Clone for SshProfile {
    fn clone(&self) -> (r: SshProfile)
        ensures
            r.proxy_jump@ == self.proxy_jump@,
            r.env@ == self.env@,
            r.tags@ == self.tags@,
            r == (SshProfile { proxy_jump: r.proxy_jump, env: r.env, tags: r.tags, ..*self }),
    {
        SshProfile {
            id: self.id,
            name: self.name.clone(),
            host: self.host.clone(),
            port: self.port,
            username: self.username.clone(),
            auth: self.auth.clone(),
            proxy_jump: copy_strings(&self.proxy_jump),
            env: copy_pairs(&self.env),
            keepalive_interval: self.keepalive_interval,
            tags: copy_strings(&self.tags),
            group: copy_option(&self.group),
        }
    }
}

impl SshProfile {
    /// A profile with nothing filled in but the usual port, user and keep-alive.
    pub open spec fn is_default(self) -> bool {
        &&& self.name@ == Seq::<char>::empty()
        &&& self.host@ == Seq::<char>::empty()
        &&& self.port == 22
        &&& self.username@ == "root"@
        &&& self.auth is Agent
        &&& self.proxy_jump@.len() == 0
        &&& self.env@.len() == 0
        &&& self.keepalive_interval == 30
        &&& self.tags@.len() == 0
        &&& self.group is None
    }
}

impl Default for SshProfile {
    fn default() -> (r: SshProfile)
        ensures
            r.is_default(),
    {
        let p = SshProfile {
            id: ids::fresh_id(),
            name: String::new(),
            host: String::new(),
            port: 22,
            username: "root".to_owned(),
            auth: AuthMethod::Agent,
            proxy_jump: Vec::new(),
            env: Vec::new(),
            keepalive_interval: 30,
            tags: Vec::new(),
            group: None,
        };
        assert(p.name@ =~= Seq::empty());
        p
    }
}

/// SSH tunnel type.
#[derive(Debug, Clone)]
pub enum TunnelType {
    /// -L local_port:remote_host:remote_port
    LocalForward { local_port: u16, remote_host: String, remote_port: u16 },
    /// -R remote_port:local_host:local_port
    RemoteForward { remote_port: u16, local_host: String, local_port: u16 },
    /// -D local_port (SOCKS5 proxy)
    DynamicForward { local_port: u16 },
}

/// A configured tunnel template.
#[derive(Debug, Clone)]
pub struct TunnelConfig {
    pub name: String,
    pub tunnel_type: TunnelType,
    pub auto_start: bool,
}

/// Result of executing a command on a single target.
#[derive(Debug)]
pub struct ExecResult {
    pub session_id: Uuid,
    pub host: String,
    pub stdout: String,
    pub stderr: String,
    pub exit_code: i32,
}

/// Multi-Exec request.
#[derive(Debug)]
pub struct MultiExecRequest {
    pub command: String,
    pub targets: Vec<Uuid>,
    /// Delay between each target (0 = parallel).
    pub rolling_delay_ms: u64,
}

impl Clone for ExecResult {
    fn clone(&self) -> (r: ExecResult)
        ensures
            r == *self,
    {
        ExecResult {
            session_id: self.session_id,
            host: self.host.clone(),
            stdout: self.stdout.clone(),
            stderr: self.stderr.clone(),
            exit_code: self.exit_code,
        }
    }
}

impl Clone for MultiExecRequest {
    fn clone(&self) -> (r: MultiExecRequest)
        ensures
            r.targets@ == self.targets@,
            r == (MultiExecRequest { targets: r.targets, ..*self }),
    {
        let mut targets: Vec<Uuid> = Vec::new();
        let mut i: usize = 0;
        while i < self.targets.len()
            invariant
                i <= self.targets@.len(),
                targets@ == self.targets@.take(i as int),
            decreases self.targets@.len() - i,
        {
            targets.push(self.targets[i]);
            i = i + 1;
            assert(targets@ =~= self.targets@.take(i as int));
        }
        assert(self.targets@.take(i as int) =~= self.targets@);
        MultiExecRequest {
            command: self.command.clone(),
            targets,
            rolling_delay_ms: self.rolling_delay_ms,
        }
    }
}

/// The address that a host and a port make: `host:port`.
pub open spec fn address_of(host: Seq<char>, port: u16) -> Seq<char> {
    host + seq![':'] + number::digits(port as nat)
}

/// The address to connect to, `host:port`.
pub fn address(host: &str, port: u16) -> (r: String)
    ensures
        r@ == address_of(host@, port),
{
    let mut out: String = host.to_owned();
    text::push_char(&mut out, ':');
    number::push_digits(&mut out, port as u64);
    assert(out@ =~= address_of(host@, port));
    out
}

/// What a connection attempt has to do to authenticate.
#[derive(Debug, Clone, Copy, PartialEq, Eq, Structural)]
pub enum AuthStep {
    /// Offer the password.
    OfferPassword,
    /// Load the key and offer it.
    OfferKey,
    /// Give up: there is no SSH agent support.
    NoAgent,
    /// Give up: there is no keyboard-interactive support.
    NoKeyboardInteractive,
}

/// The step that a method calls for.
pub open spec fn step_of(auth: AuthMethod) -> AuthStep {
    match auth {
        AuthMethod::Password(_) => AuthStep::OfferPassword,
        AuthMethod::PublicKey { .. } => AuthStep::OfferKey,
        AuthMethod::Agent => AuthStep::NoAgent,
        AuthMethod::KeyboardInteractive => AuthStep::NoKeyboardInteractive,
    }
}

/// The step that a method calls for.
pub fn auth_step(auth: &AuthMethod) -> (r: AuthStep)
    ensures
        r == step_of(*auth),
{
    match auth {
        AuthMethod::Password(_) => AuthStep::OfferPassword,
        AuthMethod::PublicKey { key_path: _, passphrase: _ } => AuthStep::OfferKey,
        AuthMethod::Agent => AuthStep::NoAgent,
        AuthMethod::KeyboardInteractive => AuthStep::NoKeyboardInteractive,
    }
}

/// Why a connection attempt ended without authentication.
#[derive(Debug, Clone, Copy, PartialEq, Eq, Structural)]
pub enum AuthError {
    PasswordFailed,
    PublicKeyFailed,
    AgentNotImplemented,
    KeyboardInteractiveNotImplemented,
}

/// The outcome of a step, given whether the server accepted what was offered.
pub fn auth_outcome(step: AuthStep, accepted: bool) -> (r: Result<(), AuthError>)
    ensures
        r.is_ok() == (accepted && (step == AuthStep::OfferPassword || step == AuthStep::OfferKey)),
        r matches Err(e) ==> e == match step {
            AuthStep::OfferPassword => AuthError::PasswordFailed,
            AuthStep::OfferKey => AuthError::PublicKeyFailed,
            AuthStep::NoAgent => AuthError::AgentNotImplemented,
            AuthStep::NoKeyboardInteractive => AuthError::KeyboardInteractiveNotImplemented,
        },
{
    match step {
        AuthStep::OfferPassword => if accepted {
            Ok(())
        } else {
            Err(AuthError::PasswordFailed)
        },
        AuthStep::OfferKey => if accepted {
            Ok(())
        } else {
            Err(AuthError::PublicKeyFailed)
        },
        AuthStep::NoAgent => Err(AuthError::AgentNotImplemented),
        AuthStep::NoKeyboardInteractive => Err(AuthError::KeyboardInteractiveNotImplemented),
    }
}

/// The message of an authentication error.
pub fn auth_error_message(e: AuthError) -> (r: &'static str)
    ensures
        r@ == match e {
            AuthError::PasswordFailed => "password authentication failed"@,
            AuthError::PublicKeyFailed => "public key authentication failed"@,
            AuthError::AgentNotImplemented => "SSH agent not implemented yet"@,
            AuthError::KeyboardInteractiveNotImplemented => {
                "keyboard-interactive not implemented yet"@
            },
        },
{
    match e {
        AuthError::PasswordFailed => "password authentication failed",
        AuthError::PublicKeyFailed => "public key authentication failed",
        AuthError::AgentNotImplemented => "SSH agent not implemented yet",
        AuthError::KeyboardInteractiveNotImplemented => "keyboard-interactive not implemented yet",
    }
}

/// What comes from the channel of a command that runs on a remote host.
pub enum ExecMsg {
    /// Output of the command.
    Data(Vec<u8>),
    /// The end of the output, or of the channel.
    End,
    /// Anything else.
    Other,
}

/// The text of bytes, with replacement characters where they are not valid UTF-8, as
/// `String::from_utf8_lossy` has it.
pub uninterp spec fn lossy_text(bytes: Seq<u8>) -> Seq<char>;

/// `String::from_utf8_lossy`: the result goes by the name `lossy_text`. Valid UTF-8 is decoded as
/// it is.
#[verifier::external_body]
fn decode_lossy(bytes: &[u8]) -> (r: String)
    ensures
        r@ == lossy_text(bytes@),
        vstd::utf8::valid_utf8(bytes@) ==> r@ == vstd::utf8::decode_utf8(bytes@),
{
    String::from_utf8_lossy(bytes).to_string()
}

/// The output of a remote command as it comes in.
pub struct ExecOutput {
    pub bytes: Vec<u8>,
    pub done: bool,
}

impl ExecOutput {
    pub fn new() -> (r: ExecOutput)
        ensures
            r.bytes@ == Seq::<u8>::empty(),
            !r.done,
    {
        ExecOutput { bytes: Vec::new(), done: false }
    }

    /// Takes one message: data is appended, the end ends it.
    pub fn take(&mut self, msg: ExecMsg)
        ensures
            match msg {
                ExecMsg::Data(data) => final(self).bytes@ == old(self).bytes@ + data@
                    && final(self).done == old(self).done,
                ExecMsg::End => final(self).bytes@ == old(self).bytes@ && final(self).done,
                ExecMsg::Other => *final(self) == *old(self),
            },
    {
        match msg {
            ExecMsg::Data(data) => {
                let mut data: Vec<u8> = data;
                self.bytes.append(&mut data);
            },
            ExecMsg::End => {
                self.done = true;
            },
            ExecMsg::Other => {},
        }
    }

    /// The output as text.
    pub fn text(&self) -> (r: String)
        ensures
            r@ == lossy_text(self.bytes@),
            vstd::utf8::valid_utf8(self.bytes@) ==> r@ == vstd::utf8::decode_utf8(self.bytes@),
    {
        decode_lossy(self.bytes.as_slice())
    }
}

/// An address is the host, a colon and the port in decimal.
pub proof fn law_address_reads(host: Seq<char>, port: u16)
    ensures
        ({
            let a = address_of(host, port);
            let tail = a.skip((host.len() + 1) as int);
            &&& a.take(host.len() as int) == host
            &&& a[host.len() as int] == ':'
            &&& tail == number::decimal(port as nat).map_values(|b: u8| b as char)
            &&& number::value(number::decimal(port as nat)) == port
        }),
{
    let a = address_of(host, port);
    assert(a.take(host.len() as int) =~= host);
    assert(a.skip((host.len() + 1) as int) =~= number::digits(port as nat));
    number::law_decimal_reads_back(port as nat);
}

} // verus!
