//! How a session is started: the command that is run and what is remembered of it.
use vstd::prelude::*;
use vstd::string::*;
use crate::control::{fresh_control, ControlView, TmuxControlState};
use crate::errors::SessionError;
use crate::outside::{random_id, short_id, short_id_text, utc_now, Timestamp};
use crate::quote::{
    all_plain, command_of, law_commands_are_read_back, shell_escape, shell_escaped, shell_words,
};
use crate::table::{views, TextMap};
use crate::text::{
    alphanumeric, chars_of, copy_opt, decimal, find, is_alphanumeric, lemma_decimal_digits,
    lemma_find_from, occurs_at, opt_str, opt_text, push_decimal, text_contains, trim, trimmed, Text,
};

verus! {

// ---------------------------------------------------------------------------
// Requests, targets, remembered sessions
// ---------------------------------------------------------------------------

/// How a session is run.
#[derive(Clone, Copy, Debug, PartialEq, Eq, Structural)]
pub enum SessionMode {
    /// tmux on this machine.
    Local,
    /// tmux on another machine.
    Ssh,
    /// tmux on this machine, in control mode.
    LocalCc,
    /// tmux on another machine, in control mode.
    SshCc,
}

/// How a session is asked to be run.
#[derive(Clone, Copy, Debug, PartialEq, Eq, Structural)]
pub enum CreateMode {
    /// tmux on this machine.
    Local,
    /// tmux on another machine.
    Ssh,
    /// tmux on this machine, in control mode.
    LocalCc,
    /// tmux on another machine, in control mode.
    SshCc,
}

/// Another machine.
#[derive(Clone, Debug)]
pub struct SshTarget {
    /// Its name.
    pub host: String,
    /// Whom to log in as.
    pub username: String,
    /// The port; 22 where there is none.
    pub port: Option<u16>,
    /// The file that holds the key.
    pub key_path: Option<String>,
}

/// What a target holds.
#[verifier::ext_equal]
pub struct SshView {
    pub host: Text,
    pub username: Text,
    pub port: Option<u16>,
    pub key_path: Option<Text>,
}

impl View for SshTarget {
    type V = SshView;

    open spec fn view(&self) -> SshView {
        SshView {
            host: self.host@,
            username: self.username@,
            port: self.port,
            key_path: opt_text(self.key_path),
        }
    }
}

/// What an optional target holds.
pub open spec fn opt_ssh(value: Option<SshTarget>) -> Option<SshView> {
    match value {
        Some(ssh) => Some(ssh@),
        None => None,
    }
}

impl SshTarget {
    /// The same target again.
    pub fn copy(&self) -> (res: Self)
        ensures
            res@ == self@,
    {
        SshTarget {
            host: self.host.clone(),
            username: self.username.clone(),
            port: self.port,
            key_path: copy_opt(&self.key_path),
        }
    }
}

/// What a user asks for.
#[derive(Clone, Debug)]
pub struct CreateSessionRequest {
    /// The name that the user sees.
    pub name: Option<String>,
    /// How to run the session; in control mode on this machine where it is left open.
    pub mode: Option<CreateMode>,
    /// How many columns the terminal has.
    pub cols: Option<u16>,
    /// How many rows the terminal has.
    pub rows: Option<u16>,
    /// What tmux calls the session.
    pub tmux_name: Option<String>,
    /// The other machine.
    pub ssh: Option<SshTarget>,
    /// A command to run instead of tmux.
    pub command: Option<String>,
}

/// What a request holds.
#[verifier::ext_equal]
pub struct RequestView {
    pub name: Option<Text>,
    pub mode: Option<CreateMode>,
    pub cols: Option<u16>,
    pub rows: Option<u16>,
    pub tmux_name: Option<Text>,
    pub ssh: Option<SshView>,
    pub command: Option<Text>,
}

impl View for CreateSessionRequest {
    type V = RequestView;

    open spec fn view(&self) -> RequestView {
        RequestView {
            name: opt_text(self.name),
            mode: self.mode,
            cols: self.cols,
            rows: self.rows,
            tmux_name: opt_text(self.tmux_name),
            ssh: opt_ssh(self.ssh),
            command: opt_text(self.command),
        }
    }
}

/// A session that is started again after a restart.
pub struct PersistedSession {
    /// Its id.
    pub id: u128,
    /// The name that the user sees.
    pub name: String,
    /// How it is run.
    pub mode: SessionMode,
    /// What tmux calls it.
    pub tmux_name: String,
    /// How many columns the terminal has.
    pub cols: u16,
    /// How many rows the terminal has.
    pub rows: u16,
    /// The other machine.
    pub ssh: Option<SshTarget>,
    /// What the user noted down about panes.
    pub pane_notes: TextMap<String>,
    /// When it was asked for.
    pub created_at: Timestamp,
}

/// What a remembered session holds.
#[verifier::ext_equal]
pub struct PersistedView {
    pub id: u128,
    pub name: Text,
    pub mode: SessionMode,
    pub tmux_name: Text,
    pub cols: u16,
    pub rows: u16,
    pub ssh: Option<SshView>,
    pub notes: Map<Text, Text>,
    pub created_at: Timestamp,
}

impl View for PersistedSession {
    type V = PersistedView;

    open spec fn view(&self) -> PersistedView {
        PersistedView {
            id: self.id,
            name: self.name@,
            mode: self.mode,
            tmux_name: self.tmux_name@,
            cols: self.cols,
            rows: self.rows,
            ssh: opt_ssh(self.ssh),
            notes: self.pane_notes@,
            created_at: self.created_at,
        }
    }
}

/// What an optional remembered session holds.
pub open spec fn opt_persisted(value: Option<PersistedSession>) -> Option<PersistedView> {
    match value {
        Some(session) => Some(session@),
        None => None,
    }
}

impl PersistedSession {
    /// The same session again.
    pub fn copy(&self) -> (res: Self)
        ensures
            res@ == self@,
    {
        let ssh = match &self.ssh {
            Some(ssh) => Some(ssh.copy()),
            None => None,
        };
        PersistedSession {
            id: self.id,
            name: self.name.clone(),
            mode: self.mode,
            tmux_name: self.tmux_name.clone(),
            cols: self.cols,
            rows: self.rows,
            ssh,
            pane_notes: self.pane_notes.copy(),
            created_at: self.created_at,
        }
    }
}

// ---------------------------------------------------------------------------
// Specifications of sessions
// ---------------------------------------------------------------------------

/// How input reaches the programs of a session.
pub enum InputMode {
    /// As it is.
    Direct,
    /// As commands to tmux.
    TmuxControl(TmuxControlState),
}

/// What an input mode holds.
#[verifier::ext_equal]
pub enum ModeView {
    Direct,
    Control(ControlView),
}

impl View for InputMode {
    type V = ModeView;

    open spec fn view(&self) -> ModeView {
        match self {
            InputMode::Direct => ModeView::Direct,
            InputMode::TmuxControl(state) => ModeView::Control(state@),
        }
    }
}

/// What it takes to start a session.
pub struct SessionSpec {
    /// The name that the user sees.
    pub name: String,
    /// The command that is run.
    pub command: String,
    /// The command that ends what the session leaves running.
    pub cleanup_command: Option<String>,
    /// How it is run.
    pub mode: SessionMode,
    /// How input reaches it.
    pub input_mode: InputMode,
    /// What is remembered of it.
    pub persistent: Option<PersistedSession>,
}

/// What a specification holds.
#[verifier::ext_equal]
pub struct SpecView {
    pub name: Text,
    pub command: Text,
    pub cleanup: Option<Text>,
    pub mode: SessionMode,
    pub input_mode: ModeView,
    pub persistent: Option<PersistedView>,
}

impl View for SessionSpec {
    type V = SpecView;

    open spec fn view(&self) -> SpecView {
        SpecView {
            name: self.name@,
            command: self.command@,
            cleanup: opt_text(self.cleanup_command),
            mode: self.mode,
            input_mode: self.input_mode@,
            persistent: opt_persisted(self.persistent),
        }
    }
}

/// What a specification, or the reason why there is none, holds.
pub open spec fn spec_result(value: Result<SessionSpec, SessionError>) -> Result<
    SpecView,
    SessionError,
> {
    match value {
        Ok(spec) => Ok(spec@),
        Err(e) => Err(e),
    }
}

/// Whether a mode runs tmux on another machine.
pub open spec fn is_remote(mode: SessionMode) -> bool {
    mode == SessionMode::Ssh || mode == SessionMode::SshCc
}

/// Whether a mode runs tmux in control mode.
pub open spec fn is_control(mode: SessionMode) -> bool {
    mode == SessionMode::LocalCc || mode == SessionMode::SshCc
}

/// The command that starts the tmux session `name`, or attaches to it.
pub open spec fn attach_text(control: bool, name: Text) -> Text {
    if control {
        "tmux -CC new-session -A -s "@ + shell_escaped(name)
    } else {
        "tmux new-session -A -s "@ + shell_escaped(name)
    }
}

/// The command that ends the tmux session `name`.
pub open spec fn kill_text(name: Text) -> Text {
    "tmux kill-session -t "@ + shell_escaped(name)
}

/// The words with one space between each two.
pub open spec fn spaced(words: Seq<Text>) -> Text
    decreases words.len(),
{
    if words.len() == 0 {
        seq![]
    } else if words.len() == 1 {
        words[0]
    } else {
        spaced(words.drop_last()) + " "@ + words.last()
    }
}

/// The words that run `remote` on another machine.
pub open spec fn ssh_words(ssh: SshView, port: u16, remote: Text) -> Seq<Text> {
    let options = seq![
        "ssh"@,
        "-tt"@,
        "-p"@,
        shell_escaped(decimal(port as nat)),
        "-o"@,
        shell_escaped("ServerAliveInterval=30"@),
        "-o"@,
        shell_escaped("ServerAliveCountMax=3"@),
        "-o"@,
        shell_escaped("StrictHostKeyChecking=accept-new"@),
    ];
    let key = match ssh.key_path {
        Some(path) => seq!["-i"@, shell_escaped(path)],
        None => seq![],
    };
    options + key + seq![shell_escaped(ssh.username + "@"@ + ssh.host), shell_escaped(remote)]
}

/// The port of a target.
pub open spec fn ssh_port(ssh: SshView) -> u16 {
    match ssh.port {
        Some(port) => port,
        None => 22,
    }
}

/// The command that runs `remote` on another machine.
pub open spec fn ssh_text(ssh: SshView, remote: Text) -> Text {
    spaced(ssh_words(ssh, ssh_port(ssh), remote))
}

/// The command that runs the tmux session `name`, on another machine where there is a target.
pub open spec fn run_text(control: bool, name: Text, ssh: Option<SshView>) -> Text {
    match ssh {
        Some(target) => ssh_text(target, attach_text(control, name)),
        None => attach_text(control, name),
    }
}

/// The words with one space between each two.
fn join_words(words: &Vec<String>) -> (res: String)
    ensures
        res@ == spaced(views(words@)),
{
    let ghost all = views(words@);
    if words.len() == 0 {
        return String::new();
    }
    let mut out = words[0].clone();
    let mut i: usize = 1;
    assert(all.take(1)[0] == words@[0]@);
    while i < words.len()
        invariant
            all == views(words@),
            1 <= i <= words@.len(),
            out@ == spaced(all.take(i as int)),
        decreases words@.len() - i,
    {
        out.append(" ");
        out.append(words[i].as_str());
        proof {
            let step = all.take(i + 1);
            assert(step.drop_last() == all.take(i as int));
            assert(step.last() == words@[i as int]@);
        }
        i += 1;
    }
    assert(all.take(i as int) == all);
    out
}

/// The words that run `remote_command` on another machine.
pub fn ssh_command_parts(ssh: &SshTarget, port: u16, remote_command: &str) -> (res: Vec<String>)
    ensures
        views(res@) == ssh_words(ssh@, port, remote_command@),
{
    let mut port_text = String::new();
    push_decimal(&mut port_text, port as u64);
    assert(port_text@ =~= decimal(port as nat));
    let mut parts: Vec<String> = Vec::new();
    parts.push("ssh".to_string());
    parts.push("-tt".to_string());
    parts.push("-p".to_string());
    parts.push(shell_escape(port_text.as_str()));
    parts.push("-o".to_string());
    parts.push(shell_escape("ServerAliveInterval=30"));
    parts.push("-o".to_string());
    parts.push(shell_escape("ServerAliveCountMax=3"));
    parts.push("-o".to_string());
    parts.push(shell_escape("StrictHostKeyChecking=accept-new"));
    if let Some(key_path) = &ssh.key_path {
        parts.push("-i".to_string());
        parts.push(shell_escape(key_path.as_str()));
    }
    let mut login = ssh.username.clone();
    login.append("@");
    login.append(ssh.host.as_str());
    parts.push(shell_escape(login.as_str()));
    parts.push(shell_escape(remote_command));
    assert(views(parts@) =~= ssh_words(ssh@, port, remote_command@));
    parts
}

/// The command that starts the tmux session `name`, or attaches to it.
fn attach_command(control: bool, name: &str) -> (res: String)
    ensures
        res@ == attach_text(control, name@),
{
    let mut out = if control {
        "tmux -CC new-session -A -s ".to_string()
    } else {
        "tmux new-session -A -s ".to_string()
    };
    let word = shell_escape(name);
    out.append(word.as_str());
    out
}

/// The command that ends the tmux session `name`.
fn kill_command(name: &str) -> (res: String)
    ensures
        res@ == kill_text(name@),
{
    let mut out = "tmux kill-session -t ".to_string();
    let word = shell_escape(name);
    out.append(word.as_str());
    out
}

/// The command that runs the tmux session `name` on another machine.
fn ssh_command(control: bool, name: &str, ssh: &SshTarget) -> (res: String)
    ensures
        res@ == ssh_text(ssh@, attach_text(control, name@)),
{
    let port: u16 = match ssh.port {
        Some(port) => port,
        None => 22,
    };
    let remote = attach_command(control, name);
    let parts = ssh_command_parts(ssh, port, remote.as_str());
    join_words(&parts)
}

// ---------------------------------------------------------------------------
// New sessions
// ---------------------------------------------------------------------------

/// The mode that is asked for.
pub open spec fn mode_of(mode: CreateMode) -> SessionMode {
    match mode {
        CreateMode::Local => SessionMode::Local,
        CreateMode::Ssh => SessionMode::Ssh,
        CreateMode::LocalCc => SessionMode::LocalCc,
        CreateMode::SshCc => SessionMode::SshCc,
    }
}

/// The mode that a request asks for; control mode on this machine where it is left open.
pub open spec fn asked_mode(req: RequestView) -> SessionMode {
    match req.mode {
        Some(mode) => mode_of(mode),
        None => SessionMode::LocalCc,
    }
}

/// The name of a session that was given none.
pub open spec fn default_name(mode: SessionMode, id: u128, ssh: Option<SshView>) -> Text {
    match (mode, ssh) {
        (SessionMode::Local, _) => "Local "@ + short_id_text(id),
        (SessionMode::LocalCc, _) => "Local CC "@ + short_id_text(id),
        (SessionMode::Ssh, Some(target)) => target.username + "@"@ + target.host,
        (SessionMode::SshCc, Some(target)) => target.username + "@"@ + target.host + " CC"@,
        _ => seq![],
    }
}

/// What is remembered of a new session.
pub open spec fn remembered(
    id: u128,
    name: Text,
    mode: SessionMode,
    tmux_name: Text,
    cols: u16,
    rows: u16,
    ssh: Option<SshView>,
    created_at: Timestamp,
) -> PersistedView {
    PersistedView {
        id,
        name,
        mode,
        tmux_name,
        cols,
        rows,
        ssh,
        notes: Map::empty(),
        created_at,
    }
}

/// How input reaches a session about which `notes` are known.
pub open spec fn mode_input(mode: SessionMode, notes: Map<Text, Text>) -> ModeView {
    if is_control(mode) {
        ModeView::Control(fresh_control(notes))
    } else {
        ModeView::Direct
    }
}

/// The command that ends what a session leaves running: tmux on this machine.
pub open spec fn mode_cleanup(mode: SessionMode, tmux_name: Text) -> Option<Text> {
    if is_remote(mode) {
        None
    } else {
        Some(kill_text(tmux_name))
    }
}

/// What it takes to start the session that a request asks for at the time `created_at`.
pub open spec fn spec_for(
    id: u128,
    tmux_name: Text,
    req: RequestView,
    cols: u16,
    rows: u16,
    created_at: Timestamp,
) -> Result<SpecView, SessionError> {
    let mode = asked_mode(req);
    if req.command is Some {
        Ok(
            SpecView {
                name: match req.name {
                    Some(name) => name,
                    None => "Custom Command"@,
                },
                command: req.command->0,
                cleanup: None,
                mode: SessionMode::Local,
                input_mode: ModeView::Direct,
                persistent: None,
            },
        )
    } else if is_remote(mode) && req.ssh is None {
        Err(SessionError::MissingSshTarget)
    } else {
        let ssh = if is_remote(mode) {
            req.ssh
        } else {
            None
        };
        let name = match req.name {
            Some(name) => name,
            None => default_name(mode, id, ssh),
        };
        Ok(
            SpecView {
                name,
                command: run_text(is_control(mode), tmux_name, ssh),
                cleanup: mode_cleanup(mode, tmux_name),
                mode,
                input_mode: mode_input(mode, Map::empty()),
                persistent: Some(
                    remembered(id, name, mode, tmux_name, cols, rows, ssh, created_at),
                ),
            },
        )
    }
}

/// What is remembered of a session that was asked for at the time `created_at`.
pub fn persisted_session_at(
    id: u128,
    name: String,
    mode: SessionMode,
    tmux_name: &str,
    cols: u16,
    rows: u16,
    ssh: Option<SshTarget>,
    created_at: Timestamp,
) -> (res: PersistedSession)
    ensures
        res@ == remembered(id, name@, mode, tmux_name@, cols, rows, opt_ssh(ssh), created_at),
{
    PersistedSession {
        id,
        name,
        mode,
        tmux_name: tmux_name.to_string(),
        cols,
        rows,
        ssh,
        pane_notes: TextMap::new(),
        created_at,
    }
}

/// A moment that the clock may show.
pub open spec fn is_clock_time(at: Timestamp) -> bool {
    at.secs >= 0 && at.nanos < 1_000_000_000
}

/// What is remembered of a session that is asked for now.
pub fn persisted_session(
    id: u128,
    name: String,
    mode: SessionMode,
    tmux_name: &str,
    cols: u16,
    rows: u16,
    ssh: Option<SshTarget>,
) -> (res: PersistedSession)
    ensures
        is_clock_time(res.created_at),
        res@ == remembered(
            id,
            name@,
            mode,
            tmux_name@,
            cols,
            rows,
            opt_ssh(ssh),
            res.created_at,
        ),
{
    let now = utc_now();
    persisted_session_at(id, name, mode, tmux_name, cols, rows, ssh, now)
}

/// The name of a session on this machine that was given none.
fn local_name(prefix: &str, id: u128) -> (res: String)
    ensures
        res@ == prefix@ + short_id_text(id),
{
    let mut out = prefix.to_string();
    let short = short_id(id);
    out.append(short.as_str());
    out
}

/// The name of a session on another machine that was given none.
fn remote_name(ssh: &SshTarget, ending: &str) -> (res: String)
    ensures
        res@ == ssh@.username + "@"@ + ssh@.host + ending@,
{
    let mut out = ssh.username.clone();
    out.append("@");
    out.append(ssh.host.as_str());
    out.append(ending);
    out
}

/// A fresh input mode.
fn fresh_input(control: bool) -> (res: InputMode)
    ensures
        res@ == if control {
            ModeView::Control(fresh_control(Map::empty()))
        } else {
            ModeView::Direct
        },
{
    if control {
        InputMode::TmuxControl(TmuxControlState::new())
    } else {
        InputMode::Direct
    }
}

/// What it takes to start a session on this machine.
fn local_spec(
    id: u128,
    tmux_name: &str,
    name: Option<String>,
    control: bool,
    cols: u16,
    rows: u16,
    created_at: Timestamp,
) -> (res: SessionSpec)
    ensures
        ({
            let mode = if control {
                SessionMode::LocalCc
            } else {
                SessionMode::Local
            };
            let shown = match opt_text(name) {
                Some(n) => n,
                None => default_name(mode, id, None),
            };
            res@ == (SpecView {
                name: shown,
                command: run_text(control, tmux_name@, None),
                cleanup: Some(kill_text(tmux_name@)),
                mode,
                input_mode: mode_input(mode, Map::empty()),
                persistent: Some(
                    remembered(id, shown, mode, tmux_name@, cols, rows, None, created_at),
                ),
            })
        }),
{
    let mode = if control {
        SessionMode::LocalCc
    } else {
        SessionMode::Local
    };
    let name = match name {
        Some(name) => name,
        None => if control {
            local_name("Local CC ", id)
        } else {
            local_name("Local ", id)
        },
    };
    let command = attach_command(control, tmux_name);
    let cleanup_command = Some(kill_command(tmux_name));
    let persistent = persisted_session_at(
        id,
        name.clone(),
        mode,
        tmux_name,
        cols,
        rows,
        None,
        created_at,
    );
    SessionSpec {
        name,
        command,
        cleanup_command,
        mode,
        input_mode: fresh_input(control),
        persistent: Some(persistent),
    }
}

/// What it takes to start a session on another machine.
fn remote_spec(
    id: u128,
    tmux_name: &str,
    name: Option<String>,
    ssh: SshTarget,
    control: bool,
    cols: u16,
    rows: u16,
    created_at: Timestamp,
) -> (res: SessionSpec)
    ensures
        ({
            let mode = if control {
                SessionMode::SshCc
            } else {
                SessionMode::Ssh
            };
            let shown = match opt_text(name) {
                Some(n) => n,
                None => default_name(mode, id, Some(ssh@)),
            };
            res@ == (SpecView {
                name: shown,
                command: run_text(control, tmux_name@, Some(ssh@)),
                cleanup: None,
                mode,
                input_mode: mode_input(mode, Map::empty()),
                persistent: Some(
                    remembered(id, shown, mode, tmux_name@, cols, rows, Some(ssh@), created_at),
                ),
            })
        }),
{
    let mode = if control {
        SessionMode::SshCc
    } else {
        SessionMode::Ssh
    };
    let command = ssh_command(control, tmux_name, &ssh);
    let name = match name {
        Some(name) => name,
        None => if control {
            remote_name(&ssh, " CC")
        } else {
            proof {
                reveal_strlit("");
                assert(ssh@.username + "@"@ + ssh@.host + ""@ =~= ssh@.username + "@"@ + ssh@.host);
            }
            remote_name(&ssh, "")
        },
    };
    let persistent = persisted_session_at(
        id,
        name.clone(),
        mode,
        tmux_name,
        cols,
        rows,
        Some(ssh),
        created_at,
    );
    SessionSpec {
        name,
        command,
        cleanup_command: None,
        mode,
        input_mode: fresh_input(control),
        persistent: Some(persistent),
    }
}

/// What it takes to start the session that is asked for at the time `created_at`.
pub fn build_command_at(
    id: u128,
    tmux_name: &str,
    req: CreateSessionRequest,
    cols: u16,
    rows: u16,
    created_at: Timestamp,
) -> (res: Result<SessionSpec, SessionError>)
    ensures
        spec_result(res) == spec_for(id, tmux_name@, req@, cols, rows, created_at),
{
    let CreateSessionRequest { name, mode, cols: _, rows: _, tmux_name: _, ssh, command } = req;
    if let Some(command) = command {
        let name = match name {
            Some(name) => name,
            None => "Custom Command".to_string(),
        };
        return Ok(
            SessionSpec {
                name,
                command,
                cleanup_command: None,
                mode: SessionMode::Local,
                input_mode: InputMode::Direct,
                persistent: None,
            },
        );
    }
    let mode = match mode {
        Some(mode) => mode,
        None => CreateMode::LocalCc,
    };
    match mode {
        CreateMode::Local => Ok(local_spec(id, tmux_name, name, false, cols, rows, created_at)),
        CreateMode::LocalCc => Ok(local_spec(id, tmux_name, name, true, cols, rows, created_at)),
        CreateMode::Ssh => match ssh {
            Some(ssh) => Ok(
                remote_spec(id, tmux_name, name, ssh, false, cols, rows, created_at),
            ),
            None => Err(SessionError::MissingSshTarget),
        },
        CreateMode::SshCc => match ssh {
            Some(ssh) => Ok(
                remote_spec(id, tmux_name, name, ssh, true, cols, rows, created_at),
            ),
            None => Err(SessionError::MissingSshTarget),
        },
    }
}

/// What it takes to start the session that is asked for now.
pub fn build_command(
    id: u128,
    tmux_name: &str,
    req: CreateSessionRequest,
    cols: u16,
    rows: u16,
) -> (res: Result<SessionSpec, SessionError>)
    ensures
        exists|at: Timestamp|
            is_clock_time(at) && spec_result(res) == #[trigger] spec_for(
                id,
                tmux_name@,
                req@,
                cols,
                rows,
                at,
            ),
{
    let now = utc_now();
    build_command_at(id, tmux_name, req, cols, rows, now)
}

// ---------------------------------------------------------------------------
// Remembered sessions
// ---------------------------------------------------------------------------

/// What it takes to start a remembered session again.
pub open spec fn spec_again(session: PersistedView) -> Result<SpecView, SessionError> {
    if session.mode == SessionMode::Ssh && session.ssh is None {
        Err(SessionError::MissingPersistedTarget)
    } else if session.mode == SessionMode::SshCc && session.ssh is None {
        Err(SessionError::MissingPersistedControlTarget)
    } else {
        let ssh = if is_remote(session.mode) {
            session.ssh
        } else {
            None
        };
        Ok(
            SpecView {
                name: session.name,
                command: run_text(is_control(session.mode), session.tmux_name, ssh),
                cleanup: mode_cleanup(session.mode, session.tmux_name),
                mode: session.mode,
                input_mode: mode_input(session.mode, session.notes),
                persistent: Some(session),
            },
        )
    }
}

/// How input reaches a remembered session.
pub fn persisted_input_mode(session: &PersistedSession) -> (res: InputMode)
    ensures
        res@ == mode_input(session.mode, session@.notes),
{
    match session.mode {
        SessionMode::LocalCc | SessionMode::SshCc => InputMode::TmuxControl(
            TmuxControlState::with_notes(session.pane_notes.copy()),
        ),
        SessionMode::Local | SessionMode::Ssh => InputMode::Direct,
    }
}

/// What it takes to start a remembered session again.
pub fn build_persisted_spec(session: PersistedSession) -> (res: Result<SessionSpec, SessionError>)
    ensures
        spec_result(res) == spec_again(session@),
{
    let input_mode = persisted_input_mode(&session);
    let tmux_name = session.tmux_name.as_str();
    let command = match session.mode {
        SessionMode::Local => attach_command(false, tmux_name),
        SessionMode::LocalCc => attach_command(true, tmux_name),
        SessionMode::Ssh => match &session.ssh {
            Some(ssh) => ssh_command(false, tmux_name, ssh),
            None => {
                return Err(SessionError::MissingPersistedTarget);
            },
        },
        SessionMode::SshCc => match &session.ssh {
            Some(ssh) => ssh_command(true, tmux_name, ssh),
            None => {
                return Err(SessionError::MissingPersistedControlTarget);
            },
        },
    };
    let cleanup_command = match session.mode {
        SessionMode::Local | SessionMode::LocalCc => Some(kill_command(tmux_name)),
        SessionMode::Ssh | SessionMode::SshCc => None,
    };
    Ok(
        SessionSpec {
            name: session.name.clone(),
            command,
            cleanup_command,
            mode: session.mode,
            input_mode,
            persistent: Some(session),
        },
    )
}

// ---------------------------------------------------------------------------
// Planning a session
// ---------------------------------------------------------------------------

/// How many columns a terminal has where nothing else is asked for.
pub const DEFAULT_COLS: u16 = 120;

/// How many rows a terminal has where nothing else is asked for.
pub const DEFAULT_ROWS: u16 = 36;

/// How many columns a terminal has at least and at most.
pub const MIN_COLS: u16 = 40;

pub const MAX_COLS: u16 = 240;

/// How many rows a terminal has at least and at most.
pub const MIN_ROWS: u16 = 12;

pub const MAX_ROWS: u16 = 80;

/// The number from `low` to `high` that is nearest to `value`.
pub open spec fn clamped(value: u16, low: u16, high: u16) -> u16 {
    if value < low {
        low
    } else if value > high {
        high
    } else {
        value
    }
}

/// The number from `low` to `high` that is nearest to `value`.
pub fn clamp(value: u16, low: u16, high: u16) -> (res: u16)
    ensures
        res == clamped(value, low, high),
{
    if value < low {
        low
    } else if value > high {
        high
    } else {
        value
    }
}

/// The columns that are granted where `cols` are asked for.
pub open spec fn granted_cols(cols: u16) -> u16 {
    clamped(cols, MIN_COLS, MAX_COLS)
}

/// The rows that are granted where `rows` are asked for.
pub open spec fn granted_rows(rows: u16) -> u16 {
    clamped(rows, MIN_ROWS, MAX_ROWS)
}

/// A character that is kept in the name of a tmux session.
pub open spec fn is_name_char(c: char) -> bool {
    is_alphanumeric(c) || c == '_' || c == '-' || c == '.'
}

/// `raw` with a hyphen in place of each character that is not kept.
pub open spec fn hyphened(raw: Text) -> Text {
    Seq::new(
        raw.len(),
        |i: int|
            if is_name_char(raw[i]) {
                raw[i]
            } else {
                '-'
            },
    )
}

/// What tmux calls the session `id` where `input` is asked for.
pub open spec fn tmux_name_for(input: Option<Text>, id: u128) -> Text {
    if input is Some && trimmed(input->0).len() > 0 {
        hyphened(trimmed(input->0))
    } else {
        hyphened("wt-"@ + short_id_text(id))
    }
}

/// `raw` with a hyphen in place of each character that is not kept.
fn hyphen_out(raw: &str) -> (res: String)
    ensures
        res@ == hyphened(raw@),
{
    let chars = chars_of(raw);
    let mut out = String::new();
    let mut i: usize = 0;
    while i < chars.len()
        invariant
            chars@ == raw@,
            0 <= i <= chars@.len(),
            out@ == hyphened(raw@).take(i as int),
        decreases chars@.len() - i,
    {
        let c = chars[i];
        let kept = if alphanumeric(c) || c == '_' || c == '-' || c == '.' {
            c
        } else {
            '-'
        };
        out.push(kept);
        assert(out@ =~= hyphened(raw@).take(i + 1));
        i += 1;
    }
    assert(hyphened(raw@).take(i as int) =~= hyphened(raw@));
    out
}

/// What tmux calls the session `id` where `input` is asked for.
pub fn sanitize_tmux_name(input: Option<&str>, id: u128) -> (res: String)
    ensures
        res@ == tmux_name_for(opt_str(input), id),
{
    if let Some(name) = input {
        let name = trim(name);
        if !name.is_empty() {
            return hyphen_out(name);
        }
    }
    let raw = local_name("wt-", id);
    hyphen_out(raw.as_str())
}

/// A session that is about to be started.
pub struct SessionPlan {
    /// Its id.
    pub id: u128,
    /// What it takes to start it.
    pub spec: SessionSpec,
    /// How many columns the terminal has.
    pub cols: u16,
    /// How many rows the terminal has.
    pub rows: u16,
}

/// What a plan holds.
#[verifier::ext_equal]
pub struct PlanView {
    pub id: u128,
    pub spec: SpecView,
    pub cols: u16,
    pub rows: u16,
}

impl View for SessionPlan {
    type V = PlanView;

    open spec fn view(&self) -> PlanView {
        PlanView { id: self.id, spec: self.spec@, cols: self.cols, rows: self.rows }
    }
}

/// What a plan, or the reason why there is none, holds.
pub open spec fn plan_result(value: Result<SessionPlan, SessionError>) -> Result<
    PlanView,
    SessionError,
> {
    match value {
        Ok(plan) => Ok(plan@),
        Err(e) => Err(e),
    }
}

/// The columns that a request is granted.
pub open spec fn request_cols(req: RequestView) -> u16 {
    granted_cols(
        match req.cols {
            Some(cols) => cols,
            None => DEFAULT_COLS,
        },
    )
}

/// The rows that a request is granted.
pub open spec fn request_rows(req: RequestView) -> u16 {
    granted_rows(
        match req.rows {
            Some(rows) => rows,
            None => DEFAULT_ROWS,
        },
    )
}

/// The session with the id `id` that a request asks for at the time `created_at`.
pub open spec fn plan_for(id: u128, req: RequestView, created_at: Timestamp) -> Result<
    PlanView,
    SessionError,
> {
    let cols = request_cols(req);
    let rows = request_rows(req);
    match spec_for(id, tmux_name_for(req.tmux_name, id), req, cols, rows, created_at) {
        Ok(spec) => Ok(PlanView { id, spec, cols, rows }),
        Err(e) => Err(e),
    }
}

/// Plans the session with the id `id` that is asked for at the time `created_at`.
pub fn plan_session_at(id: u128, req: CreateSessionRequest, created_at: Timestamp) -> (res: Result<
    SessionPlan,
    SessionError,
>)
    ensures
        plan_result(res) == plan_for(id, req@, created_at),
{
    let cols = match req.cols {
        Some(cols) => cols,
        None => DEFAULT_COLS,
    };
    let rows = match req.rows {
        Some(rows) => rows,
        None => DEFAULT_ROWS,
    };
    let cols = clamp(cols, MIN_COLS, MAX_COLS);
    let rows = clamp(rows, MIN_ROWS, MAX_ROWS);
    let wanted = match &req.tmux_name {
        Some(name) => Some(name.as_str()),
        None => None,
    };
    let tmux_name = sanitize_tmux_name(wanted, id);
    match build_command_at(id, tmux_name.as_str(), req, cols, rows, created_at) {
        Ok(spec) => Ok(SessionPlan { id, spec, cols, rows }),
        Err(e) => Err(e),
    }
}

/// An id of the random kind: its version is 4 and its variant binary 10.
pub open spec fn is_random_id(id: u128) -> bool {
    (id >> 76u128) & 0xf == 4 && (id >> 62u128) & 3 == 2
}

/// Plans the session that is asked for now, with a new id.
pub fn plan_session(req: CreateSessionRequest) -> (res: Result<SessionPlan, SessionError>)
    ensures
        exists|id: u128, at: Timestamp|
            is_random_id(id) && is_clock_time(at) && plan_result(res) == #[trigger] plan_for(
                id,
                req@,
                at,
            ),
{
    let id: u128 = random_id();
    let now = utc_now();
    plan_session_at(id, req, now)
}

/// Whether a command runs tmux.
pub open spec fn runs_tmux(command: Text) -> bool {
    find(command, "tmux"@) is Some
}

/// Whether a command runs tmux, which must then be installed.
pub fn needs_tmux(command: &str) -> (res: bool)
    ensures
        res == runs_tmux(command@),
{
    text_contains(command, "tmux")
}

// ---------------------------------------------------------------------------
// Laws
// ---------------------------------------------------------------------------

/// A session that is started again is started as it was the first time: the same command, the same
/// way to end it, the same name and mode.
pub proof fn law_session_comes_back_as_it_was(
    id: u128,
    tmux_name: Text,
    req: RequestView,
    cols: u16,
    rows: u16,
    at: Timestamp,
)
    requires
        spec_for(id, tmux_name, req, cols, rows, at) is Ok,
        spec_for(id, tmux_name, req, cols, rows, at)->Ok_0.persistent is Some,
    ensures
        spec_again(spec_for(id, tmux_name, req, cols, rows, at)->Ok_0.persistent->0) == spec_for(
            id,
            tmux_name,
            req,
            cols,
            rows,
            at,
        ),
{
}

/// A session is remembered if and only if it runs tmux: one with a command of its own is not.
pub proof fn law_custom_commands_are_not_remembered(
    id: u128,
    tmux_name: Text,
    req: RequestView,
    cols: u16,
    rows: u16,
    at: Timestamp,
)
    requires
        spec_for(id, tmux_name, req, cols, rows, at) is Ok,
    ensures
        spec_for(id, tmux_name, req, cols, rows, at)->Ok_0.persistent is None <==> req.command
            is Some,
{
}

/// What was noted down about panes is known again when a session in control mode is started again,
/// and nothing else of how it runs depends on it.
pub proof fn law_notes_come_back(session: PersistedView, notes: Map<Text, Text>)
    requires
        is_control(session.mode),
        spec_again(session) is Ok,
    ensures
        ({
            let again = spec_again(PersistedView { notes, ..session });
            &&& again is Ok
            &&& again->Ok_0.input_mode == ModeView::Control(fresh_control(notes))
            &&& again->Ok_0.command == spec_again(session)->Ok_0.command
            &&& again->Ok_0.cleanup == spec_again(session)->Ok_0.cleanup
        }),
{
}

/// A session on this machine can be ended by a command; of one on another machine only the
/// connection is ended.
pub proof fn law_only_local_sessions_are_cleaned_up(session: PersistedView)
    requires
        spec_again(session) is Ok,
    ensures
        spec_again(session)->Ok_0.cleanup is Some <==> !is_remote(session.mode),
{
}

/// Whatever is asked for, a terminal has between 40 and 240 columns and between 12 and 80 rows, and
/// what is asked for within these is granted.
pub proof fn law_sizes_stay_in_bounds(cols: u16, rows: u16)
    ensures
        40 <= granted_cols(cols) <= 240,
        12 <= granted_rows(rows) <= 80,
        40 <= cols <= 240 ==> granted_cols(cols) == cols,
        12 <= rows <= 80 ==> granted_rows(rows) == rows,
{
}

proof fn lemma_hyphened_is_plain(raw: Text)
    ensures
        all_plain(hyphened(raw)),
        hyphened(raw).len() == raw.len(),
        forall|i: int| 0 <= i < hyphened(raw).len() ==> is_name_char(#[trigger] hyphened(raw)[i]),
{
}

/// What tmux calls a session is never empty and holds nothing that a shell would not take as it is.
pub proof fn law_tmux_names_are_plain(input: Option<Text>, id: u128)
    ensures
        tmux_name_for(input, id).len() > 0,
        forall|i: int|
            0 <= i < tmux_name_for(input, id).len() ==> is_name_char(
                #[trigger] tmux_name_for(input, id)[i],
            ),
        shell_escaped(tmux_name_for(input, id)) == tmux_name_for(input, id),
{
    reveal_strlit("wt-");
    lemma_hyphened_is_plain("wt-"@ + short_id_text(id));
    if input is Some {
        lemma_hyphened_is_plain(trimmed(input->0));
    }
}

proof fn lemma_plain_head(head: Text, name: Text)
    requires
        find(head, "tmux"@) is Some,
    ensures
        find(head + name, "tmux"@) is Some,
{
    lemma_find_from(head, "tmux"@, 0);
    lemma_find_from(head + name, "tmux"@, 0);
    let at = find(head, "tmux"@)->0;
    assert((head + name).subrange(at, at + "tmux"@.len()) =~= head.subrange(
        at,
        at + "tmux"@.len(),
    ));
    assert(occurs_at(head + name, "tmux"@, at));
}

/// A session on this machine that is not a command of its own needs tmux.
pub proof fn law_local_sessions_need_tmux(control: bool, name: Text)
    ensures
        runs_tmux(attach_text(control, name)),
{
    reveal_strlit("tmux");
    reveal_strlit("tmux new-session -A -s ");
    reveal_strlit("tmux -CC new-session -A -s ");
    let plain = "tmux new-session -A -s "@;
    let control_head = "tmux -CC new-session -A -s "@;
    assert(plain.subrange(0, 4) =~= "tmux"@);
    assert(control_head.subrange(0, 4) =~= "tmux"@);
    lemma_find_from(plain, "tmux"@, 0);
    lemma_find_from(control_head, "tmux"@, 0);
    assert(occurs_at(plain, "tmux"@, 0));
    assert(occurs_at(control_head, "tmux"@, 0));
    if control {
        lemma_plain_head(control_head, shell_escaped(name));
    } else {
        lemma_plain_head(plain, shell_escaped(name));
    }
}

/// The words of the command that runs `remote` on another machine, before they are escaped.
pub open spec fn ssh_plain_words(ssh: SshView, port: u16, remote: Text) -> Seq<Text> {
    let options = seq![
        "ssh"@,
        "-tt"@,
        "-p"@,
        decimal(port as nat),
        "-o"@,
        "ServerAliveInterval=30"@,
        "-o"@,
        "ServerAliveCountMax=3"@,
        "-o"@,
        "StrictHostKeyChecking=accept-new"@,
    ];
    let key = match ssh.key_path {
        Some(path) => seq!["-i"@, path],
        None => seq![],
    };
    options + key + seq![ssh.username + "@"@ + ssh.host, remote]
}

proof fn lemma_spaced_first(words: Seq<Text>)
    requires
        words.len() > 1,
    ensures
        spaced(words) == words[0] + " "@ + spaced(words.skip(1)),
    decreases words.len(),
{
    let rest = words.skip(1);
    if words.len() == 2 {
        assert(words.drop_last()[0] == words[0]);
        assert(rest[0] == words[1]);
        assert(spaced(words.drop_last()) == words[0]);
    } else {
        lemma_spaced_first(words.drop_last());
        assert(words.drop_last().skip(1) =~= rest.drop_last());
        assert(rest.last() == words.last());
        assert(spaced(words) =~= words[0] + " "@ + spaced(rest));
    }
}

proof fn lemma_spaced_command(words: Seq<Text>, plain: Seq<Text>)
    requires
        words.len() > 0,
        words.len() == plain.len(),
        forall|i: int| 0 <= i < words.len() ==> #[trigger] words[i] == shell_escaped(plain[i]),
    ensures
        spaced(words) == command_of(plain),
    decreases words.len(),
{
    if words.len() > 1 {
        reveal_strlit(" ");
        assert(" "@ =~= seq![' ']);
        lemma_spaced_first(words);
        lemma_spaced_command(words.skip(1), plain.skip(1));
    }
}

/// The shell that runs the command for another machine hands ssh the target and, as one word, the
/// command for the other machine, whatever they hold. (An empty path of a key file would be no
/// word.)
pub proof fn law_ssh_command_is_read(ssh: SshView, remote: Text)
    requires
        remote.len() > 0,
        ssh.key_path is Some ==> ssh.key_path->0.len() > 0,
    ensures
        shell_words(ssh_text(ssh, remote)) == Some(ssh_plain_words(ssh, ssh_port(ssh), remote)),
{
    reveal_strlit("ssh");
    reveal_strlit("-tt");
    reveal_strlit("-p");
    reveal_strlit("-o");
    reveal_strlit("-i");
    let words = ssh_words(ssh, ssh_port(ssh), remote);
    let plain = ssh_plain_words(ssh, ssh_port(ssh), remote);
    assert(all_plain("ssh"@) && all_plain("-tt"@) && all_plain("-p"@) && all_plain("-o"@)
        && all_plain("-i"@));
    assert forall|i: int| 0 <= i < words.len() implies #[trigger] words[i] == shell_escaped(
        plain[i],
    ) by {}
    lemma_spaced_command(words, plain);
    lemma_decimal_digits(ssh_port(ssh) as nat);
    reveal_strlit("@");
    reveal_strlit("ServerAliveInterval=30");
    reveal_strlit("ServerAliveCountMax=3");
    reveal_strlit("StrictHostKeyChecking=accept-new");
    law_commands_are_read_back(plain);
}

} // verus!
