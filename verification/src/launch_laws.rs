//! What a session that is asked for, or that comes back, is run as.
use vstd::prelude::*;
use crate::control::fresh_control;
use crate::errors::SessionError;
use crate::launch::{
    attach_text, clamped, hyphened, is_name_char, kill_text, law_ssh_command_is_read, plan_for,
    run_text, runs_tmux, spec_again, spec_for, tmux_name_for, CreateMode, ModeView, PersistedView,
    PlanView, RequestView, SessionMode, SpecView, SshView,
};
use crate::lifecycle::{
    plan_again, plan_reconnect, reconnect_failure_text, record_of, revival, RevivalView,
};
use crate::outside::{id_text, short_id_text, Timestamp};
use crate::quote::{all_plain, command_of, law_commands_are_read_back, shell_escaped, shell_words};
use crate::session::{started, summary_of, SessionView};
use crate::text::{decimal, trimmed, Text};
use crate::text_laws::{law_found_where_it_stands, law_letters_and_digits_by_code_point};

verus! {

// ---------------------------------------------------------------------------
// Commands
// ---------------------------------------------------------------------------

proof fn lemma_word_at(words: Seq<Text>, k: int)
    requires
        0 <= k < words.len() - 1,
        all_plain(words[k]),
    ensures
        command_of(words.skip(k)) == words[k] + seq![' '] + command_of(words.skip(k + 1)),
{
    assert(words.skip(k).skip(1) =~= words.skip(k + 1));
}

proof fn lemma_last_word(words: Seq<Text>)
    requires
        words.len() > 0,
    ensures
        command_of(words.skip(words.len() - 1)) == shell_escaped(words.last()),
{
    assert(words.skip(words.len() - 1)[0] == words.last());
}

/// The shell reads the command of a session as a call of tmux that attaches to the session with its
/// name, or makes one, in control mode or not.
pub proof fn law_attach_command_is_read(name: Text)
    requires
        name.len() > 0,
    ensures
        shell_words(attach_text(true, name)) == Some(
            seq!["tmux"@, "-CC"@, "new-session"@, "-A"@, "-s"@, name],
        ),
        shell_words(attach_text(false, name)) == Some(
            seq!["tmux"@, "new-session"@, "-A"@, "-s"@, name],
        ),
        shell_words(kill_text(name)) == Some(seq!["tmux"@, "kill-session"@, "-t"@, name]),
{
    reveal_strlit("tmux");
    reveal_strlit("-CC");
    reveal_strlit("new-session");
    reveal_strlit("-A");
    reveal_strlit("-s");
    reveal_strlit("kill-session");
    reveal_strlit("-t");
    reveal_strlit("tmux -CC new-session -A -s ");
    reveal_strlit("tmux new-session -A -s ");
    reveal_strlit("tmux kill-session -t ");
    let a = seq!["tmux"@, "-CC"@, "new-session"@, "-A"@, "-s"@, name];
    lemma_last_word(a);
    lemma_word_at(a, 4);
    lemma_word_at(a, 3);
    lemma_word_at(a, 2);
    lemma_word_at(a, 1);
    lemma_word_at(a, 0);
    assert(a.skip(0) =~= a);
    assert(command_of(a) =~= attach_text(true, name));
    law_commands_are_read_back(a);
    let b = seq!["tmux"@, "new-session"@, "-A"@, "-s"@, name];
    lemma_last_word(b);
    lemma_word_at(b, 3);
    lemma_word_at(b, 2);
    lemma_word_at(b, 1);
    lemma_word_at(b, 0);
    assert(b.skip(0) =~= b);
    assert(command_of(b) =~= attach_text(false, name));
    law_commands_are_read_back(b);
    let c = seq!["tmux"@, "kill-session"@, "-t"@, name];
    lemma_last_word(c);
    lemma_word_at(c, 2);
    lemma_word_at(c, 1);
    lemma_word_at(c, 0);
    assert(c.skip(0) =~= c);
    assert(command_of(c) =~= kill_text(name));
    law_commands_are_read_back(c);
}

/// A session on this machine runs the attaching command itself. For one on another machine the shell
/// reads a call of ssh with a terminal, the port of the target or 22, the options that keep the
/// connection alive, the key if there is one, the user and the host, and as one word the attaching
/// command.
pub proof fn law_sessions_run_where_they_are_asked_for(control: bool, name: Text, ssh: SshView)
    requires
        ssh.key_path is Some ==> ssh.key_path->0.len() > 0,
    ensures
        run_text(control, name, None) == attach_text(control, name),
        shell_words(run_text(control, name, Some(ssh))) == Some(
            seq![
                "ssh"@,
                "-tt"@,
                "-p"@,
                decimal(
                    match ssh.port {
                        Some(port) => port as nat,
                        None => 22,
                    },
                ),
                "-o"@,
                "ServerAliveInterval=30"@,
                "-o"@,
                "ServerAliveCountMax=3"@,
                "-o"@,
                "StrictHostKeyChecking=accept-new"@,
            ] + (match ssh.key_path {
                Some(path) => seq!["-i"@, path],
                None => seq![],
            }) + seq![ssh.username + "@"@ + ssh.host, attach_text(control, name)],
        ),
{
    reveal_strlit("tmux -CC new-session -A -s ");
    reveal_strlit("tmux new-session -A -s ");
    let remote = attach_text(control, name);
    assert(remote.len() > 0);
    law_ssh_command_is_read(ssh, remote);
}

/// A command needs tmux exactly where the word occurs in it.
pub proof fn law_tmux_is_needed_where_it_is_named(command: Text, a: Text, b: Text)
    ensures
        command == a + "tmux"@ + b ==> runs_tmux(command),
        runs_tmux(command) ==> exists|x: Text, y: Text| command == #[trigger] (x + "tmux"@ + y),
{
    law_found_where_it_stands(command, a, "tmux"@, b);
    if runs_tmux(command) {
        let i = crate::text::find(command, "tmux"@)->0;
        let x = command.take(i);
        let y = command.skip(i + "tmux"@.len() as int);
        assert(command == x + "tmux"@ + y);
    }
}

// ---------------------------------------------------------------------------
// Names and sizes
// ---------------------------------------------------------------------------

/// The short form of an id is the first eight digits of its long form.
pub proof fn law_short_ids_start_the_long_ones(id: u128)
    ensures
        short_id_text(id) == id_text(id).take(8),
{
    assert(short_id_text(id) =~= id_text(id).take(8));
}

/// Whether a character may stand in the name of a tmux session: a letter, a digit, `_`, `-` or `.`.
pub open spec fn may_stand_in_names(c: char) -> bool {
    let n = c as u32;
    48 <= n <= 57 || 65 <= n <= 90 || 97 <= n <= 122 || n == 95 || n == 45 || n == 46
}

proof fn lemma_name_char(c: char)
    ensures
        is_name_char(c) == may_stand_in_names(c),
{
    law_letters_and_digits_by_code_point(c);
}

/// A tmux session goes by the name that is asked for, without the white space around it and with a
/// hyphen for each character that cannot stand in it; without a name, by `wt-` and its short id.
pub proof fn law_tmux_sessions_go_by_their_name(name: Text, id: u128, i: int)
    ensures
        trimmed(name).len() > 0 ==> tmux_name_for(Some(name), id).len() == trimmed(name).len(),
        trimmed(name).len() > 0 && 0 <= i < trimmed(name).len() ==> tmux_name_for(Some(name), id)[i]
            == if may_stand_in_names(trimmed(name)[i]) {
            trimmed(name)[i]
        } else {
            '-'
        },
        trimmed(name).len() == 0 ==> tmux_name_for(Some(name), id) == tmux_name_for(None, id),
        tmux_name_for(None, id) == "wt-"@ + short_id_text(id),
{
    if 0 <= i < trimmed(name).len() {
        lemma_name_char(trimmed(name)[i]);
    }
    reveal_strlit("wt-");
    let raw = "wt-"@ + short_id_text(id);
    assert forall|k: int| 0 <= k < raw.len() implies hyphened(raw)[k] == raw[k] by {
        if k >= 3 {
            lemma_hex_digit((id as int / vstd::arithmetic::power::pow(16, (31 - (k - 3)) as nat)) % 16);
        }
    }
    assert(hyphened(raw) =~= raw);
}

proof fn lemma_hex_digit(d: int)
    requires
        0 <= d < 16,
    ensures
        is_name_char(crate::outside::hex_digit(d)),
{
}

/// A number is kept within bounds: what is too small becomes the least, what is too large the most,
/// and all else stays.
pub proof fn law_numbers_are_kept_in_bounds(value: u16, low: u16, high: u16)
    requires
        low <= high,
    ensures
        value < low ==> clamped(value, low, high) == low,
        value > high ==> clamped(value, low, high) == high,
        low <= value <= high ==> clamped(value, low, high) == value,
{
}

/// What is asked for, but no less than `low` and no more than `high`.
pub open spec fn bounded(value: u16, low: u16, high: u16) -> u16 {
    if value < low {
        low
    } else if value > high {
        high
    } else {
        value
    }
}

/// A session is planned with the size that is asked for, 120 columns and 36 rows where none is, kept
/// within 40 to 240 columns and 12 to 80 rows, under its id, and runs what its request says.
pub proof fn law_plan_keeps_the_request(id: u128, req: RequestView, at: Timestamp)
    ensures
        ({
            let cols = bounded(
                match req.cols {
                    Some(cols) => cols,
                    None => 120,
                },
                40,
                240,
            );
            let rows = bounded(
                match req.rows {
                    Some(rows) => rows,
                    None => 36,
                },
                12,
                80,
            );
            plan_for(id, req, at) == match spec_for(
                id,
                tmux_name_for(req.tmux_name, id),
                req,
                cols,
                rows,
                at,
            ) {
                Ok(spec) => Ok::<PlanView, SessionError>(PlanView { id, spec, cols, rows }),
                Err(e) => Err(e),
            }
        }),
{
}

// ---------------------------------------------------------------------------
// Requests
// ---------------------------------------------------------------------------

/// A command of the user's own runs as it is: no tmux, nothing to clean up, nothing remembered.
pub proof fn law_custom_command_runs_as_it_is(
    id: u128,
    tmux_name: Text,
    req: RequestView,
    cols: u16,
    rows: u16,
    at: Timestamp,
)
    requires
        req.command is Some,
    ensures
        spec_for(id, tmux_name, req, cols, rows, at) == Ok::<SpecView, SessionError>(
            SpecView {
                name: match req.name {
                    Some(name) => name,
                    None => "Custom Command"@,
                },
                command: req.command->0,
                cleanup: None,
                mode: SessionMode::Local,
                input_mode: ModeView::Direct,
                persistent: None,
            },
        ),
{
}

/// Whether a session is asked for in `mode`; without a mode it is one on this machine, in control
/// mode.
pub open spec fn wants(req: RequestView, mode: CreateMode) -> bool {
    req.mode == Some(mode) || (req.mode is None && mode == CreateMode::LocalCc)
}

/// What is run and remembered for a request: the name that is asked for or else `default_name`, the
/// command, what ends it, the mode and the record.
pub open spec fn honoured(
    spec: SpecView,
    id: u128,
    tmux_name: Text,
    req: RequestView,
    cols: u16,
    rows: u16,
    at: Timestamp,
    mode: SessionMode,
    default_name: Text,
    control: bool,
    ssh: Option<SshView>,
) -> bool {
    let name = match req.name {
        Some(name) => name,
        None => default_name,
    };
    &&& spec.name == name
    &&& spec.command == run_text(control, tmux_name, ssh)
    &&& spec.cleanup == match ssh {
        Some(_) => None,
        None => Some(kill_text(tmux_name)),
    }
    &&& spec.mode == mode
    &&& spec.input_mode == if control {
        ModeView::Control(fresh_control(Map::empty()))
    } else {
        ModeView::Direct
    }
    &&& spec.persistent == Some(
        PersistedView {
            id,
            name,
            mode,
            tmux_name,
            cols,
            rows,
            ssh,
            notes: Map::empty(),
            created_at: at,
        },
    )
}

/// A session on this machine is run and remembered as it was asked for, and can be ended.
pub proof fn law_local_requests_are_honoured(
    id: u128,
    tmux_name: Text,
    req: RequestView,
    cols: u16,
    rows: u16,
    at: Timestamp,
)
    requires
        req.command is None,
    ensures
        wants(req, CreateMode::Local) ==> spec_for(id, tmux_name, req, cols, rows, at) is Ok
            && honoured(
            spec_for(id, tmux_name, req, cols, rows, at)->Ok_0,
            id,
            tmux_name,
            req,
            cols,
            rows,
            at,
            SessionMode::Local,
            "Local "@ + short_id_text(id),
            false,
            None,
        ),
        wants(req, CreateMode::LocalCc) ==> spec_for(id, tmux_name, req, cols, rows, at) is Ok
            && honoured(
            spec_for(id, tmux_name, req, cols, rows, at)->Ok_0,
            id,
            tmux_name,
            req,
            cols,
            rows,
            at,
            SessionMode::LocalCc,
            "Local CC "@ + short_id_text(id),
            true,
            None,
        ),
{
}

/// A session on another machine is run and remembered as it was asked for; without a target it is
/// refused.
pub proof fn law_remote_requests_are_honoured(
    id: u128,
    tmux_name: Text,
    req: RequestView,
    cols: u16,
    rows: u16,
    at: Timestamp,
)
    requires
        req.command is None,
        wants(req, CreateMode::Ssh) || wants(req, CreateMode::SshCc),
    ensures
        req.ssh is None ==> spec_for(id, tmux_name, req, cols, rows, at) == Err::<
            SpecView,
            SessionError,
        >(SessionError::MissingSshTarget),
        req.ssh is Some && wants(req, CreateMode::Ssh) ==> spec_for(
            id,
            tmux_name,
            req,
            cols,
            rows,
            at,
        ) is Ok && honoured(
            spec_for(id, tmux_name, req, cols, rows, at)->Ok_0,
            id,
            tmux_name,
            req,
            cols,
            rows,
            at,
            SessionMode::Ssh,
            req.ssh->0.username + "@"@ + req.ssh->0.host,
            false,
            req.ssh,
        ),
        req.ssh is Some && wants(req, CreateMode::SshCc) ==> spec_for(
            id,
            tmux_name,
            req,
            cols,
            rows,
            at,
        ) is Ok && honoured(
            spec_for(id, tmux_name, req, cols, rows, at)->Ok_0,
            id,
            tmux_name,
            req,
            cols,
            rows,
            at,
            SessionMode::SshCc,
            req.ssh->0.username + "@"@ + req.ssh->0.host + " CC"@,
            true,
            req.ssh,
        ),
{
}

// ---------------------------------------------------------------------------
// Coming back
// ---------------------------------------------------------------------------

/// A remembered session comes back under its name and id, in its mode and size, attached to its tmux
/// session, with its notes; one on another machine without a target cannot.
pub proof fn law_records_come_back(session: PersistedView)
    ensures
        ({
            let control = session.mode == SessionMode::LocalCc || session.mode
                == SessionMode::SshCc;
            let remote = session.mode == SessionMode::Ssh || session.mode == SessionMode::SshCc;
            &&& remote && session.ssh is None ==> plan_again(session) == Err::<
                PlanView,
                SessionError,
            >(
                if session.mode == SessionMode::Ssh {
                    SessionError::MissingPersistedTarget
                } else {
                    SessionError::MissingPersistedControlTarget
                },
            )
            &&& !remote || session.ssh is Some ==> plan_again(session) == Ok::<
                PlanView,
                SessionError,
            >(
                PlanView {
                    id: session.id,
                    spec: SpecView {
                        name: session.name,
                        command: run_text(
                            control,
                            session.tmux_name,
                            if remote {
                                session.ssh
                            } else {
                                None
                            },
                        ),
                        cleanup: if remote {
                            None
                        } else {
                            Some(kill_text(session.tmux_name))
                        },
                        mode: session.mode,
                        input_mode: if control {
                            ModeView::Control(fresh_control(session.notes))
                        } else {
                            ModeView::Direct
                        },
                        persistent: Some(session),
                    },
                    cols: session.cols,
                    rows: session.rows,
                },
            )
            &&& plan_again(session) is Ok <==> spec_again(session) is Ok
        }),
{
}

/// What is remembered of a session is what it was started from, with the notes it has by now.
pub proof fn law_record_follows_the_notes(s: SessionView)
    ensures
        s.persistent is None ==> record_of(s) is None && plan_reconnect(s) == Err::<
            PlanView,
            SessionError,
        >(SessionError::NotReconnectable),
        s.persistent is Some && s.input_mode is Direct ==> record_of(s) == s.persistent,
        s.persistent is Some && s.input_mode is Control ==> record_of(s) == Some(
            PersistedView { notes: s.input_mode->Control_0.notes, ..s.persistent->0 },
        ),
        s.persistent is Some ==> plan_reconnect(s) == plan_again(record_of(s)->0),
{
}

/// A viewer who comes to a session that has ended has it started again from what is remembered of
/// it; one that runs, or is not remembered, is left as it is.
pub proof fn law_revival_goes_by_the_record(s: SessionView)
    ensures
        s.alive || s.persistent is None ==> revival(s) == RevivalView::AsItIs,
        !s.alive && s.persistent is Some ==> revival(s) == match plan_again(record_of(s)->0) {
            Ok(plan) => RevivalView::Start(plan),
            Err(e) => RevivalView::Failed(e),
        },
{
}

/// Why a session could not be started again is shown in its terminal.
pub proof fn law_failed_reconnect_is_explained(reason: Text)
    ensures
        reconnect_failure_text(reason) == "\r\n[failed to reconnect persisted session: "@ + reason
            + "]\r\n"@,
{
}

/// A session that has just been started is what was planned, runs, and has told and taken nothing
/// yet; what is told of it is what it is.
pub proof fn law_started_session_is_as_planned(
    s: SessionView,
    id: u128,
    spec: SpecView,
    cols: u16,
    rows: u16,
    at: Timestamp,
)
    ensures
        ({
            let fresh = started(id, spec, cols, rows, at);
            &&& fresh.id == id && fresh.name == spec.name && fresh.command == spec.command
            &&& fresh.cleanup == spec.cleanup && fresh.persistent == spec.persistent
            &&& fresh.mode == spec.mode && fresh.input_mode == spec.input_mode
            &&& fresh.cols == cols && fresh.rows == rows && fresh.created_at == at
            &&& fresh.alive && fresh.input_open && fresh.viewers == 0
            &&& fresh.inputs.len() == 0 && fresh.events.len() == 0 && fresh.replay.len() == 0
            &&& fresh.transfers.expected == Set::<Text>::empty()
            &&& fresh.transfers.streams.dom() == Set::<Text>::empty()
        }),
        ({
            let told = summary_of(s);
            &&& told.id == s.id && told.name == s.name && told.command == s.command
            &&& told.mode == s.mode && told.cols == s.cols && told.rows == s.rows
            &&& told.created_at == s.created_at && told.viewers == s.viewers
            &&& told.alive == s.alive
        }),
{
    let fresh = started(id, spec, cols, rows, at);
    assert(fresh.transfers.streams.dom() =~= Set::<Text>::empty());
}

} // verus!
