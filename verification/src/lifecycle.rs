//! How sessions come back, are resized and end.
use vstd::prelude::*;
use vstd::string::*;
use vstd::utf8::encode_utf8;
use crate::control::{fresh_control, ControlView};
use crate::errors::SessionError;
use crate::launch::{
    build_persisted_spec, clamp, granted_cols, granted_rows, is_control, law_notes_come_back,
    law_session_comes_back_as_it_was, plan_for, plan_result, request_cols, request_rows, spec_again,
    tmux_name_for, ModeView, PersistedSession, PersistedView, PlanView, RequestView, SessionPlan,
    MAX_COLS, MAX_ROWS, MIN_COLS, MIN_ROWS,
};
use crate::outside::Timestamp;
use crate::registry::SessionRegistry;
use crate::requests::{commanded, zoom_text};
use crate::session::{direct_output, started, SessionView, TerminalSession};
use crate::store::SessionStore;
use crate::text::{opt_text, Text};

verus! {

// ---------------------------------------------------------------------------
// Coming back
// ---------------------------------------------------------------------------

/// How a remembered session is started again: as it was, with the size it had.
pub open spec fn plan_again(session: PersistedView) -> Result<PlanView, SessionError> {
    match spec_again(session) {
        Ok(spec) => Ok(
            PlanView { id: session.id, spec, cols: session.cols, rows: session.rows },
        ),
        Err(e) => Err(e),
    }
}

/// What is remembered of a session that runs, with what is noted down about its panes by now.
pub open spec fn record_of(s: SessionView) -> Option<PersistedView> {
    match (s.persistent, s.input_mode) {
        (Some(session), ModeView::Control(control)) => Some(
            PersistedView { notes: control.notes, ..session },
        ),
        (persistent, _) => persistent,
    }
}

/// How a session is started again on request.
pub open spec fn plan_reconnect(s: SessionView) -> Result<PlanView, SessionError> {
    match record_of(s) {
        Some(session) => plan_again(session),
        None => Err(SessionError::NotReconnectable),
    }
}

/// Plans how a remembered session is started again.
pub fn plan_persisted(session: PersistedSession) -> (res: Result<SessionPlan, SessionError>)
    ensures
        plan_result(res) == plan_again(session@),
{
    let id: u128 = session.id;
    let cols: u16 = session.cols;
    let rows: u16 = session.rows;
    match build_persisted_spec(session) {
        Ok(spec) => Ok(SessionPlan { id, spec, cols, rows }),
        Err(e) => Err(e),
    }
}

/// What is remembered of a session that runs, with what is noted down about its panes by now.
pub fn current_record(session: &TerminalSession) -> (res: Option<PersistedSession>)
    ensures
        match res {
            Some(record) => record_of(session@) == Some(record@),
            None => record_of(session@) is None,
        },
{
    match &session.persistent {
        Some(persisted) => {
            let mut record = persisted.copy();
            if let Some(notes) = session.pane_notes_snapshot() {
                record.pane_notes = notes;
            }
            Some(record)
        },
        None => None,
    }
}

/// Plans how a session is started again on request.
pub fn plan_session_reconnect(session: &TerminalSession) -> (res: Result<SessionPlan, SessionError>)
    ensures
        plan_result(res) == plan_reconnect(session@),
{
    match current_record(session) {
        Some(record) => plan_persisted(record),
        None => Err(SessionError::NotReconnectable),
    }
}

/// What it takes to have a session run that a viewer wants to join.
pub enum Revival {
    /// Nothing: it runs, or it is not remembered and stays as it is.
    AsItIs,
    /// It has to be started again.
    Start(SessionPlan),
    /// It cannot be started again.
    Failed(SessionError),
}

/// What it takes to have a session run that a viewer wants to join.
#[verifier::ext_equal]
pub enum RevivalView {
    AsItIs,
    Start(PlanView),
    Failed(SessionError),
}

impl View for Revival {
    type V = RevivalView;

    open spec fn view(&self) -> RevivalView {
        match self {
            Revival::AsItIs => RevivalView::AsItIs,
            Revival::Start(plan) => RevivalView::Start(plan@),
            Revival::Failed(e) => RevivalView::Failed(*e),
        }
    }
}

/// What it takes to have a session run that a viewer wants to join.
pub open spec fn revival(s: SessionView) -> RevivalView {
    match record_of(s) {
        Some(session) if !s.alive => match plan_again(session) {
            Ok(plan) => RevivalView::Start(plan),
            Err(e) => RevivalView::Failed(e),
        },
        _ => RevivalView::AsItIs,
    }
}

/// Says what it takes to have a session run that a viewer wants to join.
pub fn ensure_session_running(session: &TerminalSession) -> (res: Revival)
    ensures
        res@ == revival(session@),
{
    if session.is_alive() {
        return Revival::AsItIs;
    }
    match current_record(session) {
        Some(record) => match plan_persisted(record) {
            Ok(plan) => Revival::Start(plan),
            Err(e) => Revival::Failed(e),
        },
        None => Revival::AsItIs,
    }
}

/// What the terminal shows when a session could not be started again.
pub open spec fn reconnect_failure_text(reason: Text) -> Text {
    "\r\n[failed to reconnect persisted session: "@ + reason + "]\r\n"@
}

/// Shows in the terminal that its session could not be started again.
pub fn report_reconnect_failure(session: &mut TerminalSession, reason: &str)
    ensures
        final(session)@ == direct_output(
            old(session)@,
            encode_utf8(reconnect_failure_text(reason@)),
        ),
{
    let mut text = "\r\n[failed to reconnect persisted session: ".to_string();
    text.append(reason);
    text.append("]\r\n");
    let bytes = text.as_str().as_bytes_vec();
    session.append_direct_output(bytes.as_slice());
}

// ---------------------------------------------------------------------------
// Resizing
// ---------------------------------------------------------------------------

/// What is asked for when a terminal is resized.
#[derive(Debug)]
pub struct ResizeSessionRequest {
    /// How many columns.
    pub cols: u16,
    /// How many rows.
    pub rows: u16,
    /// A pane that is to fill its window.
    pub zoom_pane_id: Option<String>,
}

/// The size that a terminal is given.
#[derive(Clone, Copy, Debug, PartialEq, Eq, Structural)]
pub struct TerminalSize {
    /// How many columns.
    pub cols: u16,
    /// How many rows.
    pub rows: u16,
}

/// The session once its resizing has begun: a pane is zoomed where that is asked for.
pub open spec fn zoomed(s: SessionView, pane: Option<Text>) -> SessionView {
    match pane {
        Some(id) => commanded(s, zoom_text(id)),
        None => s,
    }
}

/// The size that is granted, or the reason why none is.
pub open spec fn granted_size(s: SessionView, cols: u16, rows: u16, pane: Option<Text>) -> Result<
    TerminalSize,
    SessionError,
> {
    if pane is Some && !s.input_open {
        Err(SessionError::InputClosed)
    } else {
        Ok(TerminalSize { cols: granted_cols(cols), rows: granted_rows(rows) })
    }
}

/// Begins to resize a terminal; gives the size that it is to have.
pub fn begin_resize(session: &mut TerminalSession, req: &ResizeSessionRequest) -> (res: Result<
    TerminalSize,
    SessionError,
>)
    ensures
        final(session)@ == zoomed(old(session)@, opt_text(req.zoom_pane_id)),
        res == granted_size(old(session)@, req.cols, req.rows, opt_text(req.zoom_pane_id)),
{
    let cols = clamp(req.cols, MIN_COLS, MAX_COLS);
    let rows = clamp(req.rows, MIN_ROWS, MAX_ROWS);
    if let Some(pane_id) = &req.zoom_pane_id {
        match session.zoom_tmux_pane(pane_id.as_str()) {
            Ok(()) => {},
            Err(e) => {
                return Err(e);
            },
        }
    }
    Ok(TerminalSize { cols, rows })
}

// ---------------------------------------------------------------------------
// Ending
// ---------------------------------------------------------------------------

/// Takes the session `id` out of the sessions that run and forgets it; gives it where it ran. A
/// session that does not run is not forgotten.
pub fn delete_session<S>(
    registry: &mut SessionRegistry<S>,
    store: &mut SessionStore,
    id: u128,
) -> (res: Option<S>)
    ensures
        final(registry)@ == old(registry)@.remove(id),
        final(store)@ == if old(registry)@.dom().contains(id) {
            old(store)@.remove(id)
        } else {
            old(store)@
        },
        match res {
            Some(session) => old(registry)@.dom().contains(id) && session == old(registry)@[id],
            None => !old(registry)@.dom().contains(id),
        },
{
    let session = registry.remove(id);
    if session.is_some() {
        store.remove(id);
    }
    session
}

// ---------------------------------------------------------------------------
// Laws
// ---------------------------------------------------------------------------

/// A session that is reconnected runs as it was planned when it was asked for: the same command,
/// name and mode, and the same size.
pub proof fn law_reconnected_as_planned(id: u128, req: RequestView, at: Timestamp, now: Timestamp)
    requires
        plan_for(id, req, at) is Ok,
        plan_for(id, req, at)->Ok_0.spec.persistent is Some,
    ensures
        ({
            let plan = plan_for(id, req, at)->Ok_0;
            plan_reconnect(started(id, plan.spec, plan.cols, plan.rows, now)) == Ok::<
                PlanView,
                SessionError,
            >(plan)
        }),
{
    law_session_comes_back_as_it_was(
        id,
        tmux_name_for(req.tmux_name, id),
        req,
        request_cols(req),
        request_rows(req),
        at,
    );
}

/// What is noted down about panes outlives a reconnect: the session that takes over knows all of it,
/// whether it was asked for or a viewer came after the process had ended.
pub proof fn law_notes_survive_a_reconnect(s: SessionView, control: ControlView)
    requires
        s.input_mode == ModeView::Control(control),
        s.persistent is Some,
        is_control(s.persistent->0.mode),
        spec_again(s.persistent->0) is Ok,
    ensures
        plan_reconnect(s) is Ok,
        plan_reconnect(s)->Ok_0.spec.input_mode == ModeView::Control(fresh_control(control.notes)),
        !s.alive ==> revival(s) == RevivalView::Start(plan_reconnect(s)->Ok_0),
{
    law_notes_come_back(s.persistent->0, control.notes);
}

/// A viewer who wants to join a session that runs finds it as it is; one whose process has ended is
/// started again if it is remembered.
pub proof fn law_ended_sessions_are_revived(s: SessionView)
    ensures
        s.alive ==> revival(s) is AsItIs,
        revival(SessionView { alive: false, ..s }) is AsItIs <==> s.persistent is None,
{
}

} // verus!
