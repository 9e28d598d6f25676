//! What is asked of a running session: its layout, its panes, file transfers, its end.
use vstd::prelude::*;
use vstd::string::*;
use vstd::utf8::encode_utf8;
use crate::commands::{
    compacted, download_text, file_download_command, file_upload_chunk_command,
    file_upload_finish_commands, file_upload_start_command, is_base64, upload_chunk_text,
    upload_finish_texts, upload_start_text, valid_transfer_id, validate_transfer_id,
};
use crate::control::{asked, next_generation, noted, snapshot_of, ControlView};
use crate::errors::SessionError;
use crate::launch::{clamp, clamped, InputMode, ModeView};
use crate::panes::{shows_pane, PaneView, TmuxPane};
use crate::quote::{target_arg, tmux_quote, tmux_quoted, tmux_target_arg};
use crate::session::{
    direct_output, send_result, sent, EventView, InputView, SessionEvent, SessionView,
    TerminalSession,
};
use crate::table::{views, TextMap};
use crate::text::{copy_opt, decimal, opt_str, opt_text, push_decimal, texts, trim, trimmed, Text};
use crate::transfer::{filter_without, FilterView};
use crate::wire::{captures, should_capture_pane_snapshot};

verus! {

/// How many lines of the history of a pane are asked for.
pub const CAPTURE_PANE_HISTORY_LINES: u16 = 5000;

/// How far a pane is resized in one step, at least and at most.
pub const MIN_RESIZE: u16 = 1;

pub const MAX_RESIZE: u16 = 80;

// ---------------------------------------------------------------------------
// The layout
// ---------------------------------------------------------------------------

/// The commands that ask tmux for the layout.
pub open spec fn refresh_text(generation: u64) -> Text {
    "list-windows -F 'WT_WINDOW\t"@ + decimal(generation as nat)
        + "\t#{window_id}\t#{window_index}\t#{window_name}\t#{window_active}\t#{window_zoomed_flag}'\nlist-panes -s -F 'WT_PANE\t"@
        + decimal(generation as nat)
        + "\t#{window_id}\t#{pane_id}\t#{pane_index}\t#{pane_active}\t#{pane_current_command}\t#{pane_current_path}\t#{pane_left}\t#{pane_top}\t#{pane_width}\t#{pane_height}'\ndisplay-message -p 'WT_DONE\t"@
        + decimal(generation as nat) + "'\n"@
}

/// The commands that ask tmux for the layout.
fn refresh_commands(generation: u64) -> (res: String)
    ensures
        res@ == refresh_text(generation),
{
    let mut out = "list-windows -F 'WT_WINDOW\t".to_string();
    push_decimal(&mut out, generation);
    out.append(
        "\t#{window_id}\t#{window_index}\t#{window_name}\t#{window_active}\t#{window_zoomed_flag}'\nlist-panes -s -F 'WT_PANE\t",
    );
    push_decimal(&mut out, generation);
    out.append(
        "\t#{window_id}\t#{pane_id}\t#{pane_index}\t#{pane_active}\t#{pane_current_command}\t#{pane_current_path}\t#{pane_left}\t#{pane_top}\t#{pane_width}\t#{pane_height}'\ndisplay-message -p 'WT_DONE\t",
    );
    push_decimal(&mut out, generation);
    out.append("'\n");
    out
}

/// The session once its layout has been asked for. Outside control mode there is none to ask for.
pub open spec fn refreshed(s: SessionView) -> SessionView {
    match s.input_mode {
        ModeView::Control(control) => sent(
            SessionView { input_mode: ModeView::Control(asked(control)), ..s },
            InputView::Raw(encode_utf8(refresh_text(next_generation(control)))),
        ),
        ModeView::Direct => s,
    }
}

/// Whether the layout could be asked for.
pub open spec fn refresh_result(s: SessionView) -> Result<(), SessionError> {
    match s.input_mode {
        ModeView::Control(_) => send_result(s),
        ModeView::Direct => Ok(()),
    }
}

/// The session once tmux has been given the command `text` and the layout has been asked for.
pub open spec fn commanded(s: SessionView, text: Text) -> SessionView {
    if s.input_open {
        refreshed(sent(s, InputView::Raw(encode_utf8(text))))
    } else {
        s
    }
}

/// The panes whose contents are asked for: those that do not run a program that fills the screen.
pub open spec fn captured_panes(panes: Seq<PaneView>) -> Seq<Text>
    decreases panes.len(),
{
    if panes.len() == 0 {
        seq![]
    } else if captures(panes.last().command) {
        captured_panes(panes.drop_last()).push(panes.last().id)
    } else {
        captured_panes(panes.drop_last())
    }
}

/// The commands that ask tmux for the contents of panes.
pub open spec fn capture_text(panes: Seq<Text>) -> Text
    decreases panes.len(),
{
    if panes.len() == 0 {
        seq![]
    } else {
        capture_text(panes.drop_last()) + ("capture-pane -e -p -t "@ + tmux_quoted(panes.last())
            + " -S -"@ + decimal(CAPTURE_PANE_HISTORY_LINES as nat) + "\n"@)
    }
}

/// The input mode once the contents of `panes` have been asked for.
pub open spec fn mode_with_queue(mode: ModeView, panes: Seq<Text>) -> ModeView {
    match mode {
        ModeView::Control(control) => ModeView::Control(
            ControlView { queue: control.queue + panes, ..control },
        ),
        ModeView::Direct => ModeView::Direct,
    }
}

/// The session once the contents of `panes` have been asked for.
pub open spec fn captures_asked(s: SessionView, panes: Seq<PaneView>) -> SessionView {
    let ids = captured_panes(panes);
    if ids.len() == 0 {
        s
    } else {
        sent(
            SessionView { input_mode: mode_with_queue(s.input_mode, ids), ..s },
            InputView::Raw(encode_utf8(capture_text(ids))),
        )
    }
}

/// Whether the contents of `panes` could be asked for.
pub open spec fn capture_result(s: SessionView, panes: Seq<PaneView>) -> Result<(), SessionError> {
    if captured_panes(panes).len() == 0 {
        Ok(())
    } else {
        send_result(s)
    }
}

/// The ids of the panes whose contents are asked for.
fn panes_to_capture(panes: &Vec<TmuxPane>) -> (res: Vec<String>)
    ensures
        texts(res@) == captured_panes(views(panes@)),
{
    let ghost all = views(panes@);
    let mut out: Vec<String> = Vec::new();
    let mut i: usize = 0;
    assert(all.take(0) =~= Seq::<PaneView>::empty());
    assert(texts(out@) =~= Seq::<Text>::empty());
    while i < panes.len()
        invariant
            all == views(panes@),
            0 <= i <= panes@.len(),
            texts(out@) == captured_panes(all.take(i as int)),
        decreases panes@.len() - i,
    {
        let ghost before = texts(out@);
        proof {
            let step = all.take(i + 1);
            assert(step.drop_last() == all.take(i as int));
            assert(step.last() == panes@[i as int]@);
        }
        if should_capture_pane_snapshot(panes[i].current_command.as_str()) {
            out.push(panes[i].id.clone());
            assert(texts(out@) =~= before.push(panes@[i as int].id@));
        }
        i += 1;
    }
    assert(all.take(i as int) == all);
    out
}

/// The commands that ask tmux for the contents of panes.
fn capture_commands(panes: &Vec<String>) -> (res: String)
    ensures
        res@ == capture_text(texts(panes@)),
{
    let ghost all = texts(panes@);
    let mut out = String::new();
    let mut i: usize = 0;
    assert(all.take(0) =~= Seq::<Text>::empty());
    while i < panes.len()
        invariant
            all == texts(panes@),
            0 <= i <= panes@.len(),
            out@ == capture_text(all.take(i as int)),
        decreases panes@.len() - i,
    {
        let mut line = "capture-pane -e -p -t ".to_string();
        let name = tmux_quote(panes[i].as_str());
        line.append(name.as_str());
        line.append(" -S -");
        push_decimal(&mut line, CAPTURE_PANE_HISTORY_LINES as u64);
        line.append("\n");
        out.append(line.as_str());
        proof {
            let step = all.take(i + 1);
            assert(step.drop_last() == all.take(i as int));
            assert(step.last() == panes@[i as int]@);
        }
        i += 1;
    }
    assert(all.take(i as int) == all);
    out
}

/// The bytes of a text.
fn text_bytes(text: &String) -> (res: Vec<u8>)
    ensures
        res@ == encode_utf8(text@),
{
    text.as_str().as_bytes_vec()
}

impl TerminalSession {
    /// Asks tmux for the layout.
    pub fn request_tmux_state_refresh(&mut self) -> (res: Result<(), SessionError>)
        ensures
            final(self)@ == refreshed(old(self)@),
            res == refresh_result(old(self)@),
    {
        let generation: u64 = match &mut self.input_mode {
            InputMode::TmuxControl(state) => state.begin_refresh(),
            InputMode::Direct => {
                return Ok(());
            },
        };
        let commands = refresh_commands(generation);
        self.write_raw_input(text_bytes(&commands))
    }

    /// Asks tmux for the contents of panes.
    pub fn request_tmux_pane_captures(&mut self, panes: Vec<TmuxPane>) -> (res: Result<
        (),
        SessionError,
    >)
        ensures
            final(self)@ == captures_asked(old(self)@, views(panes@)),
            res == capture_result(old(self)@, views(panes@)),
    {
        let ids = panes_to_capture(&panes);
        let ghost shown = texts(ids@);
        if ids.len() == 0 {
            return Ok(());
        }
        if let InputMode::TmuxControl(state) = &mut self.input_mode {
            state.queue_captures(&ids);
        }
        let commands = capture_commands(&ids);
        self.write_raw_input(text_bytes(&commands))
    }
}

// ---------------------------------------------------------------------------
// Commands to tmux
// ---------------------------------------------------------------------------

/// What a user can have tmux do.
#[derive(Clone, Copy, Debug, PartialEq, Eq, Structural)]
pub enum TmuxUiCommand {
    /// Open a window.
    NewWindow,
    /// Split a pane into two side by side.
    SplitHorizontal,
    /// Split a pane into two one above the other.
    SplitVertical,
    /// Close a pane.
    KillPane,
    /// Have a pane fill its window, or end that.
    ZoomPane,
}

/// Where the edge of a pane is moved.
#[derive(Clone, Copy, Debug, PartialEq, Eq, Structural)]
pub enum TmuxResizeDirection {
    /// To the left.
    Left,
    /// To the right.
    Right,
    /// Up.
    Up,
    /// Down.
    Down,
}

/// The quoted name of a pane.
pub open spec fn quoted_target(pane: Option<Text>) -> Option<Text> {
    match pane {
        Some(id) => Some(tmux_quoted(id)),
        None => None,
    }
}

/// The tmux command for what a user wants done in `pane`.
pub open spec fn ui_text(command: TmuxUiCommand, pane: Option<Text>) -> Text {
    let target = target_arg(quoted_target(pane));
    match command {
        TmuxUiCommand::NewWindow => "new-window\n"@,
        TmuxUiCommand::SplitHorizontal => "split-window -h"@ + target + "\n"@,
        TmuxUiCommand::SplitVertical => "split-window -v"@ + target + "\n"@,
        TmuxUiCommand::KillPane => "kill-pane"@ + target + "\n"@,
        TmuxUiCommand::ZoomPane => "resize-pane -Z"@ + target + "\n"@,
    }
}

/// The tmux command that has the pane `pane` fill its window, or ends that.
pub open spec fn zoom_text(pane: Text) -> Text {
    "resize-pane -Z -t "@ + tmux_quoted(pane) + "\n"@
}

/// The flag for a direction.
pub open spec fn direction_flag(direction: TmuxResizeDirection) -> Text {
    match direction {
        TmuxResizeDirection::Left => "-L"@,
        TmuxResizeDirection::Right => "-R"@,
        TmuxResizeDirection::Up => "-U"@,
        TmuxResizeDirection::Down => "-D"@,
    }
}

/// The tmux command that resizes the pane `pane`.
pub open spec fn resize_text(pane: Text, direction: TmuxResizeDirection, amount: u16) -> Text {
    "resize-pane -t "@ + tmux_quoted(pane) + " "@ + direction_flag(direction) + " "@ + decimal(
        clamped(amount, MIN_RESIZE, MAX_RESIZE) as nat,
    ) + "\n"@
}

/// The tmux command that gives the window `window` the name `name`.
pub open spec fn rename_text(window: Text, name: Text) -> Text {
    "rename-window -t "@ + tmux_quoted(window) + " "@ + tmux_quoted(name) + "\n"@
}

/// The tmux command that tells how large the terminal is.
pub open spec fn client_size_text(cols: u16, rows: u16) -> Text {
    "refresh-client -C "@ + decimal(cols as nat) + ","@ + decimal(rows as nat) + "\n"@
}

/// The session once the terminal has `cols` columns and `rows` rows.
pub open spec fn resized(s: SessionView, cols: u16, rows: u16) -> SessionView {
    let sized = SessionView { cols, rows, ..s };
    match s.input_mode {
        ModeView::Control(_) => commanded(sized, client_size_text(cols, rows)),
        ModeView::Direct => sized,
    }
}

/// The session once the window `window` is called `name`; an empty name is none.
pub open spec fn renamed(s: SessionView, window: Text, name: Text) -> SessionView {
    if trimmed(name).len() == 0 {
        s
    } else {
        commanded(s, rename_text(window, trimmed(name)))
    }
}

/// Whether the window could be renamed.
pub open spec fn rename_result(s: SessionView, name: Text) -> Result<(), SessionError> {
    if trimmed(name).len() == 0 {
        Ok(())
    } else {
        send_result(s)
    }
}

/// The session once a user has noted `note` down about the pane `pane`. The viewers are told where
/// the pane is shown.
pub open spec fn annotated(s: SessionView, pane: Text, note: Text) -> SessionView {
    match s.input_mode {
        ModeView::Control(control) => {
            let after = noted(control, pane, note);
            SessionView {
                input_mode: ModeView::Control(after),
                events: if shows_pane(control.windows, pane) {
                    s.events.push(EventView::TmuxState(snapshot_of(after)))
                } else {
                    s.events
                },
                ..s
            }
        },
        ModeView::Direct => s,
    }
}

/// The tmux command for what a user wants done in a pane.
fn ui_command(command: TmuxUiCommand, pane_id: Option<&str>) -> (res: String)
    ensures
        res@ == ui_text(command, opt_str(pane_id)),
{
    let quoted = match pane_id {
        Some(id) => Some(tmux_quote(id)),
        None => None,
    };
    let target = match &quoted {
        Some(id) => tmux_target_arg(Some(id.as_str())),
        None => tmux_target_arg(None),
    };
    let mut out = match command {
        TmuxUiCommand::NewWindow => {
            return "new-window\n".to_string();
        },
        TmuxUiCommand::SplitHorizontal => "split-window -h".to_string(),
        TmuxUiCommand::SplitVertical => "split-window -v".to_string(),
        TmuxUiCommand::KillPane => "kill-pane".to_string(),
        TmuxUiCommand::ZoomPane => "resize-pane -Z".to_string(),
    };
    out.append(target.as_str());
    out.append("\n");
    out
}

impl TerminalSession {
    /// Gives tmux the command `text` and asks for the layout.
    fn command(&mut self, text: &String) -> (res: Result<(), SessionError>)
        ensures
            final(self)@ == commanded(old(self)@, text@),
            res == send_result(old(self)@),
    {
        match self.write_raw_input(text_bytes(text)) {
            Ok(()) => self.request_tmux_state_refresh(),
            Err(e) => Err(e),
        }
    }

    /// Notes that the terminal has `cols` columns and `rows` rows, and tells tmux in control mode.
    pub fn resize(&mut self, cols: u16, rows: u16) -> (res: Result<(), SessionError>)
        ensures
            final(self)@ == resized(old(self)@, cols, rows),
            res == refresh_result(old(self)@),
    {
        self.cols = cols;
        self.rows = rows;
        let control = match &self.input_mode {
            InputMode::TmuxControl(_) => true,
            InputMode::Direct => false,
        };
        if control {
            let mut text = "refresh-client -C ".to_string();
            push_decimal(&mut text, cols as u64);
            text.append(",");
            push_decimal(&mut text, rows as u64);
            text.append("\n");
            return self.command(&text);
        }
        Ok(())
    }

    /// Has tmux do what a user wants in a pane.
    pub fn send_tmux_ui_command(&mut self, command: TmuxUiCommand, pane_id: Option<&str>) -> (res:
        Result<(), SessionError>)
        ensures
            final(self)@ == commanded(old(self)@, ui_text(command, opt_str(pane_id))),
            res == send_result(old(self)@),
    {
        let text = ui_command(command, pane_id);
        self.command(&text)
    }

    /// Has the pane `pane_id` fill its window, or ends that.
    pub fn zoom_tmux_pane(&mut self, pane_id: &str) -> (res: Result<(), SessionError>)
        ensures
            final(self)@ == commanded(old(self)@, zoom_text(pane_id@)),
            res == send_result(old(self)@),
    {
        let mut text = "resize-pane -Z -t ".to_string();
        let name = tmux_quote(pane_id);
        text.append(name.as_str());
        text.append("\n");
        self.command(&text)
    }

    /// Resizes the pane `pane_id`.
    pub fn resize_tmux_pane(
        &mut self,
        pane_id: &str,
        direction: TmuxResizeDirection,
        amount: u16,
    ) -> (res: Result<(), SessionError>)
        ensures
            final(self)@ == commanded(old(self)@, resize_text(pane_id@, direction, amount)),
            res == send_result(old(self)@),
    {
        let amount = clamp(amount, MIN_RESIZE, MAX_RESIZE);
        let flag = match direction {
            TmuxResizeDirection::Left => "-L",
            TmuxResizeDirection::Right => "-R",
            TmuxResizeDirection::Up => "-U",
            TmuxResizeDirection::Down => "-D",
        };
        let mut text = "resize-pane -t ".to_string();
        let name = tmux_quote(pane_id);
        text.append(name.as_str());
        text.append(" ");
        text.append(flag);
        text.append(" ");
        push_decimal(&mut text, amount as u64);
        text.append("\n");
        self.command(&text)
    }

    /// Gives the window `window_id` the name `name`.
    pub fn rename_tmux_window(&mut self, window_id: &str, name: &str) -> (res: Result<
        (),
        SessionError,
    >)
        ensures
            final(self)@ == renamed(old(self)@, window_id@, name@),
            res == rename_result(old(self)@, name@),
    {
        let name = trim(name);
        if name.is_empty() {
            return Ok(());
        }
        let mut text = "rename-window -t ".to_string();
        let window = tmux_quote(window_id);
        text.append(window.as_str());
        text.append(" ");
        let quoted = tmux_quote(name);
        text.append(quoted.as_str());
        text.append("\n");
        self.command(&text)
    }

    /// Notes `note` down about the pane `pane_id`.
    pub fn set_tmux_pane_note(&mut self, pane_id: &str, note: &str) -> (res: Result<
        (),
        SessionError,
    >)
        ensures
            final(self)@ == annotated(old(self)@, pane_id@, note@),
            res is Ok,
    {
        let shown = match &mut self.input_mode {
            InputMode::TmuxControl(state) => state.set_note(pane_id, note),
            InputMode::Direct => false,
        };
        if shown {
            if let Some(snapshot) = self.tmux_state_snapshot() {
                self.tell(SessionEvent::TmuxState(snapshot));
            }
        }
        Ok(())
    }

    /// What was noted down about panes, in control mode.
    pub fn pane_notes_snapshot(&self) -> (res: Option<TextMap<String>>)
        ensures
            match res {
                Some(notes) => self@.input_mode is Control && notes@
                    == self@.input_mode->Control_0.notes,
                None => self@.input_mode is Direct,
            },
    {
        match &self.input_mode {
            InputMode::TmuxControl(state) => Some(state.pane_notes.copy()),
            InputMode::Direct => None,
        }
    }
}

// ---------------------------------------------------------------------------
// File transfers
// ---------------------------------------------------------------------------

/// The session once a download has been asked for.
pub open spec fn download_asked(
    s: SessionView,
    id: Text,
    path: Text,
    pane: Option<Text>,
) -> SessionView {
    if valid_transfer_id(id) {
        sent(
            SessionView {
                transfers: FilterView {
                    expected: s.transfers.expected.insert(id),
                    ..s.transfers
                },
                ..s
            },
            InputView::User { data: encode_utf8(download_text(id, path)), pane },
        )
    } else {
        s
    }
}

/// Whether a transfer could be asked for.
pub open spec fn transfer_result(s: SessionView, id: Text) -> Result<(), SessionError> {
    if valid_transfer_id(id) {
        send_result(s)
    } else {
        Err(SessionError::InvalidTransferId)
    }
}

/// The session once an upload has been started.
pub open spec fn upload_started(
    s: SessionView,
    id: Text,
    path: Text,
    tmp_path: Text,
    pane: Option<Text>,
) -> SessionView {
    if valid_transfer_id(id) {
        sent(
            s,
            InputView::FileTransfer { data: encode_utf8(upload_start_text(path, tmp_path)), pane },
        )
    } else {
        s
    }
}

/// The session once a piece has been added to an upload.
pub open spec fn upload_continued(
    s: SessionView,
    data: Text,
    tmp_path: Text,
    pane: Option<Text>,
) -> SessionView {
    if is_base64(compacted(data)) {
        sent(
            s,
            InputView::FileTransfer { data: encode_utf8(upload_chunk_text(data, tmp_path)), pane },
        )
    } else {
        s
    }
}

/// Whether a piece could be added to an upload.
pub open spec fn chunk_result(s: SessionView, data: Text) -> Result<(), SessionError> {
    if is_base64(compacted(data)) {
        send_result(s)
    } else {
        Err(SessionError::InvalidUploadChunk)
    }
}

/// The inputs that give the terminal commands of a file transfer.
pub open spec fn transfer_inputs(commands: Seq<Text>, pane: Option<Text>) -> Seq<InputView> {
    Seq::new(
        commands.len(),
        |i: int| InputView::FileTransfer { data: encode_utf8(commands[i]), pane },
    )
}

/// The session once an upload has been finished.
pub open spec fn upload_finished(
    s: SessionView,
    id: Text,
    path: Text,
    tmp_path: Text,
    pane: Option<Text>,
) -> SessionView {
    if valid_transfer_id(id) && s.input_open {
        SessionView {
            inputs: s.inputs + transfer_inputs(upload_finish_texts(path, tmp_path), pane),
            ..s
        }
    } else {
        s
    }
}

impl TerminalSession {
    /// Asks for the download of `path`.
    pub fn start_file_download(&mut self, id: &str, path: &str, pane_id: Option<String>) -> (res:
        Result<(), SessionError>)
        ensures
            final(self)@ == download_asked(old(self)@, id@, path@, opt_text(pane_id)),
            res == transfer_result(old(self)@, id@),
    {
        match validate_transfer_id(id) {
            Ok(()) => {},
            Err(e) => {
                return Err(e);
            },
        }
        self.file_transfers.expect_download(id);
        let command = file_download_command(id, path);
        self.write_input(text_bytes(&command), pane_id)
    }

    /// Starts an upload to `path`.
    pub fn start_file_upload(
        &mut self,
        id: &str,
        path: &str,
        tmp_path: &str,
        pane_id: Option<String>,
    ) -> (res: Result<(), SessionError>)
        ensures
            final(self)@ == upload_started(old(self)@, id@, path@, tmp_path@, opt_text(pane_id)),
            res == transfer_result(old(self)@, id@),
    {
        match validate_transfer_id(id) {
            Ok(()) => {},
            Err(e) => {
                return Err(e);
            },
        }
        let command = file_upload_start_command(path, tmp_path);
        self.write_file_transfer_input(text_bytes(&command), pane_id)
    }

    /// Adds a piece to an upload.
    pub fn write_file_upload_chunk(
        &mut self,
        data: &str,
        tmp_path: &str,
        pane_id: Option<String>,
    ) -> (res: Result<(), SessionError>)
        ensures
            final(self)@ == upload_continued(old(self)@, data@, tmp_path@, opt_text(pane_id)),
            res == chunk_result(old(self)@, data@),
    {
        match file_upload_chunk_command(data, tmp_path) {
            Ok(command) => self.write_file_transfer_input(text_bytes(&command), pane_id),
            Err(e) => Err(e),
        }
    }

    /// Finishes an upload to `path`.
    pub fn finish_file_upload(
        &mut self,
        id: &str,
        path: &str,
        tmp_path: &str,
        pane_id: Option<String>,
    ) -> (res: Result<(), SessionError>)
        ensures
            final(self)@ == upload_finished(old(self)@, id@, path@, tmp_path@, opt_text(pane_id)),
            res == transfer_result(old(self)@, id@),
    {
        match validate_transfer_id(id) {
            Ok(()) => {},
            Err(e) => {
                return Err(e);
            },
        }
        let ghost before = self@;
        let commands = file_upload_finish_commands(path, tmp_path);
        let ghost all = transfer_inputs(views(commands@), opt_text(pane_id));
        let mut i: usize = 0;
        assert(before.inputs + all.take(0) =~= before.inputs);
        while i < commands.len()
            invariant
                all == transfer_inputs(views(commands@), opt_text(pane_id)),
                views(commands@) == upload_finish_texts(path@, tmp_path@),
                valid_transfer_id(id@),
                before == old(self)@,
                0 <= i <= commands@.len(),
                i > 0 ==> before.input_open,
                self@ == (SessionView { inputs: before.inputs + all.take(i as int), ..before }),
            decreases commands@.len() - i,
        {
            assert(all[i as int] == (InputView::FileTransfer {
                data: encode_utf8(commands@[i as int]@),
                pane: opt_text(pane_id),
            }));
            match self.write_file_transfer_input(text_bytes(&commands[i]), copy_opt(&pane_id)) {
                Ok(()) => {},
                Err(e) => {
                    return Err(e);
                },
            }
            assert(before.inputs + all.take(i + 1) =~= (before.inputs + all.take(i as int)).push(
                all[i as int],
            ));
            i += 1;
        }
        assert(views(commands@).len() == 3);
        assert(all.take(i as int) =~= all);
        Ok(())
    }

    /// Gives the transfer `id` up.
    pub fn cancel_file_transfer(&mut self, id: &str)
        ensures
            final(self)@ == (SessionView {
                transfers: filter_without(old(self)@.transfers, id@),
                ..old(self)@
            }),
    {
        self.file_transfers.cancel(id);
    }
}

// ---------------------------------------------------------------------------
// The end
// ---------------------------------------------------------------------------

/// What the terminal shows when its process has ended.
pub open spec fn exit_notice() -> Text {
    "\r\n[terminal process exited; reopen the session to reconnect]\r\n"@
}

/// The session once its process has ended.
pub open spec fn exited(s: SessionView) -> SessionView {
    if s.alive {
        direct_output(SessionView { alive: false, ..s }, encode_utf8(exit_notice()))
    } else {
        s
    }
}

impl TerminalSession {
    /// Notes that the session is closed; gives the command that ends what it leaves running.
    pub fn close(&mut self) -> (res: Option<String>)
        ensures
            final(self)@ == (SessionView { alive: false, ..old(self)@ }),
            opt_text(res) == old(self)@.cleanup,
    {
        self.alive = false;
        copy_opt(&self.cleanup_command)
    }

    /// Notes that the session is closed because another takes its place.
    pub fn reconnect_close(&mut self)
        ensures
            final(self)@ == (SessionView { alive: false, ..old(self)@ }),
    {
        self.alive = false;
    }

    /// Notes that the process of the terminal has ended.
    pub fn mark_exited(&mut self)
        ensures
            final(self)@ == exited(old(self)@),
    {
        if self.alive {
            self.alive = false;
            let notice = exit_notice_text();
            let bytes = text_bytes(&notice);
            self.append_direct_output(bytes.as_slice());
        }
    }

    /// Notes that the terminal takes no more input.
    pub fn close_input(&mut self)
        ensures
            final(self)@ == (SessionView { input_open: false, inputs: seq![], ..old(self)@ }),
    {
        self.input_open = false;
        self.inputs.clear();
        assert(views(self.inputs@) =~= Seq::<InputView>::empty());
    }
}

/// What the terminal shows when its process has ended.
fn exit_notice_text() -> (res: String)
    ensures
        res@ == exit_notice(),
{
    "\r\n[terminal process exited; reopen the session to reconnect]\r\n".to_string()
}

} // verus!
