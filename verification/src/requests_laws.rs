//! What tmux is told and asked, read back.
use vstd::prelude::*;
use vstd::utf8::encode_utf8;
use crate::commands::{compacted, download_text, is_base64, upload_chunk_text, valid_transfer_id};
use crate::control::{next_generation, noted, with_contents, ControlView};
use crate::control_laws::fields_text;
use crate::errors::SessionError;
use crate::launch::ModeView;
use crate::layout_laws::law_contents_replace_what_was_held;
use crate::lifecycle::{granted_size, zoomed};
use crate::panes::{shows_pane, PaneView, SnapshotView};
use crate::quote::tmux_quoted;
use crate::requests::{
    annotated, capture_result, capture_text, captured_panes, captures_asked, client_size_text,
    commanded, download_asked, exited, refresh_result, refresh_text, refreshed, rename_result,
    renamed, resize_text, resized, transfer_inputs, transfer_result, ui_text, upload_continued,
    zoom_text, TmuxResizeDirection, TmuxUiCommand,
};
use crate::session::{
    contents_known, send_result, EventView, InputView, SessionView, DIRECT_STREAM_ID,
};
use crate::session_laws::{law_output_is_told_and_held, nothing_awaited};
use crate::text::{decimal, law_decimal_roundtrip, trimmed, unsigned_value, Text};
use crate::wire::captures;

verus! {

// ---------------------------------------------------------------------------
// The question for the layout
// ---------------------------------------------------------------------------

/// The question for the layout with the number `n`: for each window and each pane a line with these
/// fields between tabs, in the order in which answers are read, and a last line.
pub open spec fn layout_question(n: Text) -> Text {
    "list-windows -F '"@ + ("WT_WINDOW\t"@ + fields_text(
        seq![
            n,
            "#{window_id}"@,
            "#{window_index}"@,
            "#{window_name}"@,
            "#{window_active}"@,
            "#{window_zoomed_flag}"@,
        ],
        '\t',
    )) + "'\n"@ + "list-panes -s -F '"@ + ("WT_PANE\t"@ + fields_text(
        seq![
            n,
            "#{window_id}"@,
            "#{pane_id}"@,
            "#{pane_index}"@,
            "#{pane_active}"@,
            "#{pane_current_command}"@,
            "#{pane_current_path}"@,
            "#{pane_left}"@,
            "#{pane_top}"@,
            "#{pane_width}"@,
            "#{pane_height}"@,
        ],
        '\t',
    )) + "'\n"@ + "display-message -p '"@ + ("WT_DONE\t"@ + n) + "'\n"@
}

proof fn lemma_field_at(fields: Seq<Text>, k: int)
    requires
        0 <= k < fields.len() - 1,
    ensures
        fields_text(fields.skip(k), '\t') == fields[k] + seq!['\t'] + fields_text(
            fields.skip(k + 1),
            '\t',
        ),
{
    assert(fields.skip(k).skip(1) =~= fields.skip(k + 1));
}

proof fn lemma_window_fields(n: Text)
    ensures
        fields_text(
            seq![
                n,
                "#{window_id}"@,
                "#{window_index}"@,
                "#{window_name}"@,
                "#{window_active}"@,
                "#{window_zoomed_flag}"@,
            ],
            '\t',
        ) == n
            + "\t#{window_id}\t#{window_index}\t#{window_name}\t#{window_active}\t#{window_zoomed_flag}"@,
{
    reveal_strlit("#{window_id}");
    reveal_strlit("#{window_index}");
    reveal_strlit("#{window_name}");
    reveal_strlit("#{window_active}");
    reveal_strlit("#{window_zoomed_flag}");
    reveal_strlit(
        "\t#{window_id}\t#{window_index}\t#{window_name}\t#{window_active}\t#{window_zoomed_flag}",
    );
    let all = seq![
        n,
        "#{window_id}"@,
        "#{window_index}"@,
        "#{window_name}"@,
        "#{window_active}"@,
        "#{window_zoomed_flag}"@,
    ];
    assert(all.skip(0) =~= all);
    assert(all.skip(5) =~= seq!["#{window_zoomed_flag}"@]);
    lemma_field_at(all, 4);
    lemma_field_at(all, 3);
    lemma_field_at(all, 2);
    lemma_field_at(all, 1);
    lemma_field_at(all, 0);
    let rest = fields_text(all.skip(1), '\t');
    assert(seq!['\t'] + rest
        =~= "\t#{window_id}\t#{window_index}\t#{window_name}\t#{window_active}\t#{window_zoomed_flag}"@);
    assert(n + seq!['\t'] + rest =~= n + (seq!['\t'] + rest));
}

proof fn lemma_pane_fields(n: Text)
    ensures
        fields_text(
            seq![
                n,
                "#{window_id}"@,
                "#{pane_id}"@,
                "#{pane_index}"@,
                "#{pane_active}"@,
                "#{pane_current_command}"@,
                "#{pane_current_path}"@,
                "#{pane_left}"@,
                "#{pane_top}"@,
                "#{pane_width}"@,
                "#{pane_height}"@,
            ],
            '\t',
        ) == n
            + "\t#{window_id}\t#{pane_id}\t#{pane_index}\t#{pane_active}\t#{pane_current_command}\t#{pane_current_path}\t#{pane_left}\t#{pane_top}\t#{pane_width}\t#{pane_height}"@,
{
    reveal_strlit("#{window_id}");
    reveal_strlit("#{pane_id}");
    reveal_strlit("#{pane_index}");
    reveal_strlit("#{pane_active}");
    reveal_strlit("#{pane_current_command}");
    reveal_strlit("#{pane_current_path}");
    reveal_strlit("#{pane_left}");
    reveal_strlit("#{pane_top}");
    reveal_strlit("#{pane_width}");
    reveal_strlit("#{pane_height}");
    reveal_strlit(
        "\t#{window_id}\t#{pane_id}\t#{pane_index}\t#{pane_active}\t#{pane_current_command}\t#{pane_current_path}\t#{pane_left}\t#{pane_top}\t#{pane_width}\t#{pane_height}",
    );
    let all = seq![
        n,
        "#{window_id}"@,
        "#{pane_id}"@,
        "#{pane_index}"@,
        "#{pane_active}"@,
        "#{pane_current_command}"@,
        "#{pane_current_path}"@,
        "#{pane_left}"@,
        "#{pane_top}"@,
        "#{pane_width}"@,
        "#{pane_height}"@,
    ];
    assert(all.skip(0) =~= all);
    assert(all.skip(10) =~= seq!["#{pane_height}"@]);
    lemma_field_at(all, 9);
    lemma_field_at(all, 8);
    lemma_field_at(all, 7);
    lemma_field_at(all, 6);
    lemma_field_at(all, 5);
    lemma_field_at(all, 4);
    lemma_field_at(all, 3);
    lemma_field_at(all, 2);
    lemma_field_at(all, 1);
    lemma_field_at(all, 0);
    let rest = fields_text(all.skip(1), '\t');
    assert(seq!['\t'] + rest
        =~= "\t#{window_id}\t#{pane_id}\t#{pane_index}\t#{pane_active}\t#{pane_current_command}\t#{pane_current_path}\t#{pane_left}\t#{pane_top}\t#{pane_width}\t#{pane_height}"@);
    assert(n + seq!['\t'] + rest =~= n + (seq!['\t'] + rest));
}

/// The layout is asked for with the fields that answers are read by, and with the number of the
/// question in each line.
pub proof fn law_question_asks_for_what_is_read(generation: u64)
    ensures
        refresh_text(generation) == layout_question(decimal(generation as nat)),
{
    let n = decimal(generation as nat);
    lemma_window_fields(n);
    lemma_pane_fields(n);
    let w =
        "\t#{window_id}\t#{window_index}\t#{window_name}\t#{window_active}\t#{window_zoomed_flag}"@;
    let p =
        "\t#{window_id}\t#{pane_id}\t#{pane_index}\t#{pane_active}\t#{pane_current_command}\t#{pane_current_path}\t#{pane_left}\t#{pane_top}\t#{pane_width}\t#{pane_height}"@;
    lemma_question_literals();
    assert(refresh_text(generation) =~= "list-windows -F '"@ + "WT_WINDOW\t"@ + n + w + "'\n"@
        + "list-panes -s -F '"@ + "WT_PANE\t"@ + n + p + "'\n"@ + "display-message -p '"@
        + "WT_DONE\t"@ + n + "'\n"@);
    assert(layout_question(n) =~= "list-windows -F '"@ + "WT_WINDOW\t"@ + n + w + "'\n"@
        + "list-panes -s -F '"@ + "WT_PANE\t"@ + n + p + "'\n"@ + "display-message -p '"@
        + "WT_DONE\t"@ + n + "'\n"@);
}

proof fn lemma_question_literals()
    ensures
        "list-windows -F 'WT_WINDOW\t"@ == "list-windows -F '"@ + "WT_WINDOW\t"@,
        "\t#{window_id}\t#{window_index}\t#{window_name}\t#{window_active}\t#{window_zoomed_flag}'\nlist-panes -s -F 'WT_PANE\t"@
            == "\t#{window_id}\t#{window_index}\t#{window_name}\t#{window_active}\t#{window_zoomed_flag}"@
            + "'\n"@ + "list-panes -s -F '"@ + "WT_PANE\t"@,
        "\t#{window_id}\t#{pane_id}\t#{pane_index}\t#{pane_active}\t#{pane_current_command}\t#{pane_current_path}\t#{pane_left}\t#{pane_top}\t#{pane_width}\t#{pane_height}'\ndisplay-message -p 'WT_DONE\t"@
            == "\t#{window_id}\t#{pane_id}\t#{pane_index}\t#{pane_active}\t#{pane_current_command}\t#{pane_current_path}\t#{pane_left}\t#{pane_top}\t#{pane_width}\t#{pane_height}"@
            + "'\n"@ + "display-message -p '"@ + "WT_DONE\t"@,
{
    reveal_strlit("list-windows -F 'WT_WINDOW\t");
    reveal_strlit("list-windows -F '");
    reveal_strlit("WT_WINDOW\t");
    reveal_strlit("'\n");
    reveal_strlit("list-panes -s -F '");
    reveal_strlit("WT_PANE\t");
    reveal_strlit("display-message -p '");
    reveal_strlit("WT_DONE\t");
    reveal_strlit(
        "\t#{window_id}\t#{window_index}\t#{window_name}\t#{window_active}\t#{window_zoomed_flag}",
    );
    reveal_strlit(
        "\t#{window_id}\t#{window_index}\t#{window_name}\t#{window_active}\t#{window_zoomed_flag}'\nlist-panes -s -F 'WT_PANE\t",
    );
    reveal_strlit(
        "\t#{window_id}\t#{pane_id}\t#{pane_index}\t#{pane_active}\t#{pane_current_command}\t#{pane_current_path}\t#{pane_left}\t#{pane_top}\t#{pane_width}\t#{pane_height}",
    );
    reveal_strlit(
        "\t#{window_id}\t#{pane_id}\t#{pane_index}\t#{pane_active}\t#{pane_current_command}\t#{pane_current_path}\t#{pane_left}\t#{pane_top}\t#{pane_width}\t#{pane_height}'\ndisplay-message -p 'WT_DONE\t",
    );
    assert("list-windows -F 'WT_WINDOW\t"@ =~= "list-windows -F '"@ + "WT_WINDOW\t"@);
    assert("\t#{window_id}\t#{window_index}\t#{window_name}\t#{window_active}\t#{window_zoomed_flag}'\nlist-panes -s -F 'WT_PANE\t"@
        =~= "\t#{window_id}\t#{window_index}\t#{window_name}\t#{window_active}\t#{window_zoomed_flag}"@
        + "'\n"@ + "list-panes -s -F '"@ + "WT_PANE\t"@);
    assert("\t#{window_id}\t#{pane_id}\t#{pane_index}\t#{pane_active}\t#{pane_current_command}\t#{pane_current_path}\t#{pane_left}\t#{pane_top}\t#{pane_width}\t#{pane_height}'\ndisplay-message -p 'WT_DONE\t"@
        =~= "\t#{window_id}\t#{pane_id}\t#{pane_index}\t#{pane_active}\t#{pane_current_command}\t#{pane_current_path}\t#{pane_left}\t#{pane_top}\t#{pane_width}\t#{pane_height}"@
        + "'\n"@ + "display-message -p '"@ + "WT_DONE\t"@);
}

/// The session in which tmux is then given `bytes`.
pub open spec fn given(s: SessionView, bytes: Seq<u8>) -> SessionView {
    SessionView { inputs: s.inputs.push(InputView::Raw(bytes)), ..s }
}

/// Asking for the layout gives tmux the question with the next number, drops what had come of an
/// earlier answer, and changes nothing else. Outside control mode nothing is asked.
pub proof fn law_layout_is_asked_for(s: SessionView)
    ensures
        s.input_mode matches ModeView::Control(control) ==> s.input_open ==> {
            let n = next_generation(control);
            refreshed(s) == given(
                SessionView {
                    input_mode: ModeView::Control(
                        ControlView {
                            refresh_generation: n,
                            pending_generation: Some(n),
                            pending_windows: Map::empty(),
                            pending_panes: Map::empty(),
                            ..control
                        },
                    ),
                    ..s
                },
                encode_utf8(layout_question(decimal(n as nat))),
            )
        },
        s.input_mode matches ModeView::Control(control) ==> (control.refresh_generation < u64::MAX
            ==> next_generation(control) == control.refresh_generation + 1),
        s.input_mode is Direct ==> refreshed(s) == s,
{
    if let ModeView::Control(control) = s.input_mode {
        law_question_asks_for_what_is_read(next_generation(control));
    }
}

/// A command is given to tmux whole, and the layout is asked for after it; a terminal that takes no
/// input is given nothing.
pub proof fn law_commands_are_given_whole(s: SessionView, text: Text)
    ensures
        s.input_open ==> commanded(s, text) == refreshed(given(s, encode_utf8(text))),
        !s.input_open ==> commanded(s, text) == s,
        s.input_open ==> send_result(s) is Ok,
        !s.input_open ==> send_result(s) == Err::<(), SessionError>(SessionError::InputClosed),
{
}

// ---------------------------------------------------------------------------
// Sizes
// ---------------------------------------------------------------------------

/// The command that tells tmux a size by the texts of two numbers.
pub open spec fn size_command(cols: Text, rows: Text) -> Seq<u8> {
    encode_utf8("refresh-client -C "@ + cols + ","@ + rows + "\n"@)
}

/// Whether `text` is read as the number `n`.
pub open spec fn spells_number(text: Text, n: u16) -> bool {
    unsigned_value(text, 0xffff) == Some(n as nat)
}

/// On a resize tmux is told the size that the session has from then on: the numbers in the command,
/// read back, are its columns and rows. The layout is asked for after that.
pub proof fn law_tmux_is_told_the_size(s: SessionView, cols: u16, rows: u16)
    requires
        s.input_mode is Control,
        s.input_open,
    ensures
        resized(s, cols, rows).cols == cols,
        resized(s, cols, rows).rows == rows,
        exists|c: Text, r: Text| #[trigger]
            spells_number(c, resized(s, cols, rows).cols) && #[trigger] spells_number(
                r,
                resized(s, cols, rows).rows,
            ) && resized(s, cols, rows) == refreshed(
                given(SessionView { cols, rows, ..s }, size_command(c, r)),
            ),
        resized(s, cols, rows).inputs.len() == s.inputs.len() + 2,
{
    let c = decimal(cols as nat);
    let r = decimal(rows as nat);
    law_decimal_roundtrip(cols as nat, 0xffff);
    law_decimal_roundtrip(rows as nat, 0xffff);
    assert(spells_number(c, cols));
    assert(spells_number(r, rows));
    assert(encode_utf8(client_size_text(cols, rows)) == size_command(c, r));
}

/// Outside control mode, and where tmux takes no input, a resize notes the size and nothing else.
pub proof fn law_size_is_noted(s: SessionView, cols: u16, rows: u16)
    requires
        s.input_mode is Direct || !s.input_open,
    ensures
        resized(s, cols, rows) == (SessionView { cols, rows, ..s }),
{
}

/// A terminal is given the size that is asked for, within 40 to 240 columns and 12 to 80 rows, and
/// where a pane is to be zoomed, tmux is told that first.
pub proof fn law_asked_size_is_granted(s: SessionView, cols: u16, rows: u16, pane: Text)
    ensures
        granted_size(s, cols, rows, None) is Ok,
        s.input_open ==> granted_size(s, cols, rows, Some(pane)) == granted_size(
            s,
            cols,
            rows,
            None,
        ),
        !s.input_open ==> granted_size(s, cols, rows, Some(pane)) is Err && granted_size(
            s,
            cols,
            rows,
            Some(pane),
        )->Err_0 == SessionError::InputClosed,
        granted_size(s, cols, rows, None)->Ok_0.cols == if cols < 40 {
            40
        } else if cols > 240 {
            240
        } else {
            cols as int
        },
        granted_size(s, cols, rows, None)->Ok_0.rows == if rows < 12 {
            12
        } else if rows > 80 {
            80
        } else {
            rows as int
        },
        zoomed(s, None) == s,
        !s.input_open ==> zoomed(s, Some(pane)) == s,
        s.input_open ==> zoomed(s, Some(pane)) == refreshed(
            given(s, encode_utf8("resize-pane -Z -t "@ + tmux_quoted(pane) + "\n"@)),
        ),
{
}

// ---------------------------------------------------------------------------
// Panes and windows
// ---------------------------------------------------------------------------

/// What a user asks for is done in the pane that is named, or where tmux is.
pub proof fn law_commands_name_their_pane(pane: Text)
    ensures
        ui_text(TmuxUiCommand::NewWindow, None) == "new-window\n"@,
        ui_text(TmuxUiCommand::NewWindow, Some(pane)) == "new-window\n"@,
        ui_text(TmuxUiCommand::SplitHorizontal, None) == "split-window -h\n"@,
        ui_text(TmuxUiCommand::SplitHorizontal, Some(pane)) == "split-window -h -t "@ + tmux_quoted(
            pane,
        ) + "\n"@,
        ui_text(TmuxUiCommand::SplitVertical, None) == "split-window -v\n"@,
        ui_text(TmuxUiCommand::SplitVertical, Some(pane)) == "split-window -v -t "@ + tmux_quoted(
            pane,
        ) + "\n"@,
        ui_text(TmuxUiCommand::KillPane, None) == "kill-pane\n"@,
        ui_text(TmuxUiCommand::KillPane, Some(pane)) == "kill-pane -t "@ + tmux_quoted(pane)
            + "\n"@,
        ui_text(TmuxUiCommand::ZoomPane, None) == "resize-pane -Z\n"@,
        ui_text(TmuxUiCommand::ZoomPane, Some(pane)) == zoom_text(pane),
        zoom_text(pane) == "resize-pane -Z -t "@ + tmux_quoted(pane) + "\n"@,
{
    reveal_strlit("\n");
    reveal_strlit(" -t ");
    reveal_strlit("split-window -h");
    reveal_strlit("split-window -h\n");
    reveal_strlit("split-window -h -t ");
    reveal_strlit("split-window -v");
    reveal_strlit("split-window -v\n");
    reveal_strlit("split-window -v -t ");
    reveal_strlit("kill-pane");
    reveal_strlit("kill-pane\n");
    reveal_strlit("kill-pane -t ");
    reveal_strlit("resize-pane -Z");
    reveal_strlit("resize-pane -Z\n");
    reveal_strlit("resize-pane -Z -t ");
    let none: Option<Text> = None;
    let some = Some(pane);
    assert("split-window -h"@ + " -t "@ =~= "split-window -h -t "@);
    assert("split-window -v"@ + " -t "@ =~= "split-window -v -t "@);
    assert("kill-pane"@ + " -t "@ =~= "kill-pane -t "@);
    assert("resize-pane -Z"@ + " -t "@ =~= "resize-pane -Z -t "@);
    assert(ui_text(TmuxUiCommand::SplitHorizontal, none) =~= "split-window -h\n"@);
    assert(ui_text(TmuxUiCommand::SplitVertical, none) =~= "split-window -v\n"@);
    assert(ui_text(TmuxUiCommand::KillPane, none) =~= "kill-pane\n"@);
    assert(ui_text(TmuxUiCommand::ZoomPane, none) =~= "resize-pane -Z\n"@);
    assert(ui_text(TmuxUiCommand::SplitHorizontal, some) =~= "split-window -h -t "@ + tmux_quoted(
        pane,
    ) + "\n"@);
    assert(ui_text(TmuxUiCommand::SplitVertical, some) =~= "split-window -v -t "@ + tmux_quoted(
        pane,
    ) + "\n"@);
    assert(ui_text(TmuxUiCommand::KillPane, some) =~= "kill-pane -t "@ + tmux_quoted(pane)
        + "\n"@);
    assert(ui_text(TmuxUiCommand::ZoomPane, some) =~= zoom_text(pane));
}

/// What is asked for, but at least 1 and at most 80.
pub open spec fn step_size(amount: u16) -> u16 {
    if amount < 1 {
        1
    } else if amount > 80 {
        80
    } else {
        amount
    }
}

/// A pane is resized to the side that is asked for, by the amount that is asked for, which is at
/// least 1 and at most 80; the number in the command, read back, is that amount.
pub proof fn law_panes_are_resized_as_asked(pane: Text, amount: u16)
    ensures
        exists|n: Text| #[trigger]
            spells_number(n, step_size(amount)) && resize_text(pane, TmuxResizeDirection::Left, amount) == "resize-pane -t "@
                + tmux_quoted(pane) + " -L "@ + n + "\n"@ && resize_text(
                pane,
                TmuxResizeDirection::Right,
                amount,
            ) == "resize-pane -t "@ + tmux_quoted(pane) + " -R "@ + n + "\n"@ && resize_text(
                pane,
                TmuxResizeDirection::Up,
                amount,
            ) == "resize-pane -t "@ + tmux_quoted(pane) + " -U "@ + n + "\n"@ && resize_text(
                pane,
                TmuxResizeDirection::Down,
                amount,
            ) == "resize-pane -t "@ + tmux_quoted(pane) + " -D "@ + n + "\n"@,
{
    let m = step_size(amount);
    let n = decimal(m as nat);
    law_decimal_roundtrip(m as nat, 0xffff);
    assert(spells_number(n, m));
    reveal_strlit(" ");
    reveal_strlit("-L");
    reveal_strlit("-R");
    reveal_strlit("-U");
    reveal_strlit("-D");
    reveal_strlit(" -L ");
    reveal_strlit(" -R ");
    reveal_strlit(" -U ");
    reveal_strlit(" -D ");
    assert(" "@ + "-L"@ + " "@ =~= " -L "@);
    assert(" "@ + "-R"@ + " "@ =~= " -R "@);
    assert(" "@ + "-U"@ + " "@ =~= " -U "@);
    assert(" "@ + "-D"@ + " "@ =~= " -D "@);
    let head = "resize-pane -t "@ + tmux_quoted(pane);
    assert(resize_text(pane, TmuxResizeDirection::Left, amount) =~= head + " -L "@ + n + "\n"@);
    assert(resize_text(pane, TmuxResizeDirection::Right, amount) =~= head + " -R "@ + n + "\n"@);
    assert(resize_text(pane, TmuxResizeDirection::Up, amount) =~= head + " -U "@ + n + "\n"@);
    assert(resize_text(pane, TmuxResizeDirection::Down, amount) =~= head + " -D "@ + n + "\n"@);
}

/// A window is given the name that is asked for, without the white space around it; a name of white
/// space only is none, and nothing happens.
pub proof fn law_windows_are_renamed_as_asked(s: SessionView, window: Text, name: Text)
    ensures
        trimmed(name).len() == 0 ==> renamed(s, window, name) == s && rename_result(s, name) is Ok,
        trimmed(name).len() > 0 && s.input_open ==> renamed(s, window, name) == refreshed(
            given(
                s,
                encode_utf8(
                    "rename-window -t "@ + tmux_quoted(window) + " "@ + tmux_quoted(trimmed(name))
                        + "\n"@,
                ),
            ),
        ) && rename_result(s, name) is Ok,
        trimmed(name).len() > 0 && !s.input_open ==> renamed(s, window, name) == s && rename_result(
            s,
            name,
        ) == Err::<(), SessionError>(SessionError::InputClosed),
{
}

/// The contents of each pane are asked for by one command, in their order, with 5000 lines of
/// history.
pub proof fn law_contents_are_asked_for_in_order(panes: Seq<Text>, pane: Text)
    ensures
        capture_text(seq![]) == ""@,
        capture_text(panes.push(pane)) == capture_text(panes) + ("capture-pane -e -p -t "@
            + tmux_quoted(pane) + " -S -5000\n"@),
{
    reveal_strlit("");
    assert(capture_text(seq![]) =~= ""@);
    assert(panes.push(pane).drop_last() =~= panes);
    assert(decimal(5000) == seq!['5', '0', '0', '0']) by {
        reveal_with_fuel(decimal, 5);
        assert(decimal(5) =~= seq!['5']);
        assert(decimal(50) =~= seq!['5', '0']);
        assert(decimal(500) =~= seq!['5', '0', '0']);
        assert(decimal(5000) =~= seq!['5', '0', '0', '0']);
    }
    reveal_strlit(" -S -");
    reveal_strlit("\n");
    reveal_strlit(" -S -5000\n");
    assert(" -S -"@ + decimal(5000) + "\n"@ =~= " -S -5000\n"@);
    assert(capture_text(panes.push(pane)) =~= capture_text(panes) + ("capture-pane -e -p -t "@
        + tmux_quoted(pane) + " -S -5000\n"@));
}

/// The contents of a pane are asked for exactly where its program is worth capturing.
pub proof fn law_panes_to_ask_for(panes: Seq<PaneView>, pane: PaneView)
    ensures
        captured_panes(seq![]) == Seq::<Text>::empty(),
        captured_panes(panes.push(pane)) == if captures(pane.command) {
            captured_panes(panes).push(pane.id)
        } else {
            captured_panes(panes)
        },
{
    assert(panes.push(pane).drop_last() =~= panes);
}

/// When contents are asked for, the panes are queued in the order of the commands, so that each
/// answer is filed under the pane that it is about.
pub proof fn law_questions_and_answers_match(
    s: SessionView,
    control: ControlView,
    panes: Seq<PaneView>,
)
    requires
        s.input_mode == ModeView::Control(control),
        s.input_open,
    ensures
        ({
            let ids = captured_panes(panes);
            let after = captures_asked(s, panes);
            &&& ids.len() == 0 ==> after == s
            &&& ids.len() > 0 ==> after == given(
                SessionView {
                    input_mode: ModeView::Control(
                        ControlView { queue: control.queue + ids, ..control },
                    ),
                    ..s
                },
                encode_utf8(capture_text(ids)),
            )
        }),
{
}

// ---------------------------------------------------------------------------
// Notes
// ---------------------------------------------------------------------------

/// A note about a pane that is shown is told to the viewers with the new layout; of a pane that is
/// not shown nothing is told. Nothing but notes changes.
pub proof fn law_notes_are_told(s: SessionView, control: ControlView, pane: Text, note: Text)
    requires
        s.input_mode == ModeView::Control(control),
    ensures
        ({
            let after = annotated(s, pane, note);
            let now = noted(control, pane, note);
            &&& after.input_mode == ModeView::Control(now)
            &&& shows_pane(control.windows, pane) ==> after.events == s.events.push(
                EventView::TmuxState(
                    SnapshotView { active_pane: now.active_pane, windows: now.windows },
                ),
            )
            &&& !shows_pane(control.windows, pane) ==> after.events == s.events
            &&& after == (SessionView {
                input_mode: after.input_mode,
                events: after.events,
                ..s
            })
        }),
{
}

/// Outside control mode there is nothing to note down.
pub proof fn law_no_notes_without_panes(s: SessionView, pane: Text, note: Text)
    requires
        s.input_mode is Direct,
    ensures
        annotated(s, pane, note) == s,
{
}

// ---------------------------------------------------------------------------
// Transfers and the end
// ---------------------------------------------------------------------------

/// A download that is asked for is awaited, and the terminal is given the command for it, typed into
/// the pane; nothing else changes.
pub proof fn law_download_is_awaited_and_asked_for(
    s: SessionView,
    id: Text,
    path: Text,
    pane: Option<Text>,
)
    requires
        valid_transfer_id(id),
        s.input_open,
    ensures
        ({
            let after = download_asked(s, id, path, pane);
            &&& after.transfers.expected == s.transfers.expected.insert(id)
            &&& after.transfers.streams == s.transfers.streams
            &&& after.inputs == s.inputs.push(
                InputView::User { data: encode_utf8(download_text(id, path)), pane },
            )
            &&& after == (SessionView { transfers: after.transfers, inputs: after.inputs, ..s })
            &&& transfer_result(s, id) is Ok
        }),
{
}

/// A piece of an upload that is not base64 text is refused, and the terminal is given nothing.
pub proof fn law_bad_pieces_are_refused(
    s: SessionView,
    data: Text,
    tmp_path: Text,
    pane: Option<Text>,
)
    ensures
        !is_base64(compacted(data)) ==> upload_continued(s, data, tmp_path, pane) == s
            && crate::requests::chunk_result(s, data) == Err::<(), SessionError>(
            SessionError::InvalidUploadChunk,
        ),
        is_base64(compacted(data)) && s.input_open ==> upload_continued(s, data, tmp_path, pane)
            == (SessionView {
            inputs: s.inputs.push(
                InputView::FileTransfer {
                    data: encode_utf8(upload_chunk_text(data, tmp_path)),
                    pane,
                },
            ),
            ..s
        }) && crate::requests::chunk_result(s, data) is Ok,
{
}

/// The commands of a transfer are given to one pane, one by one, in their order.
pub proof fn law_transfer_commands_go_to_one_pane(
    commands: Seq<Text>,
    pane: Option<Text>,
    i: int,
)
    requires
        0 <= i < commands.len(),
    ensures
        transfer_inputs(commands, pane).len() == commands.len(),
        transfer_inputs(commands, pane)[i] == (InputView::FileTransfer {
            data: encode_utf8(commands[i]),
            pane,
        }),
{
}

/// When the process has ended, the viewers are shown that it has and what to do.
pub proof fn law_end_is_shown(s: SessionView)
    requires
        nothing_awaited(s, DIRECT_STREAM_ID@),
        s.alive,
    ensures
        !exited(s).alive,
        exited(s).events == s.events.push(
            EventView::Output(
                encode_utf8("\r\n[terminal process exited; reopen the session to reconnect]\r\n"@),
            ),
        ),
{
    let ended = SessionView { alive: false, ..s };
    law_output_is_told_and_held(
        ended,
        encode_utf8("\r\n[terminal process exited; reopen the session to reconnect]\r\n"@),
    );
}

/// The end of the process is told once: nothing happens when it has been told.
pub proof fn law_end_is_shown_once(s: SessionView)
    requires
        !s.alive,
    ensures
        exited(s) == s,
{
}

/// Asking for the layout or for contents fails exactly where there is something to ask and the
/// terminal takes no input any more.
pub proof fn law_questions_fail_on_closed_input_only(s: SessionView, panes: Seq<PaneView>)
    ensures
        refresh_result(s) is Err <==> s.input_mode is Control && !s.input_open,
        refresh_result(s) is Err ==> refresh_result(s)->Err_0 == SessionError::InputClosed,
        capture_result(s, panes) is Err <==> captured_panes(panes).len() > 0 && !s.input_open,
        capture_result(s, panes) is Err ==> capture_result(s, panes)->Err_0
            == SessionError::InputClosed,
{
}

/// The contents of a pane that come from elsewhere are held as the ones that tmux tells, in control
/// mode; without a layout they come to nothing.
pub proof fn law_given_contents_are_held(
    s: SessionView,
    control: ControlView,
    pane: Text,
    contents: Seq<u8>,
)
    ensures
        s.input_mode is Direct ==> contents_known(s, pane, contents) == s,
        s.input_mode == ModeView::Control(control) && contents.len() <= 33554432
            ==> contents_known(s, pane, contents) == (SessionView {
            input_mode: ModeView::Control(
                ControlView { replays: control.replays.insert(pane, seq![contents]), ..control },
            ),
            ..s
        }),
{
    law_contents_replace_what_was_held(control, pane, contents, pane);
    let after = with_contents(control, pane, contents);
    if contents.len() <= 33554432 {
        assert(after.replays =~= control.replays.insert(pane, seq![contents])) by {
            assert forall|k: Text| #[trigger] control.replays.dom().contains(k) && k != pane implies
                after.replays[k] == control.replays[k] by {
                law_contents_replace_what_was_held(control, pane, contents, k);
            }
        }
    }
}

} // verus!
