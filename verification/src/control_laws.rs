//! What the control state promises: the layout that is shown is the one that tmux told.
use vstd::prelude::*;
use vstd::seq_lib::lemma_multiset_commutative;
use crate::control::{
    asked, bare_window, completes, fresh_control, generation_field, joined_by, joined_by_all,
    next_generation, note_of, noted, number_field, panes_placed, settled, state_text, told_panes,
    told_windows, with_placeholder, with_reply, ControlView, StateLineView,
};
use crate::order::{by_place, law_sorting_sorts, places_ascend, put_in_place, Placed};
use crate::panes::{
    active_index, all_panes, chosen_pane, lemma_active_index, lists_pane, shows_pane, PaneView,
    WindowView,
};
use crate::table::{in_key_order, in_order, lemma_ascending_distinct, lemma_in_order_lists};
use crate::text::{
    decimal, is_digit, law_decimal_roundtrip, lemma_decimal_digits, lemma_position_at,
    lemma_trimmed_id, split_fields, starts_with, strip_prefix, trimmed, Text,
};

verus! {

// ---------------------------------------------------------------------------
// Answers
// ---------------------------------------------------------------------------

/// Whether what has come of an answer is filed under its own ids, and windows come without panes.
pub open spec fn well_kept(control: ControlView) -> bool {
    &&& control.pending_windows.dom().finite()
    &&& control.pending_panes.dom().finite()
    &&& forall|id: Text| #[trigger]
        control.pending_windows.dom().contains(id) ==> control.pending_windows[id].id == id
            && control.pending_windows[id].panes.len() == 0
    &&& forall|id: Text| #[trigger]
        control.pending_panes.dom().contains(id) ==> control.pending_panes[id].id == id
}

/// An answer is filed well from the start, and stays so whatever lines come.
pub proof fn law_answers_are_filed_well(
    control: ControlView,
    notes: Map<Text, Text>,
    line: Text,
)
    requires
        well_kept(control),
    ensures
        well_kept(fresh_control(notes)),
        well_kept(asked(control)),
        state_text(line) is Some ==> well_kept(with_reply(control, state_text(line)->0)),
{
}

/// A line that answers another question than the last one changes nothing.
pub proof fn law_stale_answers_change_nothing(control: ControlView, reply: StateLineView)
    requires
        match reply {
            StateLineView::Window { generation, .. } => generation != control.pending_generation,
            StateLineView::Pane { generation, .. } => generation != control.pending_generation,
            StateLineView::Done { generation } => generation != control.pending_generation,
            StateLineView::Short => true,
        },
    ensures
        with_reply(control, reply) == control,
        !completes(control, reply),
{
}

/// The end of the answer to the last question settles the layout; after that, nothing but a new
/// question does.
pub proof fn law_last_question_is_answered_once(control: ControlView, generation: u64)
    ensures
        completes(
            asked(control),
            StateLineView::Done { generation: Some(next_generation(control)) },
        ),
        generation != next_generation(control) ==> !completes(
            asked(control),
            StateLineView::Done { generation: Some(generation) },
        ),
        !completes(settled(control), StateLineView::Done { generation: Some(generation) }),
{
}

// ---------------------------------------------------------------------------
// Windows and their panes
// ---------------------------------------------------------------------------

/// The panes that belong to the window `window`, in their order.
pub open spec fn panes_of(panes: Seq<PaneView>, window: Text) -> Seq<PaneView>
    decreases panes.len(),
{
    if panes.len() == 0 {
        seq![]
    } else if panes[0].window_id == window {
        seq![panes[0]] + panes_of(panes.skip(1), window)
    } else {
        panes_of(panes.skip(1), window)
    }
}

/// The window `id` before panes are put into it.
pub open spec fn window_base(windows: Map<Text, WindowView>, id: Text) -> WindowView {
    if windows.dom().contains(id) {
        windows[id]
    } else {
        bare_window(id)
    }
}

/// Whether a pane belongs to the window `window`.
pub open spec fn has_pane_of(panes: Seq<PaneView>, window: Text) -> bool {
    exists|i: int| 0 <= i < panes.len() && (#[trigger] panes[i]).window_id == window
}

pub(crate) proof fn lemma_joined_by_all(windows: Map<Text, WindowView>, panes: Seq<PaneView>, id: Text)
    ensures
        windows.dom().finite() ==> joined_by_all(windows, panes).dom().finite(),
        joined_by_all(windows, panes).dom().contains(id) <==> windows.dom().contains(id)
            || has_pane_of(panes, id),
        joined_by_all(windows, panes).dom().contains(id) ==> joined_by_all(windows, panes)[id] == (
        WindowView {
            panes: window_base(windows, id).panes + panes_of(panes, id),
            ..window_base(windows, id)
        }),
    decreases panes.len(),
{
    if panes.len() == 0 {
        assert(window_base(windows, id).panes + panes_of(panes, id) =~= window_base(
            windows,
            id,
        ).panes);
    } else {
        let pane = panes[0];
        let rest = panes.skip(1);
        let next = joined_by(windows, pane);
        lemma_joined_by_all(next, rest, id);
        if has_pane_of(rest, id) {
            let i = choose|i: int| 0 <= i < rest.len() && (#[trigger] rest[i]).window_id == id;
            assert(panes[i + 1].window_id == id);
        }
        if has_pane_of(panes, id) && pane.window_id != id {
            let i = choose|i: int| 0 <= i < panes.len() && (#[trigger] panes[i]).window_id == id;
            assert(rest[i - 1].window_id == id);
        }
        if pane.window_id == id {
            assert(panes[0].window_id == id);
            assert(window_base(next, id).panes + panes_of(rest, id) =~= window_base(
                windows,
                id,
            ).panes + panes_of(panes, id));
        }
    }
}

proof fn lemma_panes_of(panes: Seq<PaneView>, window: Text, x: PaneView)
    ensures
        panes_of(panes, window).to_multiset().count(x) == if x.window_id == window {
            panes.to_multiset().count(x)
        } else {
            0
        },
    decreases panes.len(),
{
    broadcast use vstd::seq_lib::group_to_multiset_ensures;

    if panes.len() > 0 {
        let rest = panes.skip(1);
        lemma_panes_of(rest, window, x);
        assert(panes =~= seq![panes[0]] + rest);
        lemma_multiset_commutative(seq![panes[0]], rest);
        lemma_multiset_commutative(seq![panes[0]], panes_of(rest, window));
        lemma_single(panes[0], x);
    }
}

proof fn lemma_single<A>(a: A, x: A)
    ensures
        seq![a].to_multiset().count(x) == if a == x {
            1nat
        } else {
            0nat
        },
{
    broadcast use vstd::seq_lib::group_to_multiset_ensures;

    let none: Seq<A> = seq![];
    assert(none.push(a) =~= seq![a]);
    assert(none.to_multiset().count(x) == 0) by {
        if none.to_multiset().count(x) > 0 {
            assert(none.contains(x));
        }
    }
}

proof fn lemma_none_in(windows: Seq<WindowView>, x: PaneView)
    requires
        forall|j: int|
            0 <= j < windows.len() ==> (#[trigger] windows[j]).panes.to_multiset().count(x) == 0,
    ensures
        all_panes(windows).to_multiset().count(x) == 0,
    decreases windows.len(),
{
    broadcast use vstd::seq_lib::group_to_multiset_ensures;

    if windows.len() == 0 {
        if all_panes(windows).to_multiset().count(x) > 0 {
            assert(all_panes(windows).contains(x));
        }
    } else {
        assert forall|j: int| 0 <= j < windows.skip(1).len() implies (
        #[trigger] windows.skip(1)[j]).panes.to_multiset().count(x) == 0 by {
            assert(windows.skip(1)[j] == windows[j + 1]);
        }
        lemma_none_in(windows.skip(1), x);
        lemma_multiset_commutative(windows[0].panes, all_panes(windows.skip(1)));
        assert(windows[0].panes.to_multiset().count(x) == 0);
    }
}

proof fn lemma_only_in(windows: Seq<WindowView>, x: PaneView, at: int)
    requires
        0 <= at < windows.len(),
        forall|j: int|
            0 <= j < windows.len() && j != at ==> (
            #[trigger] windows[j]).panes.to_multiset().count(x) == 0,
    ensures
        all_panes(windows).to_multiset().count(x) == windows[at].panes.to_multiset().count(x),
    decreases windows.len(),
{
    broadcast use vstd::seq_lib::group_to_multiset_ensures;

    let rest = windows.skip(1);
    lemma_multiset_commutative(windows[0].panes, all_panes(rest));
    assert forall|j: int| 0 <= j < rest.len() && j != at - 1 implies (
    #[trigger] rest[j]).panes.to_multiset().count(x) == 0 by {
        assert(rest[j] == windows[j + 1]);
    }
    if at == 0 {
        lemma_none_in(rest, x);
    } else {
        lemma_only_in(rest, x, at - 1);
        assert(rest[at - 1] == windows[at]);
        assert(windows[0].panes.to_multiset().count(x) == 0);
    }
}

pub(crate) proof fn lemma_told_windows(control: ControlView)
    requires
        well_kept(control),
    ensures
        all_panes(told_windows(control)).to_multiset() == in_key_order(
            control.pending_panes,
        ).to_multiset(),
        forall|i: int|
            0 <= i < told_windows(control).len() ==> (#[trigger] told_windows(control)[i]).panes
                == panes_of(in_key_order(control.pending_panes), told_windows(control)[i].id),
{
    broadcast use vstd::seq_lib::group_to_multiset_ensures;

    let panes = in_key_order(control.pending_panes);
    let map = joined_by_all(control.pending_windows, panes);
    lemma_joined_by_all(control.pending_windows, panes, seq![]);
    lemma_in_order_lists(map.dom());
    let keys = in_order(map.dom());
    let told = told_windows(control);
    assert forall|i: int| 0 <= i < told.len() implies (#[trigger] told[i]).panes == panes_of(
        panes,
        keys[i],
    ) && told[i].id == keys[i] by {
        assert(keys.to_set().contains(keys[i]));
        lemma_joined_by_all(control.pending_windows, panes, keys[i]);
        assert(window_base(control.pending_windows, keys[i]).panes + panes_of(panes, keys[i])
            =~= panes_of(panes, keys[i]));
    }
    assert forall|x: PaneView| #[trigger]
        all_panes(told).to_multiset().count(x) == panes.to_multiset().count(x) by {
        lemma_joined_by_all(control.pending_windows, panes, x.window_id);
        assert forall|j: int| 0 <= j < told.len() && keys[j] != x.window_id implies (
        #[trigger] told[j]).panes.to_multiset().count(x) == 0 by {
            lemma_panes_of(panes, keys[j], x);
        }
        if map.dom().contains(x.window_id) {
            assert(keys.to_set().contains(x.window_id));
            let at = choose|at: int| 0 <= at < keys.len() && keys[at] == x.window_id;
            assert forall|j: int| 0 <= j < told.len() && j != at implies (
            #[trigger] told[j]).panes.to_multiset().count(x) == 0 by {
                if keys[j] == keys[at] {
                    lemma_ascending_distinct(keys, j, at);
                }
            }
            lemma_only_in(told, x, at);
            lemma_panes_of(panes, keys[at], x);
        } else {
            assert forall|j: int| 0 <= j < told.len() implies (
            #[trigger] told[j]).panes.to_multiset().count(x) == 0 by {
                assert(keys.to_set().contains(keys[j]));
            }
            lemma_none_in(told, x);
            if panes.to_multiset().count(x) > 0 {
                assert(panes.contains(x));
                let i = choose|i: int| 0 <= i < panes.len() && panes[i] == x;
                assert(panes[i].window_id == x.window_id);
            }
        }
    }
    assert(all_panes(told).to_multiset() =~= panes.to_multiset());
}

proof fn lemma_all_panes_push(windows: Seq<WindowView>, window: WindowView)
    ensures
        all_panes(windows.push(window)) == all_panes(windows) + window.panes,
    decreases windows.len(),
{
    let all = windows.push(window);
    if windows.len() == 0 {
        assert(all.skip(1) =~= Seq::<WindowView>::empty());
        assert(all_panes(all.skip(1)) =~= Seq::<PaneView>::empty());
        assert(all_panes(all) =~= all_panes(windows) + window.panes);
    } else {
        lemma_all_panes_push(windows.skip(1), window);
        assert(all.skip(1) =~= windows.skip(1).push(window));
        assert(all[0] == windows[0]);
        assert(all_panes(all) =~= all_panes(windows) + window.panes);
    }
}

proof fn lemma_panes_put(windows: Seq<WindowView>, window: WindowView)
    ensures
        all_panes(put_in_place(windows, window)).to_multiset() == all_panes(
            windows,
        ).to_multiset().add(window.panes.to_multiset()),
    decreases windows.len(),
{
    if windows.len() == 0 || windows.last().place() <= window.place() {
        lemma_all_panes_push(windows, window);
        lemma_multiset_commutative(all_panes(windows), window.panes);
    } else {
        let before = windows.drop_last();
        let last = windows.last();
        let inner = put_in_place(before, window);
        lemma_panes_put(before, window);
        lemma_all_panes_push(inner, last);
        lemma_all_panes_push(before, last);
        assert(before.push(last) =~= windows);
        lemma_multiset_commutative(all_panes(inner), last.panes);
        lemma_multiset_commutative(all_panes(before), last.panes);
        assert(all_panes(put_in_place(windows, window)).to_multiset() =~= all_panes(
            windows,
        ).to_multiset().add(window.panes.to_multiset()));
    }
}

proof fn lemma_panes_sorted(windows: Seq<WindowView>)
    ensures
        all_panes(by_place(windows)).to_multiset() == all_panes(windows).to_multiset(),
    decreases windows.len(),
{
    if windows.len() > 0 {
        let before = windows.drop_last();
        lemma_panes_sorted(before);
        lemma_panes_put(by_place(before), windows.last());
        lemma_all_panes_push(before, windows.last());
        assert(before.push(windows.last()) =~= windows);
        lemma_multiset_commutative(all_panes(before), windows.last().panes);
    }
}

proof fn lemma_panes_placed(windows: Seq<WindowView>, placed: Seq<WindowView>)
    requires
        placed.len() == windows.len(),
        forall|i: int|
            0 <= i < windows.len() ==> #[trigger] placed[i] == panes_placed(windows[i]),
    ensures
        all_panes(placed).to_multiset() == all_panes(windows).to_multiset(),
    decreases windows.len(),
{
    if windows.len() > 0 {
        let before = windows.drop_last();
        let last = windows.last();
        lemma_panes_placed(before, placed.drop_last());
        lemma_all_panes_push(before, last);
        lemma_all_panes_push(placed.drop_last(), panes_placed(last));
        assert(before.push(last) =~= windows);
        assert(placed.drop_last().push(panes_placed(last)) =~= placed);
        law_sorting_sorts(last.panes);
        lemma_multiset_commutative(all_panes(before), last.panes);
        lemma_multiset_commutative(all_panes(placed.drop_last()), panes_placed(last).panes);
    }
}

/// Once an answer is complete, the layout shows the panes that tmux told, each once, and no others.
pub proof fn law_layout_shows_what_was_told(control: ControlView)
    requires
        well_kept(control),
    ensures
        all_panes(settled(control).windows).to_multiset() == in_key_order(
            control.pending_panes,
        ).to_multiset(),
{
    let told = told_windows(control);
    let placed = Seq::new(told.len(), |i: int| panes_placed(told[i]));
    lemma_told_windows(control);
    lemma_panes_placed(told, placed);
    lemma_panes_sorted(placed);
}

pub(crate) proof fn lemma_pending_pane(control: ControlView, pane: PaneView)
    requires
        well_kept(control),
    ensures
        in_key_order(control.pending_panes).contains(pane) <==> control.pending_panes.dom().contains(
            pane.id,
        ) && control.pending_panes[pane.id] == pane,
{
    lemma_in_order_lists(control.pending_panes.dom());
    let keys = in_order(control.pending_panes.dom());
    let panes = in_key_order(control.pending_panes);
    if panes.contains(pane) {
        let i = choose|i: int| 0 <= i < panes.len() && panes[i] == pane;
        assert(keys.to_set().contains(keys[i]));
    }
    if control.pending_panes.dom().contains(pane.id) && control.pending_panes[pane.id] == pane {
        assert(keys.to_set().contains(pane.id));
        let i = choose|i: int| 0 <= i < keys.len() && keys[i] == pane.id;
        assert(panes[i] == pane);
    }
}

pub(crate) proof fn lemma_told_panes(control: ControlView)
    requires
        well_kept(control),
    ensures
        told_panes(control) == control.pending_panes.dom(),
{
    lemma_in_order_lists(control.pending_panes.dom());
    let keys = in_order(control.pending_panes.dom());
    let panes = in_key_order(control.pending_panes);
    assert forall|id: Text| #[trigger]
        told_panes(control).contains(id) == control.pending_panes.dom().contains(id) by {
        if lists_pane(panes, id) {
            let i = choose|i: int| 0 <= i < panes.len() && #[trigger] panes[i].id == id;
            assert(keys.to_set().contains(keys[i]));
        }
        if control.pending_panes.dom().contains(id) {
            assert(keys.to_set().contains(id));
            let i = choose|i: int| 0 <= i < keys.len() && keys[i] == id;
            assert(panes[i].id == id);
        }
    }
    assert(told_panes(control) =~= control.pending_panes.dom());
}

proof fn lemma_in_all_panes(windows: Seq<WindowView>, i: int, j: int)
    requires
        0 <= i < windows.len(),
        0 <= j < windows[i].panes.len(),
    ensures
        all_panes(windows).contains(windows[i].panes[j]),
    decreases windows.len(),
{
    let rest = all_panes(windows.skip(1));
    let all = all_panes(windows);
    if i == 0 {
        assert(all[j] == windows[i].panes[j]);
    } else {
        lemma_in_all_panes(windows.skip(1), i - 1, j);
        assert(windows.skip(1)[i - 1] == windows[i]);
        let k = choose|k: int| 0 <= k < rest.len() && rest[k] == windows[i].panes[j];
        assert(all[windows[0].panes.len() + k] == windows[i].panes[j]);
    }
}

proof fn lemma_from_all_panes(windows: Seq<WindowView>, k: int) -> (res: (int, int))
    requires
        0 <= k < all_panes(windows).len(),
    ensures
        0 <= res.0 < windows.len(),
        0 <= res.1 < windows[res.0].panes.len(),
        windows[res.0].panes[res.1] == all_panes(windows)[k],
    decreases windows.len(),
{
    let n = windows[0].panes.len() as int;
    if k < n {
        (0, k)
    } else {
        let inner = lemma_from_all_panes(windows.skip(1), k - n);
        assert(windows.skip(1)[inner.0] == windows[inner.0 + 1]);
        (inner.0 + 1, inner.1)
    }
}

/// Once an answer is complete, a pane is shown if and only if tmux told it.
pub proof fn law_told_panes_are_shown(control: ControlView, id: Text)
    requires
        well_kept(control),
    ensures
        shows_pane(settled(control).windows, id) <==> control.pending_panes.dom().contains(id),
{
    broadcast use vstd::seq_lib::group_to_multiset_ensures;

    law_layout_shows_what_was_told(control);
    let windows = settled(control).windows;
    let panes = in_key_order(control.pending_panes);
    let all = all_panes(windows);
    if shows_pane(windows, id) {
        let i = choose|i: int|
            0 <= i < windows.len() && lists_pane(#[trigger] windows[i].panes, id);
        let j = choose|j: int|
            0 <= j < windows[i].panes.len() && #[trigger] windows[i].panes[j].id == id;
        lemma_in_all_panes(windows, i, j);
        let pane = windows[i].panes[j];
        assert(all.to_multiset().count(pane) > 0);
        assert(panes.contains(pane));
        lemma_pending_pane(control, pane);
    }
    if control.pending_panes.dom().contains(id) {
        let pane = control.pending_panes[id];
        lemma_pending_pane(control, pane);
        assert(panes.to_multiset().count(pane) > 0);
        assert(all.contains(pane));
        let k = choose|k: int| 0 <= k < all.len() && all[k] == pane;
        let at = lemma_from_all_panes(windows, k);
        assert(windows[at.0].panes[at.1].id == id);
        assert(lists_pane(windows[at.0].panes, id));
    }
}

/// Once an answer is complete, nothing is remembered of panes that are gone: no note and no output
/// is held of them, and none of them has the focus. What was noted down about the others stays.
pub proof fn law_gone_panes_are_forgotten(control: ControlView, id: Text)
    requires
        well_kept(control),
        !control.pending_panes.dom().contains(id),
    ensures
        !settled(control).notes.dom().contains(id),
        !settled(control).replays.dom().contains(id),
        settled(control).active_pane != Some(id),
        forall|other: Text| #[trigger]
            control.pending_panes.dom().contains(other) ==> note_of(settled(control).notes, other)
                == note_of(control.notes, other),
{
    broadcast use vstd::seq_lib::group_to_multiset_ensures;

    lemma_told_panes(control);
    lemma_told_windows(control);
    let windows = told_windows(control);
    let all = all_panes(windows);
    let panes = in_key_order(control.pending_panes);
    lemma_active_index(all);
    if chosen_pane(windows) == Some(id) {
        let k = match active_index(all) {
            Some(i) => i,
            None => 0,
        };
        assert(all[k].id == id);
        assert(all.contains(all[k]));
        assert(all.to_multiset().count(all[k]) > 0);
        assert(panes.contains(all[k]));
        lemma_pending_pane(control, all[k]);
    }
}

/// Once an answer is complete, some pane has the focus unless there is none.
pub proof fn law_some_pane_has_the_focus(control: ControlView)
    requires
        well_kept(control),
    ensures
        settled(control).active_pane is Some <==> control.pending_panes.dom().len() > 0,
{
    broadcast use vstd::seq_lib::group_to_multiset_ensures;

    lemma_told_panes(control);
    lemma_told_windows(control);
    let all = all_panes(told_windows(control));
    let panes = in_key_order(control.pending_panes);
    lemma_in_order_lists(control.pending_panes.dom());
    let keys = in_order(control.pending_panes.dom());
    assert(all.len() == panes.len()) by {
        assert(all.to_multiset().len() == panes.to_multiset().len());
    }
    if keys.len() > 0 {
        assert(keys.to_set().contains(keys[0]));
    } else {
        assert(keys.to_set() =~= Set::<Text>::empty());
    }
}

/// The layout is in order: windows by their places, and the panes of each window by theirs.
pub proof fn law_layout_is_in_order(control: ControlView)
    ensures
        places_ascend(settled(control).windows),
        forall|i: int|
            0 <= i < settled(control).windows.len() ==> places_ascend(
                (#[trigger] settled(control).windows[i]).panes,
            ),
{
    broadcast use vstd::seq_lib::group_to_multiset_ensures;

    let told = told_windows(control);
    let placed = Seq::new(told.len(), |i: int| panes_placed(told[i]));
    let windows = settled(control).windows;
    law_sorting_sorts(placed);
    assert forall|i: int| 0 <= i < windows.len() implies places_ascend(
        (#[trigger] windows[i]).panes,
    ) by {
        assert(windows.contains(windows[i]));
        assert(windows.to_multiset().count(windows[i]) > 0);
        assert(placed.contains(windows[i]));
        let k = choose|k: int| 0 <= k < placed.len() && placed[k] == windows[i];
        law_sorting_sorts(told[k].panes);
    }
}

proof fn lemma_panes_of_window(panes: Seq<PaneView>, window: Text, j: int)
    requires
        0 <= j < panes_of(panes, window).len(),
    ensures
        panes_of(panes, window)[j].window_id == window,
    decreases panes.len(),
{
    let rest = panes.skip(1);
    if panes[0].window_id == window {
        if j > 0 {
            lemma_panes_of_window(rest, window, j - 1);
        }
    } else {
        lemma_panes_of_window(rest, window, j);
    }
}

/// Once an answer is complete, each pane stands in the window that tmux told for it.
pub proof fn law_panes_stand_in_their_windows(control: ControlView, i: int, j: int)
    requires
        well_kept(control),
        0 <= i < settled(control).windows.len(),
        0 <= j < settled(control).windows[i].panes.len(),
    ensures
        settled(control).windows[i].panes[j].window_id == settled(control).windows[i].id,
{
    broadcast use vstd::seq_lib::group_to_multiset_ensures;

    lemma_told_windows(control);
    let told = told_windows(control);
    let placed = Seq::new(told.len(), |i: int| panes_placed(told[i]));
    let windows = settled(control).windows;
    law_sorting_sorts(placed);
    assert(windows.contains(windows[i]));
    assert(windows.to_multiset().count(windows[i]) > 0);
    assert(placed.contains(windows[i]));
    let k = choose|k: int| 0 <= k < placed.len() && placed[k] == windows[i];
    let panes = told[k].panes;
    let pane = windows[i].panes[j];
    law_sorting_sorts(panes);
    assert(by_place(panes).contains(pane));
    assert(by_place(panes).to_multiset().count(pane) > 0);
    assert(panes.contains(pane));
    let m = choose|m: int| 0 <= m < panes.len() && panes[m] == pane;
    lemma_panes_of_window(in_key_order(control.pending_panes), told[k].id, m);
}

// ---------------------------------------------------------------------------
// Notes
// ---------------------------------------------------------------------------

/// Whether each pane is shown with what was noted down about it.
pub open spec fn notes_are_shown(windows: Seq<WindowView>, notes: Map<Text, Text>) -> bool {
    forall|i: int, j: int|
        0 <= i < windows.len() && 0 <= j < windows[i].panes.len() ==> (
        #[trigger] windows[i].panes[j]).note == note_of(notes, windows[i].panes[j].id)
}

/// Whether each pane of an answer comes with what was noted down about it.
pub open spec fn notes_are_pending(control: ControlView) -> bool {
    forall|id: Text| #[trigger]
        control.pending_panes.dom().contains(id) ==> control.pending_panes[id].note == note_of(
            control.notes,
            id,
        )
}

/// The panes of an answer come with what was noted down about them, from the question to the last
/// line.
pub proof fn law_answers_carry_notes(control: ControlView, reply: StateLineView)
    ensures
        notes_are_pending(asked(control)),
        well_kept(control) && notes_are_pending(control) && !completes(control, reply)
            ==> notes_are_pending(with_reply(control, reply)),
{
}

/// An answer that carries the notes is shown with them.
pub proof fn law_settled_layout_shows_notes(control: ControlView)
    requires
        well_kept(control),
        notes_are_pending(control),
    ensures
        notes_are_shown(settled(control).windows, settled(control).notes),
{
    broadcast use vstd::seq_lib::group_to_multiset_ensures;

    law_layout_shows_what_was_told(control);
    lemma_told_panes(control);
    let windows = settled(control).windows;
    let all = all_panes(windows);
    let panes = in_key_order(control.pending_panes);
    assert forall|i: int, j: int|
        0 <= i < windows.len() && 0 <= j < windows[i].panes.len() implies (
    #[trigger] windows[i].panes[j]).note == note_of(
        settled(control).notes,
        windows[i].panes[j].id,
    ) by {
        let pane = windows[i].panes[j];
        lemma_in_all_panes(windows, i, j);
        assert(all.to_multiset().count(pane) > 0);
        assert(panes.contains(pane));
        lemma_pending_pane(control, pane);
    }
}

/// A note that is written down about a pane is shown with it at once, and those about other panes
/// stay.
pub proof fn law_new_note_is_shown(control: ControlView, id: Text, note: Text)
    requires
        notes_are_shown(control.windows, control.notes),
    ensures
        notes_are_shown(noted(control, id, note).windows, noted(control, id, note).notes),
        shows_pane(control.windows, id) && trimmed(note).len() > 0 ==> note_of(
            noted(control, id, note).notes,
            id,
        ) == Some(trimmed(note)),
        forall|other: Text|
            other != id ==> #[trigger] note_of(noted(control, id, note).notes, other) == note_of(
                control.notes,
                other,
            ),
{
    let after = noted(control, id, note);
    assert forall|i: int, j: int|
        0 <= i < after.windows.len() && 0 <= j < after.windows[i].panes.len() implies (
    #[trigger] after.windows[i].panes[j]).note == note_of(
        after.notes,
        after.windows[i].panes[j].id,
    ) by {
        let pane = control.windows[i].panes[j];
        if !shows_pane(control.windows, id) && pane.id == id {
            assert(lists_pane(control.windows[i].panes, id));
        }
    }
}

/// A pane that turns up by its output is shown with what was noted down about it.
pub proof fn law_new_pane_is_shown_with_its_note(
    windows: Seq<WindowView>,
    id: Text,
    notes: Map<Text, Text>,
)
    requires
        notes_are_shown(windows, notes),
    ensures
        notes_are_shown(with_placeholder(windows, id, notes), notes),
        shows_pane(with_placeholder(windows, id, notes), id),
{
    let after = with_placeholder(windows, id, notes);
    if !shows_pane(windows, id) {
        let n = after[0].panes.len() - 1;
        assert(after[0].panes[n].id == id);
        assert(lists_pane(after[0].panes, id));
        assert forall|i: int, j: int|
            0 <= i < after.len() && 0 <= j < after[i].panes.len() implies (
        #[trigger] after[i].panes[j]).note == note_of(notes, after[i].panes[j].id) by {
            if i > 0 || j < n {
                assert(after[i].panes[j] == windows[i].panes[j]);
            }
        }
    }
}

// ---------------------------------------------------------------------------
// Reading answers
// ---------------------------------------------------------------------------

/// Fields with a separator between each two.
pub open spec fn fields_text(fields: Seq<Text>, sep: char) -> Text
    decreases fields.len(),
{
    if fields.len() == 0 {
        seq![]
    } else if fields.len() == 1 {
        fields[0]
    } else {
        fields[0] + seq![sep] + fields_text(fields.skip(1), sep)
    }
}

proof fn lemma_fields_are_split(fields: Seq<Text>, sep: char)
    requires
        fields.len() > 0,
        forall|i: int| 0 <= i < fields.len() - 1 ==> !(#[trigger] fields[i]).contains(sep),
    ensures
        split_fields(fields_text(fields, sep), fields.len(), sep) == fields,
    decreases fields.len(),
{
    let text = fields_text(fields, sep);
    if fields.len() == 1 {
        assert(split_fields(text, 1, sep) =~= fields);
    } else {
        let rest = fields.skip(1);
        let first = fields[0];
        assert forall|i: int| 0 <= i < rest.len() - 1 implies !(#[trigger] rest[i]).contains(
            sep,
        ) by {
            assert(rest[i] == fields[i + 1]);
        }
        lemma_fields_are_split(rest, sep);
        assert forall|j: int| 0 <= j < first.len() implies text[j] != sep by {
            assert(first.contains(first[j]));
        }
        lemma_position_at(text, sep, first.len() as int);
        assert(text.take(first.len() as int) =~= first);
        assert(text.skip(first.len() as int + 1) =~= fields_text(rest, sep));
        assert(split_fields(text, fields.len(), sep) =~= fields);
    }
}

/// How tmux writes a flag.
pub open spec fn flag_text(flag: bool) -> Text {
    if flag {
        "1"@
    } else {
        "0"@
    }
}

/// The line with which tmux answers for a window.
pub open spec fn window_reply(
    generation: u64,
    id: Text,
    index: u16,
    name: Text,
    active: bool,
    zoomed: bool,
) -> Text {
    "WT_WINDOW\t"@ + fields_text(
        seq![
            decimal(generation as nat),
            id,
            decimal(index as nat),
            name,
            flag_text(active),
            flag_text(zoomed),
        ],
        '\t',
    )
}

/// The line with which tmux answers for a pane.
pub open spec fn pane_reply(
    generation: u64,
    window: Text,
    id: Text,
    index: u16,
    active: bool,
    command: Text,
    path: Text,
    left: u16,
    top: u16,
    width: u16,
    height: u16,
) -> Text {
    "WT_PANE\t"@ + fields_text(
        seq![
            decimal(generation as nat),
            window,
            id,
            decimal(index as nat),
            flag_text(active),
            command,
            path,
            decimal(left as nat),
            decimal(top as nat),
            decimal(width as nat),
            decimal(height as nat),
        ],
        '\t',
    )
}

/// The line with which tmux ends an answer.
pub open spec fn done_reply(generation: u64) -> Text {
    "WT_DONE\t"@ + decimal(generation as nat)
}

proof fn lemma_reply_prefixes(rest: Text)
    ensures
        strip_prefix("WT_WINDOW\t"@ + rest, "WT_WINDOW\t"@) == Some(rest),
        strip_prefix("WT_PANE\t"@ + rest, "WT_WINDOW\t"@) is None,
        strip_prefix("WT_PANE\t"@ + rest, "WT_PANE\t"@) == Some(rest),
        strip_prefix("WT_DONE\t"@ + rest, "WT_WINDOW\t"@) is None,
        strip_prefix("WT_DONE\t"@ + rest, "WT_PANE\t"@) is None,
        strip_prefix("WT_DONE\t"@ + rest, "WT_DONE\t"@) == Some(rest),
{
    reveal_strlit("WT_WINDOW\t");
    reveal_strlit("WT_PANE\t");
    reveal_strlit("WT_DONE\t");
    let window = "WT_WINDOW\t"@;
    let pane = "WT_PANE\t"@;
    let done = "WT_DONE\t"@;
    assert((window + rest).subrange(0, window.len() as int) =~= window);
    assert((window + rest).skip(window.len() as int) =~= rest);
    assert((pane + rest).subrange(0, pane.len() as int) =~= pane);
    assert((pane + rest).skip(pane.len() as int) =~= rest);
    assert((done + rest).subrange(0, done.len() as int) =~= done);
    assert((done + rest).skip(done.len() as int) =~= rest);
    if starts_with(pane + rest, window) {
        assert((pane + rest).subrange(0, window.len() as int)[3] == window[3]);
        assert((pane + rest)[3] == 'P');
    }
    if starts_with(done + rest, window) {
        assert((done + rest).subrange(0, window.len() as int)[3] == window[3]);
        assert((done + rest)[3] == 'D');
    }
    if starts_with(done + rest, pane) {
        assert((done + rest).subrange(0, pane.len() as int)[3] == pane[3]);
        assert((done + rest)[3] == 'D');
    }
}

proof fn lemma_number_field(n: u64, small: u16)
    ensures
        generation_field(decimal(n as nat)) == Some(n),
        number_field(decimal(small as nat)) == Some(small),
        !decimal(n as nat).contains('\t'),
        !decimal(small as nat).contains('\t'),
        trimmed(decimal(n as nat)) == decimal(n as nat),
{
    law_decimal_roundtrip(n as nat, u64::MAX as nat);
    law_decimal_roundtrip(small as nat, 0xffff);
    lemma_decimal_digits(n as nat);
    lemma_decimal_digits(small as nat);
    let d = decimal(n as nat);
    assert(is_digit(d[0]) && is_digit(d[d.len() - 1]));
    lemma_trimmed_id(d);
}

proof fn lemma_flag(flag: bool)
    ensures
        !flag_text(flag).contains('\t'),
        (flag_text(flag) == "1"@) == flag,
{
    reveal_strlit("1");
    reveal_strlit("0");
    assert("0"@[0] != "1"@[0]);
}

/// The answer of tmux for a window is read as it was meant, unless the window's name holds a tab.
pub proof fn law_window_reply_is_read(
    generation: u64,
    id: Text,
    index: u16,
    name: Text,
    active: bool,
    zoomed: bool,
)
    requires
        !id.contains('\t'),
        !name.contains('\t'),
    ensures
        state_text(window_reply(generation, id, index, name, active, zoomed)) == Some(
            StateLineView::Window {
                generation: Some(generation),
                window: WindowView {
                    id,
                    index: Some(index),
                    name,
                    active,
                    zoomed,
                    panes: seq![],
                },
            },
        ),
{
    let fields = seq![
        decimal(generation as nat),
        id,
        decimal(index as nat),
        name,
        flag_text(active),
        flag_text(zoomed),
    ];
    lemma_reply_prefixes(fields_text(fields, '\t'));
    lemma_number_field(generation, index);
    lemma_flag(active);
    lemma_flag(zoomed);
    lemma_fields_are_split(fields, '\t');
}

/// The answer of tmux for a pane is read as it was meant, unless the program or the directory holds
/// a tab.
pub proof fn law_pane_reply_is_read(
    generation: u64,
    window: Text,
    id: Text,
    index: u16,
    active: bool,
    command: Text,
    path: Text,
    left: u16,
    top: u16,
    width: u16,
    height: u16,
)
    requires
        !window.contains('\t'),
        !id.contains('\t'),
        !command.contains('\t'),
        !path.contains('\t'),
    ensures
        state_text(
            pane_reply(
                generation,
                window,
                id,
                index,
                active,
                command,
                path,
                left,
                top,
                width,
                height,
            ),
        ) == Some(
            StateLineView::Pane {
                generation: Some(generation),
                pane: PaneView {
                    id,
                    window_id: window,
                    index: Some(index),
                    active,
                    command,
                    path,
                    note: None,
                    left: Some(left),
                    top: Some(top),
                    width: Some(width),
                    height: Some(height),
                },
            },
        ),
{
    let fields = seq![
        decimal(generation as nat),
        window,
        id,
        decimal(index as nat),
        flag_text(active),
        command,
        path,
        decimal(left as nat),
        decimal(top as nat),
        decimal(width as nat),
        decimal(height as nat),
    ];
    lemma_reply_prefixes(fields_text(fields, '\t'));
    lemma_number_field(generation, index);
    lemma_number_field(generation, left);
    lemma_number_field(generation, top);
    lemma_number_field(generation, width);
    lemma_number_field(generation, height);
    lemma_flag(active);
    lemma_fields_are_split(fields, '\t');
}

/// The end of an answer is read as it was meant.
pub proof fn law_done_reply_is_read(generation: u64)
    ensures
        state_text(done_reply(generation)) == Some(
            StateLineView::Done { generation: Some(generation) },
        ),
{
    lemma_reply_prefixes(decimal(generation as nat));
    lemma_number_field(generation, 0);
}

} // verus!
