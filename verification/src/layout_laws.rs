//! What the layout shows of what tmux told: the focus, the windows, the panes and their notes.
use vstd::prelude::*;
use crate::control::{
    after_capture_control, fresh_control, joined_by_all, noted, panes_placed, settled, target_pane,
    told_windows, with_capture_line, with_contents, with_placeholder, with_reply, ControlView,
    PaneCaptureView, StateLineView,
};
use crate::control_laws::{
    law_layout_is_in_order, lemma_joined_by_all, lemma_pending_pane, lemma_told_panes,
    lemma_told_windows, panes_of, well_kept,
};
use crate::order::{law_sorting_sorts, Placed};
use crate::panes::{
    active_index, all_panes, chosen_pane, lemma_active_index, shows_pane, PaneView, WindowView,
};
use crate::replay::{joined, newest, total};
use crate::table::{in_key_order, in_order, lemma_in_order_lists, text_lt};
use crate::text::{trimmed, Text};
use crate::wire::spells;

verus! {

// ---------------------------------------------------------------------------
// Lines of an answer
// ---------------------------------------------------------------------------

/// A pane of the answer that is awaited gets the focus if tmux says that it is active, whatever had
/// the focus before; else the focus stays. The pane is filed as it was told, with its note, and
/// nothing else changes.
pub proof fn law_focus_follows_tmux(control: ControlView, generation: Option<u64>, pane: PaneView)
    requires
        control.pending_generation == generation,
    ensures
        ({
            let after = with_reply(control, StateLineView::Pane { generation, pane });
            &&& pane.active ==> after.active_pane == Some(pane.id)
            &&& !pane.active ==> after.active_pane == control.active_pane
            &&& after.pending_panes.dom() == control.pending_panes.dom().insert(pane.id)
            &&& after.pending_panes[pane.id] == (PaneView {
                note: if control.notes.dom().contains(pane.id) {
                    Some(control.notes[pane.id])
                } else {
                    None
                },
                ..pane
            })
            &&& forall|id: Text|
                id != pane.id && control.pending_panes.dom().contains(id)
                    ==> #[trigger] after.pending_panes[id] == control.pending_panes[id]
            &&& after == (ControlView {
                active_pane: after.active_pane,
                pending_panes: after.pending_panes,
                ..control
            })
        }),
{
    let after = with_reply(control, StateLineView::Pane { generation, pane });
    assert(after.pending_panes.dom() =~= control.pending_panes.dom().insert(pane.id));
}

/// A window of the answer that is awaited is filed as it was told, and nothing else changes.
pub proof fn law_windows_are_filed_as_told(
    control: ControlView,
    generation: Option<u64>,
    window: WindowView,
)
    requires
        control.pending_generation == generation,
    ensures
        ({
            let after = with_reply(control, StateLineView::Window { generation, window });
            &&& after.pending_windows == control.pending_windows.insert(window.id, window)
            &&& after == (ControlView { pending_windows: after.pending_windows, ..control })
        }),
{
}

/// The end of the answer that is awaited settles the layout.
pub proof fn law_end_of_the_answer_settles(control: ControlView, generation: Option<u64>)
    ensures
        control.pending_generation == generation ==> with_reply(
            control,
            StateLineView::Done { generation },
        ) == settled(control),
{
}

/// The control state after tmux has told `panes`.
pub open spec fn after_panes(
    control: ControlView,
    generation: Option<u64>,
    panes: Seq<PaneView>,
) -> ControlView
    decreases panes.len(),
{
    if panes.len() == 0 {
        control
    } else {
        with_reply(
            after_panes(control, generation, panes.drop_last()),
            StateLineView::Pane { generation, pane: panes.last() },
        )
    }
}

proof fn lemma_after_panes(
    control: ControlView,
    generation: Option<u64>,
    panes: Seq<PaneView>,
    k: int,
)
    requires
        control.pending_generation == generation,
        well_kept(control),
    ensures
        ({
            let after = after_panes(control, generation, panes);
            &&& after.pending_generation == generation
            &&& well_kept(after)
            &&& 0 <= k < panes.len() ==> after.pending_panes.dom().contains(panes[k].id)
            &&& 0 <= k < panes.len() && panes[k].active && (forall|i: int|
                k < i < panes.len() ==> !(#[trigger] panes[i]).active) ==> after.active_pane
                == Some(panes[k].id)
            &&& (forall|i: int| 0 <= i < panes.len() ==> !(#[trigger] panes[i]).active)
                ==> after.active_pane == control.active_pane
        }),
    decreases panes.len(),
{
    if panes.len() > 0 {
        let less = panes.drop_last();
        lemma_after_panes(control, generation, less, k);
        let before = after_panes(control, generation, less);
        let after = after_panes(control, generation, panes);
        law_focus_follows_tmux(before, generation, panes.last());
        assert forall|id: Text| #[trigger] after.pending_panes.dom().contains(id) implies
            after.pending_panes[id].id == id by {}
        if 0 <= k < less.len() {
            assert(less[k] == panes[k]);
            if panes[k].active && (forall|i: int|
                k < i < panes.len() ==> !(#[trigger] panes[i]).active) {
                assert forall|i: int| k < i < less.len() implies !(#[trigger] less[i]).active by {
                    assert(!panes[i].active);
                }
                assert(!panes[panes.len() - 1].active);
            }
        }
        if forall|i: int| 0 <= i < panes.len() ==> !(#[trigger] panes[i]).active {
            assert forall|i: int| 0 <= i < less.len() implies !(#[trigger] less[i]).active by {
                assert(!panes[i].active);
            }
            assert(!panes[panes.len() - 1].active);
        }
    }
}

/// After a complete answer the pane that tmux told last as active has the focus, whatever had it
/// before. Where one pane alone is told active, that is the one.
pub proof fn law_active_pane_of_the_answer_has_the_focus(
    control: ControlView,
    generation: Option<u64>,
    panes: Seq<PaneView>,
    k: int,
)
    requires
        control.pending_generation == generation,
        well_kept(control),
        0 <= k < panes.len(),
        panes[k].active,
        forall|i: int| k < i < panes.len() ==> !(#[trigger] panes[i]).active,
    ensures
        with_reply(
            after_panes(control, generation, panes),
            StateLineView::Done { generation },
        ).active_pane == Some(panes[k].id),
{
    lemma_after_panes(control, generation, panes, k);
    lemma_told_panes(after_panes(control, generation, panes));
}

/// Where no pane is told active, the focus stays if its pane is told.
pub proof fn law_focus_stays_with_a_live_pane(
    control: ControlView,
    generation: Option<u64>,
    panes: Seq<PaneView>,
    k: int,
)
    requires
        control.pending_generation == generation,
        well_kept(control),
        forall|i: int| 0 <= i < panes.len() ==> !(#[trigger] panes[i]).active,
        0 <= k < panes.len(),
        control.active_pane == Some(panes[k].id),
    ensures
        with_reply(
            after_panes(control, generation, panes),
            StateLineView::Done { generation },
        ).active_pane == Some(panes[k].id),
{
    lemma_after_panes(control, generation, panes, k);
    lemma_told_panes(after_panes(control, generation, panes));
}

// ---------------------------------------------------------------------------
// A focus whose pane is gone
// ---------------------------------------------------------------------------

/// Whether `a` comes before `b` in an answer: by the ids of their windows, then by their own.
pub open spec fn told_before(a: PaneView, b: PaneView) -> bool {
    text_lt(a.window_id, b.window_id) || (a.window_id == b.window_id && text_lt(a.id, b.id))
}

proof fn lemma_panes_of_sorted(panes: Seq<PaneView>, window: Text)
    requires
        forall|i: int, j: int|
            0 <= i < j < panes.len() ==> text_lt((#[trigger] panes[i]).id, (#[trigger] panes[j]).id),
    ensures
        forall|i: int, j: int|
            0 <= i < j < panes_of(panes, window).len() ==> text_lt(
                (#[trigger] panes_of(panes, window)[i]).id,
                (#[trigger] panes_of(panes, window)[j]).id,
            ),
        forall|i: int|
            0 <= i < panes_of(panes, window).len() ==> panes.contains(
                #[trigger] panes_of(panes, window)[i],
            ) && panes_of(panes, window)[i].window_id == window,
    decreases panes.len(),
{
    if panes.len() > 0 {
        let rest = panes.skip(1);
        assert forall|i: int, j: int| 0 <= i < j < rest.len() implies text_lt(
            (#[trigger] rest[i]).id,
            (#[trigger] rest[j]).id,
        ) by {
            assert(rest[i] == panes[i + 1] && rest[j] == panes[j + 1]);
        }
        lemma_panes_of_sorted(rest, window);
        let inner = panes_of(rest, window);
        let all = panes_of(panes, window);
        assert forall|i: int| 0 <= i < all.len() implies panes.contains(#[trigger] all[i])
            && all[i].window_id == window by {
            if panes[0].window_id == window {
                if i == 0 {
                    assert(panes.contains(panes[0]));
                } else {
                    assert(all[i] == inner[i - 1]);
                    let k = choose|k: int| 0 <= k < rest.len() && rest[k] == inner[i - 1];
                    assert(panes[k + 1] == all[i]);
                }
            } else {
                let k = choose|k: int| 0 <= k < rest.len() && rest[k] == inner[i];
                assert(panes[k + 1] == all[i]);
            }
        }
        assert forall|i: int, j: int| 0 <= i < j < all.len() implies text_lt(
            (#[trigger] all[i]).id,
            (#[trigger] all[j]).id,
        ) by {
            if panes[0].window_id == window {
                assert(all[j] == inner[j - 1]);
                if i == 0 {
                    let k = choose|k: int| 0 <= k < rest.len() && rest[k] == inner[j - 1];
                    assert(panes[k + 1] == all[j]);
                } else {
                    assert(all[i] == inner[i - 1]);
                }
            }
        }
    }
}

/// Whether the panes of the windows stand in the order of an answer.
pub open spec fn windows_sorted(windows: Seq<WindowView>) -> bool {
    &&& forall|i: int, j: int|
        0 <= i < j < windows.len() ==> text_lt((#[trigger] windows[i]).id, (#[trigger] windows[j]).id)
    &&& forall|i: int, a: int, b: int|
        0 <= i < windows.len() && 0 <= a < b < windows[i].panes.len() ==> text_lt(
            (#[trigger] windows[i].panes[a]).id,
            (#[trigger] windows[i].panes[b]).id,
        )
    &&& forall|i: int, a: int|
        0 <= i < windows.len() && 0 <= a < windows[i].panes.len() ==> (
        #[trigger] windows[i].panes[a]).window_id == windows[i].id
}

proof fn lemma_all_panes_sorted(windows: Seq<WindowView>)
    requires
        windows_sorted(windows),
    ensures
        forall|a: int, b: int|
            0 <= a < b < all_panes(windows).len() ==> told_before(
                #[trigger] all_panes(windows)[a],
                #[trigger] all_panes(windows)[b],
            ),
        forall|a: int|
            0 <= a < all_panes(windows).len() ==> exists|i: int|
                0 <= i < windows.len() && (#[trigger] windows[i]).id == (
                #[trigger] all_panes(windows)[a]).window_id,
    decreases windows.len(),
{
    if windows.len() > 0 {
        let rest = windows.skip(1);
        assert forall|i: int, j: int| 0 <= i < j < rest.len() implies text_lt(
            (#[trigger] rest[i]).id,
            (#[trigger] rest[j]).id,
        ) by {
            assert(rest[i] == windows[i + 1] && rest[j] == windows[j + 1]);
        }
        assert forall|i: int, a: int, b: int|
            0 <= i < rest.len() && 0 <= a < b < rest[i].panes.len() implies text_lt(
            (#[trigger] rest[i].panes[a]).id,
            (#[trigger] rest[i].panes[b]).id,
        ) by {
            assert(rest[i] == windows[i + 1]);
            assert(text_lt(windows[i + 1].panes[a].id, windows[i + 1].panes[b].id));
        }
        assert forall|i: int, a: int| 0 <= i < rest.len() && 0 <= a < rest[i].panes.len() implies (
        #[trigger] rest[i].panes[a]).window_id == rest[i].id by {
            assert(windows[i + 1].panes[a].window_id == windows[i + 1].id);
        }
        lemma_all_panes_sorted(rest);
        let all = all_panes(windows);
        let first = windows[0].panes;
        let later = all_panes(rest);
        assert forall|a: int| 0 <= a < all.len() implies exists|i: int|
            0 <= i < windows.len() && (#[trigger] windows[i]).id == (#[trigger] all[a]).window_id by {
            if a < first.len() {
                assert(windows[0].panes[a].window_id == windows[0].id);
            } else {
                assert(all[a] == later[a - first.len()]);
                let i = choose|i: int|
                    0 <= i < rest.len() && (#[trigger] rest[i]).id == later[a
                        - first.len()].window_id;
                assert(windows[i + 1].id == all[a].window_id);
            }
        }
        assert forall|a: int, b: int| 0 <= a < b < all.len() implies told_before(
            #[trigger] all[a],
            #[trigger] all[b],
        ) by {
            if b < first.len() {
                assert(windows[0].panes[a].window_id == windows[0].id);
                assert(windows[0].panes[b].window_id == windows[0].id);
                assert(text_lt(windows[0].panes[a].id, windows[0].panes[b].id));
            } else {
                assert(all[b] == later[b - first.len()]);
                if a < first.len() {
                    assert(windows[0].panes[a].window_id == windows[0].id);
                    let i = choose|i: int|
                        0 <= i < rest.len() && (#[trigger] rest[i]).id == later[b
                            - first.len()].window_id;
                    assert(text_lt(windows[0].id, windows[i + 1].id));
                    assert(rest[i] == windows[i + 1]);
                } else {
                    assert(all[a] == later[a - first.len()]);
                }
            }
        }
    }
}

proof fn lemma_told_windows_sorted(control: ControlView)
    requires
        well_kept(control),
    ensures
        windows_sorted(told_windows(control)),
{
    let panes = in_key_order(control.pending_panes);
    let map = joined_by_all(control.pending_windows, panes);
    lemma_joined_by_all(control.pending_windows, panes, seq![]);
    lemma_in_order_lists(map.dom());
    lemma_in_order_lists(control.pending_panes.dom());
    let keys = in_order(map.dom());
    let ids = in_order(control.pending_panes.dom());
    let told = told_windows(control);
    assert forall|i: int, j: int| 0 <= i < j < panes.len() implies text_lt(
        (#[trigger] panes[i]).id,
        (#[trigger] panes[j]).id,
    ) by {
        assert(ids.to_set().contains(ids[i]));
        assert(ids.to_set().contains(ids[j]));
    }
    lemma_told_windows(control);
    assert forall|i: int| 0 <= i < told.len() implies (#[trigger] told[i]).id == keys[i] by {
        assert(keys.to_set().contains(keys[i]));
        lemma_joined_by_all(control.pending_windows, panes, keys[i]);
    }
    assert forall|i: int, a: int| 0 <= i < told.len() && 0 <= a < told[i].panes.len() implies (
    #[trigger] told[i].panes[a]).window_id == told[i].id by {
        lemma_panes_of_sorted(panes, told[i].id);
        assert(panes_of(panes, told[i].id)[a].window_id == told[i].id);
    }
    assert forall|i: int, a: int, b: int|
        0 <= i < told.len() && 0 <= a < b < told[i].panes.len() implies text_lt(
        (#[trigger] told[i].panes[a]).id,
        (#[trigger] told[i].panes[b]).id,
    ) by {
        lemma_panes_of_sorted(panes, told[i].id);
        assert(text_lt(panes_of(panes, told[i].id)[a].id, panes_of(panes, told[i].id)[b].id));
    }
}

proof fn lemma_first_active(panes: Seq<PaneView>)
    ensures
        active_index(panes) matches Some(k) ==> forall|i: int|
            0 <= i < k ==> !(#[trigger] panes[i]).active,
    decreases panes.len(),
{
    if panes.len() > 0 && !panes[0].active {
        let rest = panes.skip(1);
        lemma_first_active(rest);
        lemma_active_index(rest);
        if let Some(k) = active_index(panes) {
            assert forall|i: int| 0 <= i < k implies !(#[trigger] panes[i]).active by {
                if i > 0 {
                    assert(rest[i - 1] == panes[i]);
                }
            }
        }
    }
}

/// Where the pane that had the focus is gone, or none had it, the focus moves to the first active
/// pane that was told; where none is active, to the first pane.
pub proof fn law_focus_moves_from_a_gone_pane(control: ControlView, id: Text, other: Text)
    requires
        well_kept(control),
        control.active_pane is Some ==> !control.pending_panes.dom().contains(
            control.active_pane->0,
        ),
        settled(control).active_pane == Some(id),
        control.pending_panes.dom().contains(other),
        other != id,
    ensures
        control.pending_panes.dom().contains(id),
        control.pending_panes[other].active ==> control.pending_panes[id].active,
        control.pending_panes[other].active == control.pending_panes[id].active ==> told_before(
            control.pending_panes[id],
            control.pending_panes[other],
        ),
{
    broadcast use vstd::seq_lib::group_to_multiset_ensures;

    lemma_told_panes(control);
    lemma_told_windows(control);
    lemma_told_windows_sorted(control);
    let windows = told_windows(control);
    let all = all_panes(windows);
    let panes = in_key_order(control.pending_panes);
    lemma_all_panes_sorted(windows);
    lemma_active_index(all);
    lemma_first_active(all);
    assert(chosen_pane(windows) == Some(id));
    let k = match active_index(all) {
        Some(i) => i,
        None => 0,
    };
    assert(all[k].id == id);
    assert(all.contains(all[k]));
    assert(all.to_multiset().count(all[k]) > 0);
    assert(panes.contains(all[k]));
    lemma_pending_pane(control, all[k]);
    let pane = control.pending_panes[other];
    lemma_pending_pane(control, pane);
    assert(panes.to_multiset().count(pane) > 0);
    assert(all.contains(pane));
    let m = choose|m: int| 0 <= m < all.len() && all[m] == pane;
    if m < k {
        assert(!all[m].active);
    } else {
        assert(told_before(all[k], all[m]));
    }
}

// ---------------------------------------------------------------------------
// Windows
// ---------------------------------------------------------------------------

proof fn lemma_shown_window(control: ControlView, i: int) -> (k: int)
    requires
        well_kept(control),
        0 <= i < settled(control).windows.len(),
    ensures
        0 <= k < told_windows(control).len(),
        settled(control).windows[i] == panes_placed(told_windows(control)[k]),
{
    broadcast use vstd::seq_lib::group_to_multiset_ensures;

    let told = told_windows(control);
    let placed = Seq::new(told.len(), |i: int| panes_placed(told[i]));
    let windows = settled(control).windows;
    law_sorting_sorts(placed);
    assert(windows.contains(windows[i]));
    assert(windows.to_multiset().count(windows[i]) > 0);
    assert(placed.contains(windows[i]));
    choose|k: int| 0 <= k < placed.len() && placed[k] == windows[i]
}

/// A window that tmux told is shown with its index, its name and its flags.
pub proof fn law_told_windows_are_shown(control: ControlView, id: Text)
    requires
        well_kept(control),
        control.pending_windows.dom().contains(id),
    ensures
        exists|i: int|
            0 <= i < settled(control).windows.len() && ({
                let shown = #[trigger] settled(control).windows[i];
                let told = control.pending_windows[id];
                shown.id == id && shown.index == told.index && shown.name == told.name
                    && shown.active == told.active && shown.zoomed == told.zoomed
            }),
{
    broadcast use vstd::seq_lib::group_to_multiset_ensures;

    let panes = in_key_order(control.pending_panes);
    let map = joined_by_all(control.pending_windows, panes);
    lemma_joined_by_all(control.pending_windows, panes, id);
    lemma_in_order_lists(map.dom());
    let keys = in_order(map.dom());
    assert(keys.to_set().contains(id));
    let k = choose|k: int| 0 <= k < keys.len() && keys[k] == id;
    let told = told_windows(control);
    assert(told[k] == map[id]);
    let placed = Seq::new(told.len(), |i: int| panes_placed(told[i]));
    let windows = settled(control).windows;
    law_sorting_sorts(placed);
    assert(placed[k] == panes_placed(told[k]));
    assert(placed.contains(placed[k]));
    assert(placed.to_multiset().count(placed[k]) > 0);
    assert(windows.contains(placed[k]));
    let i = choose|i: int| 0 <= i < windows.len() && windows[i] == placed[k];
    assert(windows[i].id == id);
}

/// A window that is shown was told by tmux, or one of its panes was; in that case it goes by its id.
pub proof fn law_shown_windows_were_told(control: ControlView, i: int)
    requires
        well_kept(control),
        0 <= i < settled(control).windows.len(),
    ensures
        ({
            let shown = settled(control).windows[i];
            if control.pending_windows.dom().contains(shown.id) {
                let told = control.pending_windows[shown.id];
                shown.index == told.index && shown.name == told.name && shown.active == told.active
                    && shown.zoomed == told.zoomed
            } else {
                shown.panes.len() > 0 && shown.index is None && shown.name == shown.id
                    && !shown.active && !shown.zoomed
            }
        }),
{
    broadcast use vstd::seq_lib::group_to_multiset_ensures;

    let k = lemma_shown_window(control, i);
    let panes = in_key_order(control.pending_panes);
    let map = joined_by_all(control.pending_windows, panes);
    lemma_joined_by_all(control.pending_windows, panes, seq![]);
    lemma_in_order_lists(map.dom());
    let keys = in_order(map.dom());
    assert(keys.to_set().contains(keys[k]));
    lemma_joined_by_all(control.pending_windows, panes, keys[k]);
    let told = told_windows(control)[k];
    let shown = settled(control).windows[i];
    assert(told == map[keys[k]]);
    if !control.pending_windows.dom().contains(keys[k]) {
        let m = choose|m: int| 0 <= m < panes.len() && (#[trigger] panes[m]).window_id == keys[k];
        lemma_pane_is_listed(panes, keys[k], m);
        assert(told.panes.len() > 0);
        law_sorting_sorts(told.panes);
        assert(shown.panes.to_multiset().len() == told.panes.to_multiset().len());
    }
}

proof fn lemma_pane_is_listed(panes: Seq<PaneView>, window: Text, m: int)
    requires
        0 <= m < panes.len(),
        panes[m].window_id == window,
    ensures
        panes_of(panes, window).len() > 0,
    decreases panes.len(),
{
    if panes[0].window_id != window {
        lemma_pane_is_listed(panes.skip(1), window, m - 1);
    }
}

/// Whether what has the index `a` may stand before what has the index `b`: smaller indices come
/// first, and what has none comes last.
pub open spec fn may_precede(a: Option<u16>, b: Option<u16>) -> bool {
    match (a, b) {
        (Some(x), Some(y)) => x <= y,
        (Some(_), None) => true,
        (None, Some(y)) => y == 65535,
        (None, None) => true,
    }
}

/// Windows are shown by their indices, and the panes of each window by theirs.
pub proof fn law_layout_goes_by_indices(control: ControlView, i: int, j: int, a: int, b: int)
    requires
        0 <= i <= j < settled(control).windows.len(),
        0 <= a <= b < settled(control).windows[i].panes.len(),
    ensures
        may_precede(settled(control).windows[i].index, settled(control).windows[j].index),
        may_precede(
            settled(control).windows[i].panes[a].index,
            settled(control).windows[i].panes[b].index,
        ),
{
    law_layout_is_in_order(control);
    let windows = settled(control).windows;
    assert(windows[i].place() <= windows[j].place());
    assert(windows[i].panes[a].place() <= windows[i].panes[b].place());
}

/// Of the panes that are told again, the output that is held and the notes stay as they are.
pub proof fn law_live_panes_keep_their_output(control: ControlView, id: Text)
    requires
        well_kept(control),
        control.pending_panes.dom().contains(id),
    ensures
        settled(control).replays.dom().contains(id) <==> control.replays.dom().contains(id),
        control.replays.dom().contains(id) ==> settled(control).replays[id] == control.replays[id],
        settled(control).notes.dom().contains(id) <==> control.notes.dom().contains(id),
        control.notes.dom().contains(id) ==> settled(control).notes[id] == control.notes[id],
{
    lemma_told_panes(control);
}

/// Settling a layout touches neither the contents that are asked for nor the count of questions.
pub proof fn law_settling_changes_the_layout_only(control: ControlView)
    ensures
        settled(control).initialized == control.initialized,
        settled(control).refresh_generation == control.refresh_generation,
        settled(control).queue == control.queue,
        settled(control).capture == control.capture,
        settled(control).pending_generation is None,
        settled(control).pending_windows == Map::<Text, WindowView>::empty(),
        settled(control).pending_panes == Map::<Text, PaneView>::empty(),
{
}

// ---------------------------------------------------------------------------
// New panes and notes
// ---------------------------------------------------------------------------

/// A control state that has just been made knows nothing but the notes it was given.
pub proof fn law_new_state_knows_the_notes_only(notes: Map<Text, Text>)
    ensures
        ({
            let fresh = fresh_control(notes);
            &&& fresh.notes == notes
            &&& !fresh.initialized
            &&& fresh.active_pane is None
            &&& fresh.refresh_generation == 0
            &&& fresh.pending_generation is None
            &&& fresh.windows.len() == 0
            &&& fresh.queue.len() == 0
            &&& fresh.capture is None
            &&& fresh.replays.dom() == Set::<Text>::empty()
            &&& fresh.pending_windows.dom() == Set::<Text>::empty()
            &&& fresh.pending_panes.dom() == Set::<Text>::empty()
        }),
{
    let fresh = fresh_control(notes);
    assert(fresh.replays.dom() =~= Set::<Text>::empty());
    assert(fresh.pending_windows.dom() =~= Set::<Text>::empty());
    assert(fresh.pending_panes.dom() =~= Set::<Text>::empty());
}

/// A pane that turns up by its output stands last in the first window until tmux tells where it is;
/// all else stays. A pane that is shown already changes nothing.
pub proof fn law_new_pane_stands_last(windows: Seq<WindowView>, id: Text, notes: Map<Text, Text>)
    ensures
        shows_pane(windows, id) ==> with_placeholder(windows, id, notes) == windows,
        !shows_pane(windows, id) ==> ({
            let after = with_placeholder(windows, id, notes);
            let first = if windows.len() > 0 {
                windows[0]
            } else {
                WindowView {
                    id: "@0"@,
                    index: Some(0),
                    name: "tmux"@,
                    active: true,
                    zoomed: false,
                    panes: seq![],
                }
            };
            let pane = PaneView {
                id,
                window_id: first.id,
                index: Some((first.panes.len() % 65536) as u16),
                active: true,
                command: seq![],
                path: seq![],
                note: if notes.dom().contains(id) {
                    Some(notes[id])
                } else {
                    None
                },
                left: None,
                top: None,
                width: None,
                height: None,
            };
            &&& after.len() == if windows.len() > 0 {
                windows.len()
            } else {
                1
            }
            &&& after[0] == (WindowView { panes: first.panes.push(pane), ..first })
            &&& forall|i: int| 0 < i < windows.len() ==> #[trigger] after[i] == windows[i]
        }),
{
}

/// A note changes the note of its pane and nothing else: no window, no other pane, nothing else of
/// that pane. White space around it is left out; an empty note, and one about a pane that is not
/// shown, is none.
pub proof fn law_note_changes_nothing_else(control: ControlView, id: Text, note: Text)
    ensures
        ({
            let after = noted(control, id, note);
            let shown = shows_pane(control.windows, id);
            let kept = if shown && trimmed(note).len() > 0 {
                Some(trimmed(note))
            } else {
                None::<Text>
            };
            &&& after == (ControlView { windows: after.windows, notes: after.notes, ..control })
            &&& after.notes == match kept {
                Some(n) => control.notes.insert(id, n),
                None => control.notes.remove(id),
            }
            &&& !shown ==> after.windows == control.windows
            &&& after.windows.len() == control.windows.len()
            &&& forall|i: int|
                0 <= i < control.windows.len() ==> (#[trigger] after.windows[i]) == (WindowView {
                    panes: after.windows[i].panes,
                    ..control.windows[i]
                }) && after.windows[i].panes.len() == control.windows[i].panes.len()
            &&& forall|i: int, j: int|
                0 <= i < control.windows.len() && 0 <= j < control.windows[i].panes.len() ==> (
                #[trigger] after.windows[i].panes[j]) == if shown
                    && control.windows[i].panes[j].id == id {
                    PaneView { note: kept, ..control.windows[i].panes[j] }
                } else {
                    control.windows[i].panes[j]
                }
        }),
{
    let after = noted(control, id, note);
    assert forall|i: int| 0 <= i < control.windows.len() implies (#[trigger] after.windows[i]) == (
    WindowView { panes: after.windows[i].panes, ..control.windows[i] })
        && after.windows[i].panes.len() == control.windows[i].panes.len() by {}
}

// ---------------------------------------------------------------------------
// Targets and contents
// ---------------------------------------------------------------------------

/// Input goes to the pane that is named, else to the one that has the focus; before tmux has spoken
/// it goes to none.
pub proof fn law_input_finds_its_pane(control: ControlView, pane: Text)
    ensures
        !control.initialized ==> target_pane(control, Some(pane)) is None && target_pane(
            control,
            None,
        ) is None,
        control.initialized ==> target_pane(control, Some(pane)) == Some(pane) && target_pane(
            control,
            None,
        ) == control.active_pane,
{
}

/// The contents of a pane take the place of all that was held of its output, where they fit; what is
/// held of other panes stays.
pub proof fn law_contents_replace_what_was_held(
    control: ControlView,
    id: Text,
    contents: Seq<u8>,
    other: Text,
)
    ensures
        ({
            let after = with_contents(control, id, contents);
            &&& after.replays.dom() == control.replays.dom().insert(id)
            &&& contents.len() <= 33554432 ==> after.replays[id] == seq![contents]
            &&& contents.len() > 33554432 ==> after.replays[id] == Seq::<Seq<u8>>::empty()
            &&& other != id && control.replays.dom().contains(other) ==> after.replays[other]
                == control.replays[other]
            &&& after == (ControlView { replays: after.replays, ..control })
        }),
{
    let after = with_contents(control, id, contents);
    let none: Seq<Seq<u8>> = seq![];
    assert(after.replays.dom() =~= control.replays.dom().insert(id));
    assert(seq![contents].drop_last() =~= none);
    assert(total(none) == 0);
    assert(total(seq![contents]) == contents.len());
    if contents.len() > 33554432 {
        assert(seq![contents].drop_first() =~= none);
        assert(newest(none, 33554432) == none);
    }
}

/// While the contents of a pane come in, each line is kept with a carriage return and a line feed;
/// the end files them under their pane, an error drops them, and nothing else changes.
pub proof fn law_contents_come_in_by_lines(
    control: ControlView,
    pane: Text,
    lines: Seq<Seq<u8>>,
    line: Seq<u8>,
)
    requires
        control.capture == Some(PaneCaptureView { pane, lines }),
    ensures
        with_capture_line(control, line) == (ControlView {
            capture: Some(
                PaneCaptureView { pane, lines: lines.push(line + seq![13u8, 10u8]) },
            ),
            ..control
        }),
        spells(line, "%end "@) ==> after_capture_control(control, line) == with_contents(
            ControlView { capture: None, ..control },
            pane,
            joined(lines),
        ),
        spells(line, "%error "@) ==> after_capture_control(control, line) == (ControlView {
            capture: None,
            ..control
        }),
        !spells(line, "%end "@) && !spells(line, "%error "@) ==> after_capture_control(
            control,
            line,
        ) == with_capture_line(control, line),
{
    reveal_strlit("%end ");
    reveal_strlit("%error ");
    if spells(line, "%end "@) && spells(line, "%error "@) {
        assert(line[0 + 2int] as char == "%end "@[2]);
        assert(line[0 + 2int] as char == "%error "@[2]);
    }
}

/// Chunks are joined one behind the other.
pub proof fn law_chunks_are_joined_in_order(chunks: Seq<Seq<u8>>, chunk: Seq<u8>)
    ensures
        joined(seq![]) == Seq::<u8>::empty(),
        joined(chunks.push(chunk)) == joined(chunks) + chunk,
        total(seq![]) == 0,
        total(chunks.push(chunk)) == total(chunks) + chunk.len(),
{
    assert(chunks.push(chunk).drop_last() =~= chunks);
}

} // verus!
