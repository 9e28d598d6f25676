//! The windows and panes of a tmux session.
use vstd::prelude::*;
use vstd::string::*;
use crate::order::{Placed, Ranked};
use crate::table::views;
use crate::text::{copy_opt, opt_text, same_text, Text};

verus! {

// ---------------------------------------------------------------------------
// Panes, windows, snapshots
// ---------------------------------------------------------------------------

/// A pane of a window.
#[derive(Clone, Debug)]
pub struct TmuxPane {
    /// The name that tmux gave it.
    pub id: String,
    /// The window that it belongs to.
    pub window_id: String,
    /// Its place in the window.
    pub index: Option<u16>,
    /// Whether it is the active one of its window.
    pub active: bool,
    /// The program that runs in it.
    pub current_command: String,
    /// The directory of that program.
    pub current_path: String,
    /// What the user noted down about it.
    pub note: Option<String>,
    /// Its left edge, in columns.
    pub left: Option<u16>,
    /// Its top edge, in rows.
    pub top: Option<u16>,
    /// Its width, in columns.
    pub width: Option<u16>,
    /// Its height, in rows.
    pub height: Option<u16>,
}

/// What a pane holds.
#[verifier::ext_equal]
pub struct PaneView {
    pub id: Text,
    pub window_id: Text,
    pub index: Option<u16>,
    pub active: bool,
    pub command: Text,
    pub path: Text,
    pub note: Option<Text>,
    pub left: Option<u16>,
    pub top: Option<u16>,
    pub width: Option<u16>,
    pub height: Option<u16>,
}

impl View for TmuxPane {
    type V = PaneView;

    open spec fn view(&self) -> PaneView {
        PaneView {
            id: self.id@,
            window_id: self.window_id@,
            index: self.index,
            active: self.active,
            command: self.current_command@,
            path: self.current_path@,
            note: opt_text(self.note),
            left: self.left,
            top: self.top,
            width: self.width,
            height: self.height,
        }
    }
}

impl TmuxPane {
    /// The same pane again.
    pub fn copy(&self) -> (res: Self)
        ensures
            res@ == self@,
    {
        TmuxPane {
            id: self.id.clone(),
            window_id: self.window_id.clone(),
            index: self.index,
            active: self.active,
            current_command: self.current_command.clone(),
            current_path: self.current_path.clone(),
            note: copy_opt(&self.note),
            left: self.left,
            top: self.top,
            width: self.width,
            height: self.height,
        }
    }
}

/// A window with its panes.
#[derive(Clone, Debug)]
pub struct TmuxWindow {
    /// The name that tmux gave it.
    pub id: String,
    /// Its place in the session.
    pub index: Option<u16>,
    /// The name that the user sees.
    pub name: String,
    /// Whether it is the active one.
    pub active: bool,
    /// Whether one of its panes fills it.
    pub zoomed: bool,
    /// Its panes.
    pub panes: Vec<TmuxPane>,
}

/// What a window holds.
#[verifier::ext_equal]
pub struct WindowView {
    pub id: Text,
    pub index: Option<u16>,
    pub name: Text,
    pub active: bool,
    pub zoomed: bool,
    pub panes: Seq<PaneView>,
}

impl View for TmuxWindow {
    type V = WindowView;

    open spec fn view(&self) -> WindowView {
        WindowView {
            id: self.id@,
            index: self.index,
            name: self.name@,
            active: self.active,
            zoomed: self.zoomed,
            panes: views(self.panes@),
        }
    }
}

/// The same panes again.
pub fn copy_panes(panes: &Vec<TmuxPane>) -> (res: Vec<TmuxPane>)
    ensures
        views(res@) == views(panes@),
{
    let mut out: Vec<TmuxPane> = Vec::new();
    let mut i: usize = 0;
    while i < panes.len()
        invariant
            0 <= i <= panes@.len(),
            out@.len() == i,
            forall|j: int| 0 <= j < i ==> (#[trigger] out@[j])@ == panes@[j]@,
        decreases panes@.len() - i,
    {
        out.push(panes[i].copy());
        i += 1;
    }
    assert(views(out@) =~= views(panes@));
    out
}

impl TmuxWindow {
    /// The same window again.
    pub fn copy(&self) -> (res: Self)
        ensures
            res@ == self@,
    {
        TmuxWindow {
            id: self.id.clone(),
            index: self.index,
            name: self.name.clone(),
            active: self.active,
            zoomed: self.zoomed,
            panes: copy_panes(&self.panes),
        }
    }
}

/// The same windows again.
pub fn copy_windows(windows: &Vec<TmuxWindow>) -> (res: Vec<TmuxWindow>)
    ensures
        views(res@) == views(windows@),
{
    let mut out: Vec<TmuxWindow> = Vec::new();
    let mut i: usize = 0;
    while i < windows.len()
        invariant
            0 <= i <= windows@.len(),
            out@.len() == i,
            forall|j: int| 0 <= j < i ==> (#[trigger] out@[j])@ == windows@[j]@,
        decreases windows@.len() - i,
    {
        out.push(windows[i].copy());
        i += 1;
    }
    assert(views(out@) =~= views(windows@));
    out
}

/// The layout of a tmux session at one time.
#[derive(Clone, Debug)]
pub struct TmuxStateSnapshot {
    /// The pane that has the focus.
    pub active_pane: Option<String>,
    /// The windows.
    pub windows: Vec<TmuxWindow>,
}

/// What a snapshot holds.
#[verifier::ext_equal]
pub struct SnapshotView {
    pub active_pane: Option<Text>,
    pub windows: Seq<WindowView>,
}

impl View for TmuxStateSnapshot {
    type V = SnapshotView;

    open spec fn view(&self) -> SnapshotView {
        SnapshotView { active_pane: opt_text(self.active_pane), windows: views(self.windows@) }
    }
}

// ---------------------------------------------------------------------------
// Looking panes up
// ---------------------------------------------------------------------------

/// All panes, window by window.
pub open spec fn all_panes(windows: Seq<WindowView>) -> Seq<PaneView>
    decreases windows.len(),
{
    if windows.len() == 0 {
        seq![]
    } else {
        windows[0].panes + all_panes(windows.skip(1))
    }
}

/// Whether one of the panes is called `id`.
pub open spec fn lists_pane(panes: Seq<PaneView>, id: Text) -> bool {
    exists|i: int| 0 <= i < panes.len() && #[trigger] panes[i].id == id
}

/// Whether a window has a pane called `id`.
pub open spec fn shows_pane(windows: Seq<WindowView>, id: Text) -> bool {
    exists|i: int| 0 <= i < windows.len() && lists_pane(#[trigger] windows[i].panes, id)
}

/// Whether one of the panes is called `id`.
fn has_pane(panes: &Vec<TmuxPane>, id: &str) -> (res: bool)
    ensures
        res == lists_pane(views(panes@), id@),
{
    let ghost all = views(panes@);
    let mut i: usize = 0;
    while i < panes.len()
        invariant
            all == views(panes@),
            0 <= i <= panes@.len(),
            forall|j: int| 0 <= j < i ==> (#[trigger] all[j]).id != id@,
        decreases panes@.len() - i,
    {
        assert(all[i as int] == panes@[i as int]@);
        if same_text(panes[i].id.as_str(), id) {
            assert(all[i as int].id == id@);
            return true;
        }
        i += 1;
    }
    false
}

/// Whether a window has a pane called `id`.
pub fn windows_show_pane(windows: &Vec<TmuxWindow>, id: &str) -> (res: bool)
    ensures
        res == shows_pane(views(windows@), id@),
{
    let ghost all = views(windows@);
    let mut i: usize = 0;
    while i < windows.len()
        invariant
            all == views(windows@),
            0 <= i <= windows@.len(),
            forall|j: int| 0 <= j < i ==> !lists_pane((#[trigger] all[j]).panes, id@),
        decreases windows@.len() - i,
    {
        assert(all[i as int] == windows@[i as int]@);
        if has_pane(&windows[i].panes, id) {
            assert(lists_pane(all[i as int].panes, id@));
            return true;
        }
        i += 1;
    }
    false
}

/// The first pane there is.
pub open spec fn first_pane(windows: Seq<WindowView>) -> Option<Text> {
    let panes = all_panes(windows);
    if panes.len() == 0 {
        None
    } else {
        Some(panes[0].id)
    }
}

/// Where the first active one of the panes stands.
pub open spec fn active_index(panes: Seq<PaneView>) -> Option<int>
    decreases panes.len(),
{
    if panes.len() == 0 {
        None
    } else if panes[0].active {
        Some(0)
    } else {
        match active_index(panes.skip(1)) {
            Some(i) => Some(i + 1),
            None => None,
        }
    }
}

/// The first active pane.
pub open spec fn first_active_pane(windows: Seq<WindowView>) -> Option<Text> {
    match active_index(all_panes(windows)) {
        Some(i) => Some(all_panes(windows)[i].id),
        None => None,
    }
}

/// The first active pane; the first one where none is active.
pub open spec fn chosen_pane(windows: Seq<WindowView>) -> Option<Text> {
    match first_active_pane(windows) {
        Some(id) => Some(id),
        None => first_pane(windows),
    }
}

/// The first pane there is.
pub fn first_pane_id(windows: &Vec<TmuxWindow>) -> (res: Option<String>)
    ensures
        opt_text(res) == first_pane(views(windows@)),
{
    let ghost all = views(windows@);
    let mut i: usize = 0;
    assert(all.skip(0) == all);
    while i < windows.len()
        invariant
            all == views(windows@),
            0 <= i <= windows@.len(),
            all_panes(all) == all_panes(all.skip(i as int)),
        decreases windows@.len() - i,
    {
        let ghost rest = all.skip(i as int);
        assert(rest[0] == windows@[i as int]@);
        assert(rest.skip(1) == all.skip(i + 1));
        if windows[i].panes.len() > 0 {
            assert(rest[0].panes[0] == windows@[i as int].panes@[0]@);
            return Some(windows[i].panes[0].id.clone());
        }
        assert(all_panes(rest) == all_panes(rest.skip(1)));
        i += 1;
    }
    None
}

pub proof fn lemma_active_index(panes: Seq<PaneView>)
    ensures
        match active_index(panes) {
            Some(i) => 0 <= i < panes.len() && panes[i].active,
            None => forall|i: int| 0 <= i < panes.len() ==> !(#[trigger] panes[i]).active,
        },
    decreases panes.len(),
{
    if panes.len() > 0 && !panes[0].active {
        lemma_active_index(panes.skip(1));
        match active_index(panes.skip(1)) {
            Some(i) => {
                assert(panes.skip(1)[i] == panes[i + 1]);
            },
            None => {
                assert forall|i: int| 0 <= i < panes.len() implies !(#[trigger] panes[i]).active by {
                    if i > 0 {
                        assert(panes.skip(1)[i - 1] == panes[i]);
                    }
                }
            },
        }
    }
}

proof fn lemma_active_index_split(a: Seq<PaneView>, b: Seq<PaneView>)
    ensures
        active_index(a + b) == match active_index(a) {
            Some(i) => Some(i),
            None => match active_index(b) {
                Some(i) => Some(i + a.len()),
                None => None,
            },
        },
    decreases a.len(),
{
    if a.len() == 0 {
        assert(a + b == b);
    } else {
        assert((a + b).skip(1) == a.skip(1) + b);
        assert((a + b)[0] == a[0]);
        if !a[0].active {
            lemma_active_index_split(a.skip(1), b);
        }
    }
}

/// The first active one of the panes.
fn active_pane_place(panes: &Vec<TmuxPane>) -> (res: Option<usize>)
    ensures
        match res {
            Some(i) => i < panes@.len() && active_index(views(panes@)) == Some(i as int),
            None => active_index(views(panes@)) is None,
        },
{
    let ghost all = views(panes@);
    let mut i: usize = 0;
    assert(all.skip(0) == all);
    while i < panes.len()
        invariant
            all == views(panes@),
            0 <= i <= panes@.len(),
            active_index(all) == match active_index(all.skip(i as int)) {
                Some(k) => Some(k + i),
                None => None,
            },
        decreases panes@.len() - i,
    {
        let ghost rest = all.skip(i as int);
        assert(rest[0] == panes@[i as int]@);
        assert(rest.skip(1) == all.skip(i + 1));
        if panes[i].active {
            return Some(i);
        }
        i += 1;
    }
    None
}

/// The first active pane; the first one where none is active.
pub fn choose_pane(windows: &Vec<TmuxWindow>) -> (res: Option<String>)
    ensures
        opt_text(res) == chosen_pane(views(windows@)),
{
    let ghost all = views(windows@);
    let mut i: usize = 0;
    assert(all.skip(0) == all);
    while i < windows.len()
        invariant
            all == views(windows@),
            0 <= i <= windows@.len(),
            first_active_pane(all) == first_active_pane(all.skip(i as int)),
        decreases windows@.len() - i,
    {
        let ghost rest = all.skip(i as int);
        assert(rest[0] == windows@[i as int]@);
        assert(rest.skip(1) == all.skip(i + 1));
        proof {
            lemma_active_index_split(rest[0].panes, all_panes(rest.skip(1)));
            lemma_active_index(all_panes(rest.skip(1)));
        }
        if let Some(k) = active_pane_place(&windows[i].panes) {
            assert(rest[0].panes[k as int] == windows@[i as int].panes@[k as int]@);
            return Some(windows[i].panes[k].id.clone());
        }
        assert(all_panes(rest) == rest[0].panes + all_panes(rest.skip(1)));
        i += 1;
    }
    first_pane_id(windows)
}

// ---------------------------------------------------------------------------
// Places
// ---------------------------------------------------------------------------

/// The place that an index gives; what has none comes last.
pub open spec fn index_place(index: Option<u16>) -> int {
    match index {
        Some(i) => i as int,
        None => u16::MAX as int,
    }
}

impl Placed for PaneView {
    open spec fn place(self) -> int {
        index_place(self.index)
    }
}

impl Placed for WindowView {
    open spec fn place(self) -> int {
        index_place(self.index)
    }
}

impl Ranked for TmuxPane {
    fn place_of(&self) -> (res: i128) {
        match self.index {
            Some(i) => i as i128,
            None => u16::MAX as i128,
        }
    }
}

impl Ranked for TmuxWindow {
    fn place_of(&self) -> (res: i128) {
        match self.index {
            Some(i) => i as i128,
            None => u16::MAX as i128,
        }
    }
}

} // verus!
