//! The sessions that are remembered, by their ids.
use vstd::prelude::*;
use crate::launch::{PersistedSession, PersistedView};
use crate::order::{by_place, law_sorting_sorts, sort_by_place, Placed, Ranked};
use crate::registry::{lists_once, SessionRegistry};
use crate::table::{views, TextMap};

verus! {

/// The place of a remembered session: when it was asked for.
impl Placed for PersistedView {
    open spec fn place(self) -> int {
        self.created_at.secs * 0x1_0000_0000 + self.created_at.nanos
    }
}

impl Ranked for PersistedSession {
    fn place_of(&self) -> (res: i128) {
        (self.created_at.secs as i128) * 0x1_0000_0000 + self.created_at.nanos as i128
    }
}

/// The sessions of a list, by their ids. Of two with the same id the later one counts.
pub open spec fn by_id(list: Seq<PersistedView>) -> Map<u128, PersistedView>
    decreases list.len(),
{
    if list.len() == 0 {
        Map::empty()
    } else {
        by_id(list.drop_last()).insert(list.last().id, list.last())
    }
}

/// The sessions with the ids `ids`, in that order.
pub open spec fn listed_by(sessions: Map<u128, PersistedView>, ids: Seq<u128>) -> Seq<
    PersistedView,
> {
    Seq::new(ids.len(), |i: int| sessions[ids[i]])
}

/// Whether `list` holds each of the sessions once.
pub open spec fn lists_sessions(
    list: Seq<PersistedView>,
    sessions: Map<u128, PersistedView>,
) -> bool {
    exists|ids: Seq<u128>| #[trigger]
        lists_once(ids, sessions.dom()) && list == listed_by(sessions, ids)
}

/// Whether `list` holds each of the sessions once, the oldest first.
pub open spec fn lists_by_age(
    list: Seq<PersistedView>,
    sessions: Map<u128, PersistedView>,
) -> bool {
    exists|ids: Seq<u128>| #[trigger]
        lists_once(ids, sessions.dom()) && list == by_place(listed_by(sessions, ids))
}

/// The sessions that are remembered.
pub struct SessionStore {
    sessions: SessionRegistry<PersistedSession>,
}

/// What the sessions of a map hold.
pub open spec fn session_views(map: Map<u128, PersistedSession>) -> Map<u128, PersistedView> {
    Map::new(|id: u128| map.dom().contains(id), |id: u128| map[id]@)
}

impl View for SessionStore {
    type V = Map<u128, PersistedView>;

    closed spec fn view(&self) -> Map<u128, PersistedView> {
        session_views(self.sessions@)
    }
}

impl SessionStore {
    /// Nothing is remembered.
    pub fn new() -> (res: Self)
        ensures
            res@ == Map::<u128, PersistedView>::empty(),
    {
        let res = SessionStore { sessions: SessionRegistry::new() };
        assert(res@ =~= Map::<u128, PersistedView>::empty());
        res
    }

    /// Remembers the sessions of a list.
    pub fn load(list: Vec<PersistedSession>) -> (res: Self)
        ensures
            res@ == by_id(views(list@)),
    {
        let ghost all = views(list@);
        let mut store = SessionStore::new();
        let mut i: usize = 0;
        assert(all.take(0) =~= Seq::<PersistedView>::empty());
        while i < list.len()
            invariant
                all == views(list@),
                0 <= i <= list@.len(),
                store@ == by_id(all.take(i as int)),
            decreases list@.len() - i,
        {
            store.upsert(list[i].copy());
            proof {
                let step = all.take(i + 1);
                assert(step.drop_last() == all.take(i as int));
                assert(step.last() == list@[i as int]@);
            }
            i += 1;
        }
        assert(all.take(i as int) == all);
        store
    }

    /// All sessions, in some order.
    pub fn list(&self) -> (res: Vec<PersistedSession>)
        ensures
            lists_sessions(views(res@), self@),
    {
        let held = self.sessions.list();
        let mut out: Vec<PersistedSession> = Vec::new();
        let mut i: usize = 0;
        while i < held.len()
            invariant
                0 <= i <= held@.len(),
                out@.len() == i,
                forall|j: int| 0 <= j < i ==> (#[trigger] out@[j])@ == held@[j]@,
            decreases held@.len() - i,
        {
            out.push(held[i].copy());
            i += 1;
        }
        proof {
            let map = self.sessions@;
            let ids = choose|ids: Seq<u128>| #[trigger]
                lists_once(ids, map.dom()) && held@ == Seq::new(ids.len(), |i: int| &map[ids[i]]);
            assert(self@.dom() =~= map.dom());
            assert forall|j: int| 0 <= j < ids.len() implies (#[trigger] views(out@)[j])
                == listed_by(self@, ids)[j] by {
                assert(ids.to_set().contains(ids[j]));
                assert(held@[j] == &map[ids[j]]);
            }
            assert(views(out@) =~= listed_by(self@, ids));
            assert(lists_once(ids, self@.dom()));
        }
        out
    }

    /// All sessions, the oldest first.
    pub fn list_by_age(&self) -> (res: Vec<PersistedSession>)
        ensures
            lists_by_age(views(res@), self@),
    {
        let list = self.list();
        let ghost ids = choose|ids: Seq<u128>| #[trigger]
            lists_once(ids, self@.dom()) && views(list@) == listed_by(self@, ids);
        assert(lists_once(ids, self@.dom()));
        sort_by_place(list)
    }

    /// Remembers a session.
    pub fn upsert(&mut self, session: PersistedSession)
        ensures
            final(self)@ == old(self)@.insert(session@.id, session@),
    {
        let id: u128 = session.id;
        self.sessions.insert(id, session);
        assert(self@ =~= old(self)@.insert(session@.id, session@));
    }

    /// Forgets the session `id`.
    pub fn remove(&mut self, id: u128)
        ensures
            final(self)@ == old(self)@.remove(id),
    {
        let _ = self.sessions.remove(id);
        assert(self@ =~= old(self)@.remove(id));
    }

    /// Remembers what was noted down about the panes of the session `id`; says whether it is
    /// remembered at all.
    pub fn update_notes(&mut self, id: u128, pane_notes: TextMap<String>) -> (res: bool)
        ensures
            res == old(self)@.dom().contains(id),
            final(self)@ == if res {
                old(self)@.insert(id, PersistedView { notes: pane_notes@, ..old(self)@[id] })
            } else {
                old(self)@
            },
    {
        match self.sessions.remove(id) {
            Some(session) => {
                let mut session = session;
                session.pane_notes = pane_notes;
                self.sessions.insert(id, session);
                assert(self@ =~= old(self)@.insert(
                    id,
                    PersistedView { notes: pane_notes@, ..old(self)@[id] },
                ));
                true
            },
            None => {
                assert(self@ =~= old(self)@);
                false
            },
        }
    }

    /// Remembers how large the terminal of the session `id` is; says whether it is remembered at
    /// all.
    pub fn update_size(&mut self, id: u128, cols: u16, rows: u16) -> (res: bool)
        ensures
            res == old(self)@.dom().contains(id),
            final(self)@ == if res {
                old(self)@.insert(id, PersistedView { cols, rows, ..old(self)@[id] })
            } else {
                old(self)@
            },
    {
        match self.sessions.remove(id) {
            Some(session) => {
                let mut session = session;
                session.cols = cols;
                session.rows = rows;
                self.sessions.insert(id, session);
                assert(self@ =~= old(self)@.insert(
                    id,
                    PersistedView { cols, rows, ..old(self)@[id] },
                ));
                true
            },
            None => {
                assert(self@ =~= old(self)@);
                false
            },
        }
    }
}

// ---------------------------------------------------------------------------
// Laws
// ---------------------------------------------------------------------------

/// Whether each session is filed under its own id.
pub open spec fn filed_by_id(sessions: Map<u128, PersistedView>) -> bool {
    forall|id: u128| #[trigger] sessions.dom().contains(id) ==> sessions[id].id == id
}

/// Sessions are filed under their own ids, and stay so whatever is done to the store.
pub proof fn law_sessions_are_filed_by_id(
    list: Seq<PersistedView>,
    sessions: Map<u128, PersistedView>,
    session: PersistedView,
    id: u128,
)
    requires
        filed_by_id(sessions),
    ensures
        filed_by_id(by_id(list)),
        filed_by_id(sessions.insert(session.id, session)),
        filed_by_id(sessions.remove(id)),
        sessions.dom().contains(id) ==> filed_by_id(
            sessions.insert(id, PersistedView { notes: session.notes, ..sessions[id] }),
        ),
        sessions.dom().contains(id) ==> filed_by_id(
            sessions.insert(
                id,
                PersistedView { cols: session.cols, rows: session.rows, ..sessions[id] },
            ),
        ),
    decreases list.len(),
{
    if list.len() > 0 {
        law_sessions_are_filed_by_id(list.drop_last(), sessions, session, id);
    }
}

proof fn lemma_by_id(list: Seq<PersistedView>, id: u128)
    ensures
        by_id(list).dom().contains(id) <==> exists|i: int|
            0 <= i < list.len() && (#[trigger] list[i]).id == id,
        by_id(list).dom().contains(id) ==> list.contains(by_id(list)[id]) && by_id(list)[id].id
            == id,
    decreases list.len(),
{
    if list.len() > 0 {
        let before = list.drop_last();
        lemma_by_id(before, id);
        if list.last().id == id {
            assert(list[list.len() - 1].id == id);
            assert(list.contains(list[list.len() - 1]));
        } else if by_id(before).dom().contains(id) {
            let i = choose|i: int| 0 <= i < before.len() && (#[trigger] before[i]).id == id;
            assert(list[i].id == id);
            let k = choose|k: int| 0 <= k < before.len() && before[k] == by_id(before)[id];
            assert(list[k] == by_id(before)[id]);
        }
        if exists|i: int| 0 <= i < list.len() && (#[trigger] list[i]).id == id {
            let i = choose|i: int| 0 <= i < list.len() && (#[trigger] list[i]).id == id;
            if i < list.len() - 1 {
                assert(before[i].id == id);
            }
        }
    }
}

/// What is written down of the store is read back as the same store.
pub proof fn law_store_survives_a_restart(
    sessions: Map<u128, PersistedView>,
    list: Seq<PersistedView>,
)
    requires
        filed_by_id(sessions),
        lists_by_age(list, sessions),
    ensures
        by_id(list) == sessions,
{
    broadcast use vstd::seq_lib::group_to_multiset_ensures;

    let ids = choose|ids: Seq<u128>| #[trigger]
        lists_once(ids, sessions.dom()) && list == by_place(listed_by(sessions, ids));
    let plain = listed_by(sessions, ids);
    law_sorting_sorts(plain);
    assert forall|id: u128| #[trigger]
        by_id(list).dom().contains(id) == sessions.dom().contains(id) && (sessions.dom().contains(
            id,
        ) ==> by_id(list)[id] == sessions[id]) by {
        lemma_by_id(list, id);
        if by_id(list).dom().contains(id) {
            let found = by_id(list)[id];
            assert(list.to_multiset().count(found) > 0);
            assert(plain.contains(found));
            let k = choose|k: int| 0 <= k < plain.len() && plain[k] == found;
            assert(ids.to_set().contains(ids[k]));
        }
        if sessions.dom().contains(id) {
            assert(ids.to_set().contains(id));
            let k = choose|k: int| 0 <= k < ids.len() && ids[k] == id;
            assert(plain[k] == sessions[id]);
            assert(plain.contains(plain[k]));
            assert(plain.to_multiset().count(plain[k]) > 0);
            assert(list.contains(plain[k]));
            let m = choose|m: int| 0 <= m < list.len() && list[m] == plain[k];
            assert(list[m].id == id);
        }
    }
    assert(by_id(list) =~= sessions);
}

/// The store is written down with the oldest session first.
pub proof fn law_oldest_session_comes_first(
    sessions: Map<u128, PersistedView>,
    list: Seq<PersistedView>,
    i: int,
    j: int,
)
    requires
        lists_by_age(list, sessions),
        0 <= i <= j < list.len(),
    ensures
        list[i].created_at.no_later(list[j].created_at),
{
    let ids = choose|ids: Seq<u128>| #[trigger]
        lists_once(ids, sessions.dom()) && list == by_place(listed_by(sessions, ids));
    law_sorting_sorts(listed_by(sessions, ids));
    assert(list[i].place() <= list[j].place());
}

} // verus!
