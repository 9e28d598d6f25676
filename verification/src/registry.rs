//! The sessions that run, by their ids.
use std::collections::HashMap;
use vstd::prelude::*;

verus! {

/// Whether `ids` lists the members of `set`, each once.
pub open spec fn lists_once(ids: Seq<u128>, set: Set<u128>) -> bool {
    ids.no_duplicates() && ids.to_set() == set
}

/// The keys of a map, in some order.
pub fn key_list<V>(map: &HashMap<u128, V>) -> (res: Vec<u128>)
    ensures
        lists_once(res@, map@.dom()),
{
    broadcast use vstd::std_specs::hash::group_hash_axioms;

    let ghost all = vstd::std_specs::iter::IteratorSpec::remaining(
        &vstd::std_specs::hash::spec_keys_iter(map),
    );
    let ghost keys = all.unref();
    let mut out: Vec<u128> = Vec::new();
    for key in it: map.keys()
        invariant
            it.seq() == all,
            keys == all.unref(),
            out@ == keys.take(it.index()),
    {
        out.push(*key);
        assert(out@ =~= keys.take(it.index() + 1));
    }
    assert(keys.take(keys.len() as int) =~= keys);
    assert forall|i: int, j: int| 0 <= i < j < keys.len() implies keys[i] != keys[j] by {
        assert(all[i] != all[j]);
    }
    out
}

/// The sessions that run, by their ids.
pub struct SessionRegistry<S> {
    inner: HashMap<u128, S>,
}

impl<S> View for SessionRegistry<S> {
    type V = Map<u128, S>;

    closed spec fn view(&self) -> Map<u128, S> {
        self.inner@
    }
}

impl<S> SessionRegistry<S> {
    /// No session runs.
    pub fn new() -> (res: Self)
        ensures
            res@ == Map::<u128, S>::empty(),
    {
        SessionRegistry { inner: HashMap::new() }
    }

    /// All sessions, in some order.
    pub fn list(&self) -> (res: Vec<&S>)
        ensures
            exists|ids: Seq<u128>| #[trigger]
                lists_once(ids, self@.dom()) && res@ == Seq::new(ids.len(), |i: int| &self@[ids[i]]),
    {
        broadcast use vstd::std_specs::hash::group_hash_axioms;

        let ids = key_list(&self.inner);
        let ghost all = Seq::new(ids@.len(), |i: int| &self@[ids@[i]]);
        let mut out: Vec<&S> = Vec::new();
        let mut i: usize = 0;
        while i < ids.len()
            invariant
                lists_once(ids@, self@.dom()),
                all == Seq::new(ids@.len(), |i: int| &self@[ids@[i]]),
                0 <= i <= ids@.len(),
                out@ == all.take(i as int),
            decreases ids@.len() - i,
        {
            assert(ids@.to_set().contains(ids@[i as int]));
            let found = self.inner.get(&ids[i]);
            out.push(found.unwrap());
            assert(out@ =~= all.take(i + 1));
            i += 1;
        }
        assert(all.take(i as int) =~= all);
        assert(lists_once(ids@, self@.dom()));
        out
    }

    /// The session `id`.
    pub fn get(&self, id: u128) -> (res: Option<&S>)
        ensures
            match res {
                Some(session) => self@.dom().contains(id) && *session == self@[id],
                None => !self@.dom().contains(id),
            },
    {
        broadcast use vstd::std_specs::hash::group_hash_axioms;

        self.inner.get(&id)
    }

    /// Has `session` run as the session `id`.
    pub fn insert(&mut self, id: u128, session: S)
        ensures
            final(self)@ == old(self)@.insert(id, session),
    {
        broadcast use vstd::std_specs::hash::group_hash_axioms;

        let _ = self.inner.insert(id, session);
    }

    /// Takes the session `id` out.
    pub fn remove(&mut self, id: u128) -> (res: Option<S>)
        ensures
            final(self)@ == old(self)@.remove(id),
            match res {
                Some(session) => old(self)@.dom().contains(id) && session == old(self)@[id],
                None => !old(self)@.dom().contains(id),
            },
    {
        broadcast use vstd::std_specs::hash::group_hash_axioms;

        let res = self.inner.remove(&id);
        assert(self@ =~= old(self)@.remove(id));
        res
    }

    /// Has `session` run as the session `id` in place of another.
    pub fn replace(&mut self, id: u128, session: S)
        ensures
            final(self)@ == old(self)@.insert(id, session),
    {
        self.insert(id, session);
    }
}

} // verus!
