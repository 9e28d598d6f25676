//! Maps and sets keyed by text, kept in the order of their keys.
use vstd::prelude::*;
use crate::text::{chars_of, Text};

verus! {

// ---------------------------------------------------------------------------
// The order of texts
// ---------------------------------------------------------------------------

/// The order of texts: by the first character that differs; a proper prefix comes first.
pub open spec fn text_lt(a: Text, b: Text) -> bool
    decreases a.len(),
{
    if b.len() == 0 {
        false
    } else if a.len() == 0 {
        true
    } else if a[0] != b[0] {
        a[0] < b[0]
    } else {
        text_lt(a.drop_first(), b.drop_first())
    }
}

/// No text comes before itself.
pub proof fn lemma_text_lt_irreflexive(a: Text)
    ensures
        !text_lt(a, a),
    decreases a.len(),
{
    if a.len() > 0 {
        lemma_text_lt_irreflexive(a.drop_first());
    }
}

/// The order of texts is transitive.
pub proof fn lemma_text_lt_transitive(a: Text, b: Text, c: Text)
    requires
        text_lt(a, b),
        text_lt(b, c),
    ensures
        text_lt(a, c),
    decreases a.len(),
{
    if a.len() > 0 && a[0] == b[0] && b[0] == c[0] {
        lemma_text_lt_transitive(a.drop_first(), b.drop_first(), c.drop_first());
    }
}

/// Of two different texts one comes first.
pub proof fn lemma_text_lt_total(a: Text, b: Text)
    ensures
        a == b || text_lt(a, b) || text_lt(b, a),
    decreases a.len(),
{
    if a.len() == 0 {
        if b.len() == 0 {
            assert(a == b);
        }
    } else if b.len() > 0 && a[0] == b[0] {
        lemma_text_lt_total(a.drop_first(), b.drop_first());
        if a.drop_first() == b.drop_first() {
            assert(a == seq![a[0]] + a.drop_first());
            assert(b == seq![b[0]] + b.drop_first());
        }
    }
}

/// How one text stands to another.
#[derive(Clone, Copy, Debug, PartialEq, Eq, Structural)]
pub enum TextOrder {
    /// It comes first.
    Before,
    /// It is the same.
    Same,
    /// It comes later.
    After,
}

/// How `a` stands to `b`.
pub fn text_order(a: &str, b: &str) -> (res: TextOrder)
    ensures
        match res {
            TextOrder::Before => text_lt(a@, b@),
            TextOrder::Same => a@ == b@,
            TextOrder::After => text_lt(b@, a@),
        },
{
    let x = chars_of(a);
    let y = chars_of(b);
    let mut i: usize = 0;
    assert(a@.skip(0) == a@);
    assert(b@.skip(0) == b@);
    while i < x.len() && i < y.len()
        invariant
            x@ == a@,
            y@ == b@,
            0 <= i <= a@.len(),
            i <= b@.len(),
            forall|j: int| 0 <= j < i ==> a@[j] == b@[j],
            text_lt(a@, b@) == text_lt(a@.skip(i as int), b@.skip(i as int)),
            text_lt(b@, a@) == text_lt(b@.skip(i as int), a@.skip(i as int)),
        decreases a@.len() - i,
    {
        if x[i] < y[i] {
            return TextOrder::Before;
        }
        if y[i] < x[i] {
            return TextOrder::After;
        }
        assert(a@.skip(i as int).drop_first() == a@.skip(i + 1));
        assert(b@.skip(i as int).drop_first() == b@.skip(i + 1));
        i += 1;
    }
    if i < y.len() {
        TextOrder::Before
    } else if i < x.len() {
        TextOrder::After
    } else {
        assert(a@ == b@);
        TextOrder::Same
    }
}

/// Strictly ascending.
pub open spec fn ascending(keys: Seq<Text>) -> bool {
    forall|i: int, j: int| 0 <= i < j < keys.len() ==> text_lt(#[trigger] keys[i], #[trigger] keys[j])
}

/// The members of a set of texts in ascending order.
pub open spec fn in_order(set: Set<Text>) -> Seq<Text> {
    choose|keys: Seq<Text>| ascending(keys) && #[trigger] keys.to_set() == set
}

proof fn lemma_ascending_unique(a: Seq<Text>, b: Seq<Text>)
    requires
        ascending(a),
        ascending(b),
        a.to_set() == b.to_set(),
    ensures
        a == b,
    decreases a.len(),
{
    if a.len() == 0 || b.len() == 0 {
        if a.len() > 0 {
            assert(a.to_set().contains(a[0]));
            assert(false);
        }
        if b.len() > 0 {
            assert(b.to_set().contains(b[0]));
            assert(false);
        }
        assert(a == b);
    } else {
        let x = a.last();
        let y = b.last();
        assert(a.to_set().contains(x));
        assert(b.to_set().contains(y));
        let i = choose|i: int| 0 <= i < b.len() && b[i] == x;
        let j = choose|j: int| 0 <= j < a.len() && a[j] == y;
        assert(x == y) by {
            if x != y {
                assert(text_lt(b[i], b[b.len() - 1]));
                assert(text_lt(a[j], a[a.len() - 1]));
                lemma_text_lt_transitive(x, y, x);
                lemma_text_lt_irreflexive(x);
            }
        }
        assert forall|t: Text| a.drop_last().to_set().contains(t) == b.drop_last().to_set().contains(
            t,
        ) by {
            lemma_text_lt_irreflexive(t);
            if a.drop_last().to_set().contains(t) {
                let k = choose|k: int| 0 <= k < a.drop_last().len() && a.drop_last()[k] == t;
                assert(a[k] == t);
                assert(text_lt(a[k], a[a.len() - 1]));
                assert(a.to_set().contains(t));
                let m = choose|m: int| 0 <= m < b.len() && b[m] == t;
                assert(b.drop_last()[m] == t);
            }
            if b.drop_last().to_set().contains(t) {
                let k = choose|k: int| 0 <= k < b.drop_last().len() && b.drop_last()[k] == t;
                assert(b[k] == t);
                assert(text_lt(b[k], b[b.len() - 1]));
                assert(b.to_set().contains(t));
                let m = choose|m: int| 0 <= m < a.len() && a[m] == t;
                assert(a.drop_last()[m] == t);
            }
        }
        assert(a.drop_last().to_set() == b.drop_last().to_set());
        lemma_ascending_unique(a.drop_last(), b.drop_last());
        assert(a == a.drop_last().push(x));
        assert(b == b.drop_last().push(y));
    }
}

/// An ascending list of the members of a set is that set in order.
pub proof fn lemma_in_order(keys: Seq<Text>, set: Set<Text>)
    requires
        ascending(keys),
        keys.to_set() == set,
    ensures
        in_order(set) == keys,
{
    lemma_ascending_unique(in_order(set), keys);
}

/// An ascending list holds no text twice.
pub proof fn lemma_ascending_distinct(keys: Seq<Text>, i: int, j: int)
    requires
        ascending(keys),
        0 <= i < keys.len(),
        0 <= j < keys.len(),
        keys[i] == keys[j],
    ensures
        i == j,
{
    lemma_text_lt_irreflexive(keys[i]);
}

proof fn lemma_key_inserted(keys: Seq<Text>, key: Text) -> (res: Seq<Text>)
    requires
        ascending(keys),
        !keys.to_set().contains(key),
    ensures
        ascending(res),
        res.to_set() == keys.to_set().insert(key),
    decreases keys.len(),
{
    if keys.len() == 0 {
        let res = seq![key];
        lemma_push_to_set(keys, key);
        assert(keys.push(key) =~= res);
        res
    } else {
        let last = keys.last();
        assert(keys.to_set().contains(last));
        lemma_text_lt_total(last, key);
        if text_lt(last, key) {
            let res = keys.push(key);
            lemma_push_to_set(keys, key);
            assert forall|i: int, j: int| 0 <= i < j < res.len() implies text_lt(
                #[trigger] res[i],
                #[trigger] res[j],
            ) by {
                if j == keys.len() && i < keys.len() - 1 {
                    assert(text_lt(keys[i], keys[keys.len() - 1]));
                    lemma_text_lt_transitive(keys[i], last, key);
                }
            }
            res
        } else {
            let before = keys.drop_last();
            assert(before.push(last) =~= keys);
            lemma_push_to_set(before, last);
            assert forall|i: int, j: int| 0 <= i < j < before.len() implies text_lt(
                #[trigger] before[i],
                #[trigger] before[j],
            ) by {
                assert(text_lt(keys[i], keys[j]));
            }
            let inner = lemma_key_inserted(before, key);
            let res = inner.push(last);
            lemma_push_to_set(inner, last);
            assert forall|i: int, j: int| 0 <= i < j < res.len() implies text_lt(
                #[trigger] res[i],
                #[trigger] res[j],
            ) by {
                if j < inner.len() {
                    assert(text_lt(inner[i], inner[j]));
                } else {
                    assert(inner.to_set().contains(inner[i]));
                    if inner[i] != key {
                        assert(before.to_set().contains(inner[i]));
                        let k = choose|k: int| 0 <= k < before.len() && before[k] == inner[i];
                        assert(text_lt(keys[k], keys[keys.len() - 1]));
                    }
                }
            }
            assert(res.to_set() =~= keys.to_set().insert(key));
            res
        }
    }
}

proof fn lemma_ordered(set: Set<Text>) -> (res: Seq<Text>)
    requires
        set.finite(),
    ensures
        ascending(res),
        res.to_set() == set,
    decreases set.len(),
{
    if set.len() == 0 {
        let res: Seq<Text> = seq![];
        assert(res.to_set() =~= set);
        res
    } else {
        let key = set.choose();
        let rest = lemma_ordered(set.remove(key));
        let res = lemma_key_inserted(rest, key);
        assert(res.to_set() =~= set);
        res
    }
}

/// A finite set in order is an ascending list of its members.
pub proof fn lemma_in_order_lists(set: Set<Text>)
    requires
        set.finite(),
    ensures
        ascending(in_order(set)),
        in_order(set).to_set() == set,
{
    let keys = lemma_ordered(set);
    lemma_in_order(keys, set);
}

/// What the members of a list hold.
pub open spec fn views<T: View>(list: Seq<T>) -> Seq<T::V> {
    Seq::new(list.len(), |i: int| list[i]@)
}

/// The members of `list`, the last one first.
pub fn reversed<T>(list: Vec<T>) -> (res: Vec<T>)
    ensures
        res@ == list@.reverse(),
{
    let ghost all = list@;
    let mut rest = list;
    let mut out: Vec<T> = Vec::new();
    while rest.len() > 0
        invariant
            rest@.len() + out@.len() == all.len(),
            rest@ == all.take(rest@.len() as int),
            forall|i: int| 0 <= i < out@.len() ==> out@[i] == all[all.len() - 1 - i],
        decreases rest@.len(),
    {
        let x = rest.pop().unwrap();
        out.push(x);
    }
    assert(out@ =~= all.reverse());
    out
}

// ---------------------------------------------------------------------------
// Maps
// ---------------------------------------------------------------------------

/// A map from text to values, kept in the order of its keys.
pub struct TextMap<V> {
    entries: Vec<(String, V)>,
}

/// The keys of a list of entries.
pub open spec fn entry_keys<V>(entries: Seq<(String, V)>) -> Seq<Text> {
    Seq::new(entries.len(), |i: int| entries[i].0@)
}

/// Where `key` stands in a list of entries.
pub open spec fn entry_index<V>(entries: Seq<(String, V)>, key: Text) -> int {
    choose|i: int| 0 <= i < entries.len() && #[trigger] entries[i].0@ == key
}

/// The map that a list of entries stands for.
pub open spec fn entry_map<V: View>(entries: Seq<(String, V)>) -> Map<Text, V::V> {
    Map::new(
        |k: Text| exists|i: int| 0 <= i < entries.len() && #[trigger] entries[i].0@ == k,
        |k: Text| entries[entry_index(entries, k)].1@,
    )
}

/// The values of a map, in the order of their keys.
pub open spec fn in_key_order<V>(map: Map<Text, V>) -> Seq<V> {
    let keys = in_order(map.dom());
    Seq::new(keys.len(), |i: int| map[keys[i]])
}

impl<V: View> View for TextMap<V> {
    type V = Map<Text, V::V>;

    closed spec fn view(&self) -> Map<Text, V::V> {
        entry_map(self.entries@)
    }
}

proof fn lemma_entry_at<V: View>(entries: Seq<(String, V)>, i: int)
    requires
        ascending(entry_keys(entries)),
        0 <= i < entries.len(),
    ensures
        entry_map(entries).dom().contains(entries[i].0@),
        entry_map(entries)[entries[i].0@] == entries[i].1@,
{
    let k = entries[i].0@;
    let j = entry_index(entries, k);
    let keys = entry_keys(entries);
    assert(keys[i] == k && keys[j] == k);
    lemma_ascending_distinct(keys, i, j);
}

proof fn lemma_entry_dom<V: View>(entries: Seq<(String, V)>)
    ensures
        entry_keys(entries).to_set() == entry_map(entries).dom(),
{
    let keys = entry_keys(entries);
    assert forall|k: Text| keys.to_set().contains(k) == entry_map(entries).dom().contains(k) by {
        if keys.to_set().contains(k) {
            let i = choose|i: int| 0 <= i < keys.len() && keys[i] == k;
            assert(entries[i].0@ == k);
        }
        if entry_map(entries).dom().contains(k) {
            let i = choose|i: int| 0 <= i < entries.len() && #[trigger] entries[i].0@ == k;
            assert(keys[i] == k);
        }
    }
    assert(keys.to_set() =~= entry_map(entries).dom());
}

impl<V> TextMap<V> {
    #[verifier::type_invariant]
    spec fn in_key_order(self) -> bool {
        ascending(entry_keys(self.entries@))
    }
}

impl<V: View> TextMap<V> {
    /// The empty map.
    pub fn new() -> (res: Self)
        ensures
            res@ == Map::<Text, V::V>::empty(),
    {
        let res = TextMap { entries: Vec::new() };
        assert(res@ =~= Map::<Text, V::V>::empty());
        res
    }

    /// Where `key` stands (`Ok`), or where it would have to stand (`Err`).
    fn seek(&self, key: &str) -> (res: Result<usize, usize>)
        ensures
            match res {
                Ok(i) => i < self.entries@.len() && self.entries@[i as int].0@ == key@,
                Err(i) => {
                    &&& i <= self.entries@.len()
                    &&& forall|j: int|
                        0 <= j < i ==> text_lt(#[trigger] self.entries@[j].0@, key@)
                    &&& forall|j: int|
                        i <= j < self.entries@.len() ==> text_lt(
                            key@,
                            #[trigger] self.entries@[j].0@,
                        )
                },
            },
    {
        proof {
            use_type_invariant(self);
        }
        let mut i: usize = 0;
        while i < self.entries.len()
            invariant
                ascending(entry_keys(self.entries@)),
                0 <= i <= self.entries@.len(),
                forall|j: int| 0 <= j < i ==> text_lt(#[trigger] self.entries@[j].0@, key@),
            decreases self.entries@.len() - i,
        {
            match text_order(self.entries[i].0.as_str(), key) {
                TextOrder::Before => {
                    i += 1;
                },
                TextOrder::Same => {
                    return Ok(i);
                },
                TextOrder::After => {
                    proof {
                        let keys = entry_keys(self.entries@);
                        assert forall|j: int| i <= j < self.entries@.len() implies text_lt(
                            key@,
                            #[trigger] self.entries@[j].0@,
                        ) by {
                            if j > i {
                                assert(text_lt(keys[i as int], keys[j]));
                                lemma_text_lt_transitive(key@, keys[i as int], keys[j]);
                            }
                        }
                    }
                    return Err(i);
                },
            }
        }
        Err(i)
    }

    /// The value of `key`.
    pub fn get(&self, key: &str) -> (res: Option<&V>)
        ensures
            match res {
                Some(v) => self@.dom().contains(key@) && v@ == self@[key@],
                None => !self@.dom().contains(key@),
            },
    {
        proof {
            use_type_invariant(self);
        }
        match self.seek(key) {
            Ok(i) => {
                proof {
                    lemma_entry_at(self.entries@, i as int);
                }
                Some(&self.entries[i].1)
            },
            Err(i) => {
                proof {
                    lemma_absent(self.entries@, key@, i as int);
                }
                None
            },
        }
    }

    /// Whether `key` has a value.
    pub fn contains_key(&self, key: &str) -> (res: bool)
        ensures
            res == self@.dom().contains(key@),
    {
        self.get(key).is_some()
    }

    /// Whether no key has a value.
    pub fn is_empty(&self) -> (res: bool)
        ensures
            res == (self@ == Map::<Text, V::V>::empty()),
    {
        let res = self.entries.len() == 0;
        proof {
            if res {
                assert(self@ =~= Map::<Text, V::V>::empty());
            } else {
                assert(self.entries@[0].0@ == self.entries@[0].0@);
                assert(self@.dom().contains(self.entries@[0].0@));
            }
        }
        res
    }

    /// Gives `key` the value `value`.
    pub fn insert(&mut self, key: String, value: V)
        ensures
            final(self)@ == old(self)@.insert(key@, value@),
    {
        proof {
            use_type_invariant(&*self);
        }
        let place = self.seek(key.as_str());
        let ghost before = self.entries@;
        let ghost name = key@;
        let ghost shown = value@;
        let mut entries: Vec<(String, V)> = Vec::new();
        core::mem::swap(&mut entries, &mut self.entries);
        match place {
            Ok(i) => {
                entries.set(i, (key, value));
                proof {
                    lemma_overwrite(before, entries@, i as int);
                }
            },
            Err(i) => {
                entries.insert(i, (key, value));
                proof {
                    lemma_insert(before, entries@, i as int);
                }
            },
        }
        self.entries = entries;
    }

    /// Takes the value of `key` away.
    pub fn remove(&mut self, key: &str) -> (res: Option<V>)
        ensures
            final(self)@ == old(self)@.remove(key@),
            match res {
                Some(v) => old(self)@.dom().contains(key@) && v@ == old(self)@[key@],
                None => !old(self)@.dom().contains(key@),
            },
    {
        proof {
            use_type_invariant(&*self);
        }
        let place = self.seek(key);
        let ghost before = self.entries@;
        match place {
            Ok(i) => {
                let mut entries: Vec<(String, V)> = Vec::new();
                core::mem::swap(&mut entries, &mut self.entries);
                let taken = entries.remove(i);
                proof {
                    lemma_entry_at(before, i as int);
                    lemma_remove(before, entries@, i as int);
                }
                self.entries = entries;
                Some(taken.1)
            },
            Err(i) => {
                proof {
                    lemma_absent(before, key@, i as int);
                    assert(self@.remove(key@) =~= self@);
                }
                None
            },
        }
    }

    /// How many keys have a value.
    pub fn len(&self) -> (res: usize)
        ensures
            res == in_order(self@.dom()).len(),
            in_order(self@.dom()).to_set() == self@.dom(),
    {
        proof {
            use_type_invariant(self);
            lemma_entry_dom(self.entries@);
            lemma_in_order(entry_keys(self.entries@), self@.dom());
        }
        self.entries.len()
    }

    /// The entry in place `i` of the key order.
    pub fn entry(&self, i: usize) -> (res: (&String, &V))
        requires
            i < in_order(self@.dom()).len(),
        ensures
            res.0@ == in_order(self@.dom())[i as int],
            self@.dom().contains(res.0@),
            res.1@ == self@[res.0@],
    {
        proof {
            use_type_invariant(self);
            lemma_entry_dom(self.entries@);
            lemma_in_order(entry_keys(self.entries@), self@.dom());
            lemma_entry_at(self.entries@, i as int);
        }
        (&self.entries[i].0, &self.entries[i].1)
    }

    /// All entries, in the order of their keys.
    pub fn into_entries(self) -> (res: Vec<(String, V)>)
        ensures
            entry_keys(res@) == in_order(self@.dom()),
            ascending(entry_keys(res@)),
            entry_keys(res@).to_set() == self@.dom(),
            forall|i: int|
                0 <= i < res@.len() ==> #[trigger] res@[i].1@ == self@[res@[i].0@]
                    && self@.dom().contains(res@[i].0@),
    {
        proof {
            use_type_invariant(&self);
            lemma_entry_dom(self.entries@);
            lemma_in_order(entry_keys(self.entries@), self@.dom());
            assert forall|i: int| 0 <= i < self.entries@.len() implies (
            #[trigger] self.entries@[i]).1@ == self@[self.entries@[i].0@] && self@.dom().contains(
                self.entries@[i].0@,
            ) by {
                lemma_entry_at(self.entries@, i);
            }
        }
        self.entries
    }
}

impl<V: View> TextMap<V> {
    /// All values, in the order of their keys.
    pub fn into_values(self) -> (res: Vec<V>)
        ensures
            views(res@) == in_key_order(self@),
            in_order(self@.dom()).to_set() == self@.dom(),
    {
        let ghost map = self@;
        let mut entries = self.into_entries();
        let ghost all = entries@;
        let mut last_first: Vec<V> = Vec::new();
        while entries.len() > 0
            invariant
                entries@.len() + last_first@.len() == all.len(),
                entries@ == all.take(entries@.len() as int),
                forall|i: int|
                    0 <= i < last_first@.len() ==> last_first@[i] == all[all.len() - 1 - i].1,
            decreases entries@.len(),
        {
            let (_key, value) = entries.pop().unwrap();
            last_first.push(value);
        }
        let ghost held = last_first@;
        let out = reversed(last_first);
        assert forall|i: int| 0 <= i < all.len() implies (#[trigger] out@[i])@ == in_key_order(
            map,
        )[i] by {
            assert(out@[i] == held[all.len() - 1 - i]);
            assert(out@[i] == all[i].1);
            assert(entry_keys(all)[i] == all[i].0@);
        }
        assert(views(out@) =~= in_key_order(map));
        out
    }
}

impl TextMap<String> {
    /// A copy of a map from text to text.
    pub fn copy(&self) -> (res: Self)
        ensures
            res@ == self@,
    {
        let mut out: TextMap<String> = TextMap::new();
        let count: usize = self.len();
        let ghost keys = in_order(self@.dom());
        let mut i: usize = 0;
        while i < count
            invariant
                keys == in_order(self@.dom()),
                keys.to_set() == self@.dom(),
                count == keys.len(),
                0 <= i <= count,
                out@ == self@.restrict(keys.take(i as int).to_set()),
            decreases count - i,
        {
            let (k, v) = self.entry(i);
            out.insert(k.clone(), v.clone());
            proof {
                assert(keys.take(i + 1) == keys.take(i as int).push(keys[i as int]));
                lemma_push_to_set(keys.take(i as int), keys[i as int]);
                assert(out@ =~= self@.restrict(keys.take(i + 1).to_set()));
            }
            i += 1;
        }
        proof {
            assert(keys.take(count as int) == keys);
            assert(out@ =~= self@);
        }
        out
    }
}

/// Appending to a list adds one member to its set.
pub proof fn lemma_push_to_set<T>(s: Seq<T>, x: T)
    ensures
        s.push(x).to_set() == s.to_set().insert(x),
{
    assert forall|y: T| s.push(x).to_set().contains(y) == s.to_set().insert(x).contains(y) by {
        if s.to_set().contains(y) {
            let i = choose|i: int| 0 <= i < s.len() && s[i] == y;
            assert(s.push(x)[i] == y);
        }
        if y == x {
            assert(s.push(x)[s.len() as int] == y);
        }
    }
    assert(s.push(x).to_set() =~= s.to_set().insert(x));
}

/// Going one place further back in a list adds one member to its set.
pub proof fn lemma_skip_to_set<T>(s: Seq<T>, n: int)
    requires
        0 <= n < s.len(),
    ensures
        s.skip(n).to_set() == s.skip(n + 1).to_set().insert(s[n]),
{
    let long = s.skip(n);
    let short = s.skip(n + 1);
    assert forall|t: T| long.to_set().contains(t) == short.to_set().insert(s[n]).contains(t) by {
        if long.to_set().contains(t) {
            let j = choose|j: int| 0 <= j < long.len() && long[j] == t;
            if j > 0 {
                assert(short[j - 1] == t);
            }
        }
        if short.to_set().contains(t) {
            let j = choose|j: int| 0 <= j < short.len() && short[j] == t;
            assert(long[j + 1] == t);
        }
        if t == s[n] {
            assert(long[0] == t);
        }
    }
    assert(long.to_set() =~= short.to_set().insert(s[n]));
}

impl<V: View> TextMap<V> {
    /// Takes away every key that is not in `keep`.
    pub fn retain(&mut self, keep: &TextSet)
        ensures
            final(self)@ == old(self)@.restrict(keep@),
    {
        let mut old_map: TextMap<V> = TextMap::new();
        core::mem::swap(&mut old_map, self);
        let ghost before = old_map@;
        let mut entries = old_map.into_entries();
        let ghost all = entries@;
        let ghost keys = entry_keys(all);
        assert(keys.skip(keys.len() as int).to_set() =~= Set::<Text>::empty());
        assert(self@ =~= before.restrict(keep@.intersect(keys.skip(entries@.len() as int).to_set())));
        while entries.len() > 0
            invariant
                keys == entry_keys(all),
                keys.to_set() == before.dom(),
                entries@.len() <= all.len(),
                entries@ == all.take(entries@.len() as int),
                forall|i: int|
                    0 <= i < all.len() ==> #[trigger] all[i].1@ == before[all[i].0@]
                        && before.dom().contains(all[i].0@),
                self@ == before.restrict(
                    keep@.intersect(keys.skip(entries@.len() as int).to_set()),
                ),
            decreases entries@.len(),
        {
            let ghost n = entries@.len() as int;
            let last = entries.pop().unwrap();
            assert(last == all[n - 1]);
            proof {
                lemma_skip_to_set(keys, n - 1);
            }
            if keep.contains(last.0.as_str()) {
                self.insert(last.0, last.1);
            }
            assert(self@ =~= before.restrict(keep@.intersect(keys.skip(n - 1).to_set())));
        }
        assert(keys.skip(0) == keys);
        assert(self@ =~= before.restrict(keep@));
    }
}

// ---------------------------------------------------------------------------
// Sets
// ---------------------------------------------------------------------------

/// A set of texts.
pub struct TextSet {
    map: TextMap<()>,
}

impl View for TextSet {
    type V = Set<Text>;

    closed spec fn view(&self) -> Set<Text> {
        self.map@.dom()
    }
}

impl TextSet {
    /// The empty set.
    pub fn new() -> (res: Self)
        ensures
            res@ == Set::<Text>::empty(),
    {
        TextSet { map: TextMap::new() }
    }

    /// Whether `key` is a member.
    pub fn contains(&self, key: &str) -> (res: bool)
        ensures
            res == self@.contains(key@),
    {
        self.map.contains_key(key)
    }

    /// Whether there is no member.
    pub fn is_empty(&self) -> (res: bool)
        ensures
            res == (self@ == Set::<Text>::empty()),
    {
        let res = self.map.is_empty();
        proof {
            if self@ == Set::<Text>::empty() {
                assert(self.map@ =~= Map::<Text, ()>::empty());
            }
        }
        res
    }

    /// Adds a member.
    pub fn insert(&mut self, key: String)
        ensures
            final(self)@ == old(self)@.insert(key@),
    {
        self.map.insert(key, ());
    }

    /// Takes a member away; tells whether it was there.
    pub fn remove(&mut self, key: &str) -> (res: bool)
        ensures
            final(self)@ == old(self)@.remove(key@),
            res == old(self)@.contains(key@),
    {
        self.map.remove(key).is_some()
    }
}

proof fn lemma_absent<V: View>(entries: Seq<(String, V)>, key: Text, at: int)
    requires
        0 <= at <= entries.len(),
        forall|j: int| 0 <= j < at ==> text_lt(#[trigger] entries[j].0@, key),
        forall|j: int| at <= j < entries.len() ==> text_lt(key, #[trigger] entries[j].0@),
    ensures
        !entry_map(entries).dom().contains(key),
{
    lemma_text_lt_irreflexive(key);
}

proof fn lemma_overwrite<V: View>(before: Seq<(String, V)>, after: Seq<(String, V)>, at: int)
    requires
        ascending(entry_keys(before)),
        0 <= at < before.len(),
        after == before.update(at, after[at]),
        after[at].0@ == before[at].0@,
    ensures
        ascending(entry_keys(after)),
        entry_map(after) == entry_map(before).insert(after[at].0@, after[at].1@),
{
    assert(entry_keys(after) =~= entry_keys(before));
    let bk = entry_keys(before);
    let key = after[at].0@;
    let map = entry_map(before).insert(key, after[at].1@);
    assert forall|i: int| 0 <= i < after.len() implies map.dom().contains((#[trigger] after[i]).0@)
        && map[after[i].0@] == after[i].1@ by {
        if i != at {
            assert(after[i] == before[i]);
            lemma_entry_at(before, i);
            if bk[i] == key {
                lemma_ascending_distinct(bk, i, at);
            }
        }
    }
    assert forall|k: Text| #[trigger] map.dom().contains(k) implies exists|i: int|
        0 <= i < after.len() && #[trigger] after[i].0@ == k by {
        if k == key {
            assert(after[at].0@ == k);
        } else {
            let j = choose|j: int| 0 <= j < before.len() && #[trigger] before[j].0@ == k;
            assert(after[j].0@ == k);
        }
    }
    lemma_same_map(after, map);
}

proof fn lemma_same_map<V: View>(entries: Seq<(String, V)>, map: Map<Text, V::V>)
    requires
        ascending(entry_keys(entries)),
    ensures
        (forall|i: int|
            0 <= i < entries.len() ==> map.dom().contains((#[trigger] entries[i]).0@)
                && map[entries[i].0@] == entries[i].1@) && (forall|k: Text|
            #[trigger] map.dom().contains(k) ==> exists|i: int|
                0 <= i < entries.len() && #[trigger] entries[i].0@ == k) ==> entry_map(entries)
            == map,
{
    if (forall|i: int|
        0 <= i < entries.len() ==> map.dom().contains((#[trigger] entries[i]).0@)
            && map[entries[i].0@] == entries[i].1@) && (forall|k: Text|
        #[trigger] map.dom().contains(k) ==> exists|i: int|
            0 <= i < entries.len() && #[trigger] entries[i].0@ == k) {
        assert forall|k: Text| entry_map(entries).dom().contains(k) == map.dom().contains(k) by {}
        assert forall|k: Text| map.dom().contains(k) implies entry_map(entries)[k] == map[k] by {
            let i = choose|i: int| 0 <= i < entries.len() && #[trigger] entries[i].0@ == k;
            lemma_entry_at(entries, i);
        }
        assert(entry_map(entries) =~= map);
    }
}

proof fn lemma_insert<V: View>(before: Seq<(String, V)>, after: Seq<(String, V)>, at: int)
    requires
        ascending(entry_keys(before)),
        0 <= at <= before.len(),
        at < after.len(),
        after == before.insert(at, after[at]),
        forall|j: int| 0 <= j < at ==> text_lt(#[trigger] before[j].0@, after[at].0@),
        forall|j: int| at <= j < before.len() ==> text_lt(after[at].0@, #[trigger] before[j].0@),
    ensures
        ascending(entry_keys(after)),
        entry_map(after) == entry_map(before).insert(after[at].0@, after[at].1@),
{
    let bk = entry_keys(before);
    let ak = entry_keys(after);
    assert forall|i: int, j: int| 0 <= i < j < ak.len() implies text_lt(
        #[trigger] ak[i],
        #[trigger] ak[j],
    ) by {
        let i0 = if i < at { i } else { i - 1 };
        let j0 = if j < at { j } else { j - 1 };
        if i != at && j != at {
            assert(text_lt(bk[i0], bk[j0]));
        } else if i == at {
            assert(ak[j] == before[j0].0@);
        } else {
            assert(ak[i] == before[i0].0@);
        }
    }
    let key = after[at].0@;
    let map = entry_map(before).insert(key, after[at].1@);
    assert forall|i: int| 0 <= i < after.len() implies map.dom().contains((#[trigger] after[i]).0@)
        && map[after[i].0@] == after[i].1@ by {
        if i != at {
            let i0 = if i < at { i } else { i - 1 };
            assert(after[i] == before[i0]);
            lemma_entry_at(before, i0);
            lemma_text_lt_irreflexive(key);
        }
    }
    assert forall|k: Text| #[trigger] map.dom().contains(k) implies exists|i: int|
        0 <= i < after.len() && #[trigger] after[i].0@ == k by {
        if k == key {
            assert(after[at].0@ == k);
        } else {
            let j = choose|j: int| 0 <= j < before.len() && #[trigger] before[j].0@ == k;
            let i = if j < at { j } else { j + 1 };
            assert(after[i] == before[j]);
        }
    }
    lemma_same_map(after, map);
}

proof fn lemma_remove<V: View>(before: Seq<(String, V)>, after: Seq<(String, V)>, at: int)
    requires
        ascending(entry_keys(before)),
        0 <= at < before.len(),
        after == before.remove(at),
    ensures
        ascending(entry_keys(after)),
        entry_map(after) == entry_map(before).remove(before[at].0@),
{
    let bk = entry_keys(before);
    let ak = entry_keys(after);
    assert forall|i: int, j: int| 0 <= i < j < ak.len() implies text_lt(
        #[trigger] ak[i],
        #[trigger] ak[j],
    ) by {
        let i0 = if i < at { i } else { i + 1 };
        let j0 = if j < at { j } else { j + 1 };
        assert(text_lt(bk[i0], bk[j0]));
    }
    let key = before[at].0@;
    let map = entry_map(before).remove(key);
    assert forall|i: int| 0 <= i < after.len() implies map.dom().contains((#[trigger] after[i]).0@)
        && map[after[i].0@] == after[i].1@ by {
        let i0 = if i < at { i } else { i + 1 };
        assert(after[i] == before[i0]);
        lemma_entry_at(before, i0);
        if bk[i0] == key {
            lemma_ascending_distinct(bk, i0, at);
        }
    }
    assert forall|k: Text| #[trigger] map.dom().contains(k) implies exists|i: int|
        0 <= i < after.len() && #[trigger] after[i].0@ == k by {
        let j = choose|j: int| 0 <= j < before.len() && #[trigger] before[j].0@ == k;
        let i = if j < at { j } else { j - 1 };
        assert(after[i] == before[j]);
    }
    lemma_same_map(after, map);
}

} // verus!
