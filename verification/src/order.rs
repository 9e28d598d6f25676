//! Sorting by place: stable, and the same for panes, windows and remembered sessions.
use vstd::prelude::*;
use crate::table::views;

verus! {

/// What has a place among its like.
pub trait Placed {
    /// The place.
    spec fn place(self) -> int;
}

/// `list` with `x` put behind everything whose place is not after its own.
pub open spec fn put_in_place<T: Placed>(list: Seq<T>, x: T) -> Seq<T>
    decreases list.len(),
{
    if list.len() == 0 || list.last().place() <= x.place() {
        list.push(x)
    } else {
        put_in_place(list.drop_last(), x).push(list.last())
    }
}

/// The members of `list` by their places. Those that share one keep their order.
pub open spec fn by_place<T: Placed>(list: Seq<T>) -> Seq<T>
    decreases list.len(),
{
    if list.len() == 0 {
        seq![]
    } else {
        put_in_place(by_place(list.drop_last()), list.last())
    }
}

/// Whether no member comes before one with a smaller place.
pub open spec fn places_ascend<T: Placed>(list: Seq<T>) -> bool {
    forall|i: int, j: int|
        0 <= i <= j < list.len() ==> (#[trigger] list[i]).place() <= (#[trigger] list[j]).place()
}

/// What is kept and knows its place.
pub trait Ranked: View where Self::V: Placed {
    /// The place.
    fn place_of(&self) -> (res: i128)
        ensures
            res as int == self@.place(),
    ;
}

proof fn lemma_put_in_place<T: Placed>(list: Seq<T>, x: T, at: int)
    requires
        0 <= at <= list.len(),
        at > 0 ==> list[at - 1].place() <= x.place(),
        forall|j: int| at <= j < list.len() ==> (#[trigger] list[j]).place() > x.place(),
    ensures
        put_in_place(list, x) == list.insert(at, x),
    decreases list.len(),
{
    if at == list.len() {
        assert(list.insert(at, x) == list.push(x));
    } else {
        assert(list[list.len() - 1].place() > x.place());
        lemma_put_in_place(list.drop_last(), x, at);
        assert(list.insert(at, x) == list.drop_last().insert(at, x).push(list.last()));
    }
}

/// The members of `list` by their places.
pub fn sort_by_place<T: Ranked>(list: Vec<T>) -> (res: Vec<T>) where T::V: Placed
    ensures
        views(res@) == by_place(views(list@)),
{
    let ghost all = views(list@);
    let mut out = list;
    let mut done: usize = 0;
    assert(by_place(all.take(0)) + all.skip(0) =~= all);
    while done < out.len()
        invariant
            0 <= done <= out@.len(),
            out@.len() == all.len(),
            views(out@) == by_place(all.take(done as int)) + all.skip(done as int),
            by_place(all.take(done as int)).len() == done,
        decreases out@.len() - done,
    {
        let ghost sorted = by_place(all.take(done as int));
        let ghost shown = views(out@);
        assert(shown[done as int] == out@[done as int]@);
        let x = out.remove(done);
        assert(x@ == all[done as int]);
        let ghost gap = views(out@);
        assert(gap =~= shown.remove(done as int));
        assert(gap =~= sorted + all.skip(done + 1));
        let place: i128 = x.place_of();
        let mut at: usize = done;
        while at > 0 && out[at - 1].place_of() > place
            invariant
                gap == views(out@),
                gap == sorted + all.skip(done + 1),
                sorted.len() == done,
                place as int == x@.place(),
                0 <= at <= done <= out@.len(),
                forall|j: int| at <= j < done ==> (#[trigger] sorted[j]).place() > x@.place(),
            decreases at,
        {
            assert(gap[at - 1] == out@[at - 1]@);
            assert(gap[at - 1] == sorted[at - 1]);
            at -= 1;
        }
        proof {
            if at > 0 {
                assert(gap[at - 1] == out@[at - 1]@);
                assert(gap[at - 1] == sorted[at - 1]);
            }
            lemma_put_in_place(sorted, x@, at as int);
            let step = all.take(done + 1);
            assert(step.drop_last() == all.take(done as int));
            assert(step.last() == x@);
        }
        out.insert(at, x);
        assert(views(out@) =~= gap.insert(at as int, x@));
        assert(gap.insert(at as int, x@) =~= sorted.insert(at as int, x@) + all.skip(done + 1));
        done += 1;
    }
    assert(all.take(done as int) == all);
    assert(by_place(all) + all.skip(done as int) =~= by_place(all));
    out
}

proof fn lemma_put_ascends<T: Placed>(list: Seq<T>, x: T, most: int)
    requires
        places_ascend(list),
        forall|i: int| 0 <= i < list.len() ==> (#[trigger] list[i]).place() <= most,
        x.place() <= most,
    ensures
        places_ascend(put_in_place(list, x)),
        forall|i: int|
            0 <= i < put_in_place(list, x).len() ==> (#[trigger] put_in_place(list, x)[i]).place()
                <= most,
        put_in_place(list, x).to_multiset() == list.to_multiset().insert(x),
    decreases list.len(),
{
    broadcast use vstd::seq_lib::group_to_multiset_ensures;

    if list.len() == 0 || list.last().place() <= x.place() {
        let res = list.push(x);
        assert forall|i: int, j: int| 0 <= i <= j < res.len() implies (#[trigger] res[i]).place()
            <= (#[trigger] res[j]).place() by {
            if i < j && j == list.len() {
                assert(list[i].place() <= list[list.len() - 1].place());
            }
        }
    } else {
        let last = list.last();
        lemma_put_ascends(list.drop_last(), x, last.place());
        let inner = put_in_place(list.drop_last(), x);
        let res = inner.push(last);
        assert forall|i: int, j: int| 0 <= i <= j < res.len() implies (#[trigger] res[i]).place()
            <= (#[trigger] res[j]).place() by {
            if j < inner.len() {
                assert(inner[i].place() <= inner[j].place());
            } else if i < inner.len() {
                assert(inner[i].place() <= last.place());
            }
        }
        assert forall|i: int| 0 <= i < res.len() implies (#[trigger] res[i]).place() <= most by {
            if i < inner.len() {
                assert(inner[i].place() <= last.place());
            }
            assert(list[list.len() - 1].place() <= most);
        }
        assert(list == list.drop_last().push(last));
        assert(res.to_multiset() == inner.to_multiset().insert(last));
        assert(res.to_multiset() =~= list.to_multiset().insert(x));
    }
}

proof fn lemma_by_place<T: Placed>(list: Seq<T>, most: int)
    requires
        forall|i: int| 0 <= i < list.len() ==> (#[trigger] list[i]).place() <= most,
    ensures
        places_ascend(by_place(list)),
        by_place(list).to_multiset() == list.to_multiset(),
        forall|i: int|
            0 <= i < by_place(list).len() ==> (#[trigger] by_place(list)[i]).place() <= most,
    decreases list.len(),
{
    broadcast use vstd::seq_lib::group_to_multiset_ensures;

    if list.len() > 0 {
        assert forall|i: int| 0 <= i < list.drop_last().len() implies (
        #[trigger] list.drop_last()[i]).place() <= most by {
            assert(list.drop_last()[i] == list[i]);
        }
        lemma_by_place(list.drop_last(), most);
        assert(list[list.len() - 1].place() <= most);
        lemma_put_ascends(by_place(list.drop_last()), list.last(), most);
        assert(list == list.drop_last().push(list.last()));
    }
}

/// The members of `list` whose place is `place`, in their order.
pub open spec fn at_place<T: Placed>(list: Seq<T>, place: int) -> Seq<T>
    decreases list.len(),
{
    if list.len() == 0 {
        seq![]
    } else if list.last().place() == place {
        at_place(list.drop_last(), place).push(list.last())
    } else {
        at_place(list.drop_last(), place)
    }
}

proof fn lemma_put_keeps_order<T: Placed>(list: Seq<T>, x: T, place: int)
    ensures
        at_place(put_in_place(list, x), place) == at_place(list.push(x), place),
    decreases list.len(),
{
    reveal_with_fuel(at_place, 3);
    if list.len() > 0 && list.last().place() > x.place() {
        let inner = put_in_place(list.drop_last(), x);
        lemma_put_keeps_order(list.drop_last(), x, place);
        assert(inner.push(list.last()).drop_last() == inner);
        assert(list.drop_last().push(x).drop_last() == list.drop_last());
        assert(list.push(x).drop_last() == list);
    }
}

/// Sorting by place keeps the order of those that share a place.
pub proof fn law_sorting_is_stable<T: Placed>(list: Seq<T>, place: int)
    ensures
        at_place(by_place(list), place) == at_place(list, place),
    decreases list.len(),
{
    if list.len() > 0 {
        let before = by_place(list.drop_last());
        law_sorting_is_stable(list.drop_last(), place);
        lemma_put_keeps_order(before, list.last(), place);
        assert(before.push(list.last()).drop_last() == before);
    }
}

proof fn lemma_place_bound<T: Placed>(list: Seq<T>) -> (most: int)
    ensures
        forall|i: int| 0 <= i < list.len() ==> (#[trigger] list[i]).place() <= most,
    decreases list.len(),
{
    if list.len() == 0 {
        0
    } else {
        let before = lemma_place_bound(list.drop_last());
        let last = list.last().place();
        let most = if before < last {
            last
        } else {
            before
        };
        assert forall|i: int| 0 <= i < list.len() implies (#[trigger] list[i]).place() <= most by {
            if i < list.len() - 1 {
                assert(list.drop_last()[i] == list[i]);
            }
        }
        most
    }
}

/// Sorting by place puts the members in the order of their places; none is lost or made up.
pub proof fn law_sorting_sorts<T: Placed>(list: Seq<T>)
    ensures
        places_ascend(by_place(list)),
        by_place(list).to_multiset() == list.to_multiset(),
{
    let most = lemma_place_bound(list);
    lemma_by_place(list, most);
}

} // verus!
