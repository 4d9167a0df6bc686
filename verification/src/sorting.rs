//! Ordering entity lists by index without disturbing entries of equal index.

use vstd::prelude::*;

use crate::entity_map::view_keys;
use crate::index_set::strictly_increasing;
use crate::model::{entity_views, Entity, EntityView};

verus! {

/// No entity stands before one of smaller index.
pub open spec fn index_ordered(s: Seq<EntityView>) -> bool {
    forall|i: int, j: int| 0 <= i < j < s.len() ==> s[i].entity_index <= s[j].entity_index
}

/// The entities of `s` with index `k`, in the order in which they stand.
pub open spec fn with_index(s: Seq<EntityView>, k: u32) -> Seq<EntityView> {
    s.filter(|e: EntityView| e.entity_index == k)
}

/// `r` holds the entities of `s` by ascending index, those of equal index in
/// the order that they have in `s`.
pub open spec fn is_sorted_copy(r: Seq<EntityView>, s: Seq<EntityView>) -> bool {
    &&& index_ordered(r)
    &&& forall|k: u32| with_index(r, k) == with_index(s, k)
}

proof fn lemma_with_index_none(s: Seq<EntityView>, k: u32)
    requires
        forall|i: int| 0 <= i < s.len() ==> s[i].entity_index != k,
    ensures
        with_index(s, k) == Seq::<EntityView>::empty(),
    decreases s.len(),
{
    reveal(Seq::filter);
    if s.len() > 0 {
        lemma_with_index_none(s.drop_last(), k);
    }
}

proof fn lemma_with_index_one(e: EntityView, k: u32)
    ensures
        with_index(seq![e], k) == if e.entity_index == k {
            seq![e]
        } else {
            Seq::<EntityView>::empty()
        },
{
    reveal_with_fuel(Seq::filter, 2);
    assert(seq![e].drop_last() =~= Seq::<EntityView>::empty());
    assert(Seq::<EntityView>::empty().push(e) =~= seq![e]);
}

proof fn lemma_with_index_split(s: Seq<EntityView>, at: int, k: u32)
    requires
        0 <= at <= s.len(),
    ensures
        with_index(s, k) == with_index(s.take(at), k) + with_index(s.skip(at), k),
{
    assert(s =~= s.take(at) + s.skip(at));
    Seq::filter_distributes_over_add(s.take(at), s.skip(at), |e: EntityView| e.entity_index == k);
}

proof fn lemma_with_index_insert(s: Seq<EntityView>, at: int, e: EntityView, k: u32)
    requires
        0 <= at <= s.len(),
    ensures
        with_index(s.insert(at, e), k) == with_index(s.take(at), k) + with_index(seq![e], k)
            + with_index(s.skip(at), k),
{
    let p = |e: EntityView| e.entity_index == k;
    assert(s.insert(at, e) =~= (s.take(at) + seq![e]) + s.skip(at));
    Seq::filter_distributes_over_add(s.take(at) + seq![e], s.skip(at), p);
    Seq::filter_distributes_over_add(s.take(at), seq![e], p);
}

/// A sorted copy of a list that is in ascending order already is the list
/// itself. So a list has one sorted copy only.
pub proof fn lemma_sorted_copy_of_ordered(r: Seq<EntityView>, s: Seq<EntityView>)
    requires
        index_ordered(s),
        is_sorted_copy(r, s),
    ensures
        r == s,
    decreases s.len(),
{
    lemma_sorted_copy_len(r, s);
    if s.len() > 0 {
        let x = s.last();
        let k = x.entity_index;
        lemma_last_with_index(s, s.len() - 1);
        assert(with_index(r, k) == with_index(s, k));
        let y = r.last();
        lemma_member_with_index(r, r.len() - 1);
        assert(with_index(s, y.entity_index).len() > 0);
        lemma_with_index_member(s, y.entity_index);
        lemma_member_with_index(s, s.len() - 1);
        lemma_with_index_member(r, k);
        assert(y.entity_index == k);
        lemma_last_with_index(r, r.len() - 1);
        assert(y == x);
        let r0 = r.drop_last();
        let s0 = s.drop_last();
        assert forall|q: u32| with_index(r0, q) == with_index(s0, q) by {
            lemma_drop_last_with_index(r, q);
            lemma_drop_last_with_index(s, q);
            assert(with_index(r, q) == with_index(s, q));
            if q == k {
                assert(with_index(r0, q).push(x).drop_last() =~= with_index(r0, q));
                assert(with_index(s0, q).push(x).drop_last() =~= with_index(s0, q));
            }
        }
        assert(index_ordered(r0)) by {
            assert forall|i: int, j: int| 0 <= i < j < r0.len() implies r0[i].entity_index
                <= r0[j].entity_index by {
                assert(r0[i] == r[i] && r0[j] == r[j]);
            }
        }
        assert(index_ordered(s0)) by {
            assert forall|i: int, j: int| 0 <= i < j < s0.len() implies s0[i].entity_index
                <= s0[j].entity_index by {
                assert(s0[i] == s[i] && s0[j] == s[j]);
            }
        }
        lemma_sorted_copy_of_ordered(r0, s0);
        assert(r =~= r0.push(y));
        assert(s =~= s0.push(x));
    } else {
        assert(r =~= s);
    }
}

pub(crate) proof fn lemma_drop_last_with_index(s: Seq<EntityView>, k: u32)
    requires
        s.len() > 0,
    ensures
        with_index(s, k) == if s.last().entity_index == k {
            with_index(s.drop_last(), k).push(s.last())
        } else {
            with_index(s.drop_last(), k)
        },
{
    reveal(Seq::filter);
}

/// The entities with index `k` are members of the list, and the list has one
/// if the filtered list is not empty.
proof fn lemma_with_index_member(s: Seq<EntityView>, k: u32)
    requires
        with_index(s, k).len() > 0,
    ensures
        exists|i: int| 0 <= i < s.len() && s[i].entity_index == k,
    decreases s.len(),
{
    reveal(Seq::filter);
    if s.len() > 0 {
        if s.last().entity_index == k {
            assert(s[s.len() - 1].entity_index == k);
        } else {
            lemma_with_index_member(s.drop_last(), k);
            let i = choose|i: int| 0 <= i < s.drop_last().len() && s.drop_last()[i].entity_index == k;
            assert(s[i].entity_index == k);
        }
    }
}

proof fn lemma_member_with_index(s: Seq<EntityView>, i: int)
    requires
        0 <= i < s.len(),
    ensures
        with_index(s, s[i].entity_index).len() > 0,
    decreases s.len(),
{
    reveal(Seq::filter);
    if i < s.len() - 1 {
        lemma_member_with_index(s.drop_last(), i);
    }
}

/// Where the list is in ascending order, the last entity with a given index
/// is the last of the entities filtered by that index.
proof fn lemma_last_with_index(s: Seq<EntityView>, i: int)
    requires
        i == s.len() - 1,
        s.len() > 0,
    ensures
        with_index(s, s[i].entity_index).len() > 0,
        with_index(s, s[i].entity_index).last() == s[i],
{
    reveal(Seq::filter);
}

/// A sorted copy has the length of its source.
pub(crate) proof fn lemma_sorted_copy_len(r: Seq<EntityView>, s: Seq<EntityView>)
    requires
        forall|k: u32| with_index(r, k) == with_index(s, k),
    ensures
        r.len() == s.len(),
    decreases r.len(),
{
    if r.len() == 0 {
        if s.len() > 0 {
            lemma_member_with_index(s, 0);
            lemma_with_index_none(r, s[0].entity_index);
        }
    } else {
        let y = r.last();
        let k = y.entity_index;
        lemma_last_with_index(r, r.len() - 1);
        lemma_with_index_member(s, k);
        let m = last_position(s, k);
        lemma_last_position(s, k);
        let s0 = s.remove(m);
        let r0 = r.drop_last();
        assert forall|q: u32| with_index(r0, q) == with_index(s0, q) by {
            lemma_drop_last_with_index(r, q);
            lemma_remove_last_position(s, k, q);
        }
        lemma_sorted_copy_len(r0, s0);
    }
}

/// Position of the last entity with index `k`, or -1.
spec fn last_position(s: Seq<EntityView>, k: u32) -> int
    decreases s.len(),
{
    if s.len() == 0 {
        -1
    } else if s.last().entity_index == k {
        s.len() - 1
    } else {
        last_position(s.drop_last(), k)
    }
}

proof fn lemma_last_position(s: Seq<EntityView>, k: u32)
    requires
        exists|i: int| 0 <= i < s.len() && s[i].entity_index == k,
    ensures
        0 <= last_position(s, k) < s.len(),
        s[last_position(s, k)].entity_index == k,
        forall|j: int| last_position(s, k) < j < s.len() ==> s[j].entity_index != k,
    decreases s.len(),
{
    if s.len() > 0 && s.last().entity_index != k {
        let i = choose|i: int| 0 <= i < s.len() && s[i].entity_index == k;
        assert(s.drop_last()[i].entity_index == k);
        lemma_last_position(s.drop_last(), k);
        assert forall|j: int| last_position(s, k) < j < s.len() implies s[j].entity_index
            != k by {
            if j < s.len() - 1 {
                assert(s.drop_last()[j] == s[j]);
            }
        }
    }
}

proof fn lemma_remove_last_position(s: Seq<EntityView>, k: u32, q: u32)
    requires
        exists|i: int| 0 <= i < s.len() && s[i].entity_index == k,
    ensures
        with_index(s.remove(last_position(s, k)), q) == if q == k {
            with_index(s, q).drop_last()
        } else {
            with_index(s, q)
        },
        q == k ==> with_index(s, q).len() > 0,
{
    lemma_last_position(s, k);
    let m = last_position(s, k);
    let head = s.take(m);
    let tail = s.skip(m + 1);
    assert(s.remove(m) =~= head + tail);
    assert(s =~= (head + seq![s[m]]) + tail);
    let p = |e: EntityView| e.entity_index == q;
    Seq::filter_distributes_over_add(head, tail, p);
    Seq::filter_distributes_over_add(head + seq![s[m]], tail, p);
    Seq::filter_distributes_over_add(head, seq![s[m]], p);
    lemma_with_index_one(s[m], q);
    if q == k {
        assert forall|i: int| 0 <= i < tail.len() implies tail[i].entity_index != k by {
            assert(tail[i] == s[m + 1 + i]);
        }
        lemma_with_index_none(tail, k);
        assert(with_index(s, q) =~= with_index(head, q).push(s[m]));
        assert(with_index(s.remove(m), q) =~= with_index(head, q));
    } else {
        assert(with_index(s, q) =~= with_index(head, q) + with_index(tail, q));
    }
}

/// In a list whose indices ascend strictly, an index that occurs has one
/// entity, and an index that does not occur has none.
pub(crate) proof fn lemma_with_index_once(s: Seq<EntityView>, k: u32)
    requires
        strictly_increasing(view_keys(s)),
    ensures
        view_keys(s).contains(k) ==> with_index(s, k).len() == 1 && with_index(
            s,
            k,
        )[0].entity_index == k && s.contains(with_index(s, k)[0]),
        !view_keys(s).contains(k) ==> with_index(s, k).len() == 0,
    decreases s.len(),
{
    let keys = view_keys(s);
    if s.len() == 0 {
        lemma_with_index_none(s, k);
    } else {
        let rest = s.drop_last();
        let last = s.last();
        assert(view_keys(rest) =~= keys.drop_last());
        assert forall|i: int, j: int| 0 <= i < j < view_keys(rest).len() implies view_keys(rest)[i]
            < view_keys(rest)[j] by {
            assert(keys[i] < keys[j]);
        }
        lemma_with_index_once(rest, k);
        lemma_drop_last_with_index(s, k);
        if last.entity_index == k {
            assert(keys[keys.len() - 1] == k);
            if view_keys(rest).contains(k) {
                let i = choose|i: int| 0 <= i < view_keys(rest).len() && view_keys(rest)[i] == k;
                assert(keys[i] < keys[keys.len() - 1]);
            }
            assert(s[s.len() - 1] == last);
        } else {
            if keys.contains(k) {
                let i = choose|i: int| 0 <= i < keys.len() && keys[i] == k;
                assert(view_keys(rest)[i] == k);
                let found = with_index(rest, k)[0];
                let j = choose|j: int| 0 <= j < rest.len() && rest[j] == found;
                assert(s[j] == found);
            } else {
                if view_keys(rest).contains(k) {
                    let i = choose|i: int|
                        0 <= i < view_keys(rest).len() && view_keys(rest)[i] == k;
                    assert(keys[i] == k);
                }
            }
        }
    }
}

/// Orders entities by index. Entities of equal index keep their order.
pub fn sort_by_index(entities: Vec<Entity>) -> (r: Vec<Entity>)
    ensures
        is_sorted_copy(entity_views(r@), entity_views(entities@)),
        r.len() == entities.len(),
{
    let ghost source = entity_views(entities@);
    let mut input = entities;
    let mut out: Vec<Entity> = Vec::new();
    proof {
        assert(source.skip(source.len() as int) =~= Seq::<EntityView>::empty());
        assert(entity_views(out@) =~= Seq::<EntityView>::empty());
    }
    while input.len() > 0
        invariant
            input.len() <= source.len(),
            entity_views(input@) == source.take(input.len() as int),
            out.len() + input.len() == source.len(),
            index_ordered(entity_views(out@)),
            forall|k: u32|
                with_index(entity_views(out@), k) == with_index(
                    source.skip(input.len() as int),
                    k,
                ),
        decreases input.len(),
    {
        let ghost n = input.len() as int;
        let ghost before_in = input@;
        let entity = input.pop().unwrap();
        let key = entity.entity_index;
        let mut at: usize = 0;
        while at < out.len() && out[at].entity_index < key
            invariant
                at <= out.len(),
                forall|j: int| 0 <= j < at ==> entity_views(out@)[j].entity_index < key,
            decreases out.len() - at,
        {
            at = at + 1;
        }
        let ghost before = entity_views(out@);
        out.insert(at, entity);
        proof {
            let after = entity_views(out@);
            assert(after =~= before.insert(at as int, entity@));
            assert(entity_views(input@) =~= source.take(n - 1)) by {
                assert(input@ == before_in.take(n - 1));
                assert forall|i: int| 0 <= i < n - 1 implies entity_views(input@)[i]
                    == source.take(n - 1)[i] by {
                    assert(entity_views(before_in)[i] == source.take(n)[i]);
                }
            }
            assert(entity@ == source[n - 1]) by {
                assert(entity_views(before_in)[n - 1] == source.take(n)[n - 1]);
            }
            assert forall|i: int, j: int| 0 <= i < j < after.len() implies after[i].entity_index
                <= after[j].entity_index by {
                let i0 = if i < at { i } else { i - 1 };
                let j0 = if j < at { j } else { j - 1 };
                if i != at && j != at {
                    assert(after[i] == before[i0] && after[j] == before[j0]);
                } else if i == at {
                    assert(after[j] == before[j0]);
                    assert(before[at as int].entity_index >= key);
                    if j0 > at {
                        assert(before[at as int].entity_index <= before[j0].entity_index);
                    }
                } else {
                    assert(after[i] == before[i0]);
                }
            }
            assert forall|k: u32|
                with_index(after, k) == with_index(source.skip(n - 1), k) by {
                lemma_with_index_insert(before, at as int, entity@, k);
                lemma_with_index_split(before, at as int, k);
                lemma_with_index_one(entity@, k);
                assert(source.skip(n - 1) =~= seq![entity@] + source.skip(n));
                Seq::filter_distributes_over_add(
                    seq![entity@],
                    source.skip(n),
                    |e: EntityView| e.entity_index == k,
                );
                assert(with_index(before, k) == with_index(source.skip(n), k));
                if k == key {
                    assert forall|i: int| 0 <= i < before.take(at as int).len() implies before.take(
                        at as int,
                    )[i].entity_index != k by {
                        assert(before.take(at as int)[i] == before[i]);
                    }
                    lemma_with_index_none(before.take(at as int), k);
                    assert(with_index(after, k) =~= seq![entity@] + with_index(
                        before.skip(at as int),
                        k,
                    ));
                    assert(with_index(before, k) =~= with_index(before.skip(at as int), k));
                } else {
                    assert(with_index(after, k) =~= with_index(before.take(at as int), k)
                        + with_index(before.skip(at as int), k));
                    assert(with_index(source.skip(n - 1), k) =~= with_index(source.skip(n), k));
                }
            }
        }
    }
    proof {
        assert(source.skip(0) =~= source);
    }
    out
}

} // verus!
