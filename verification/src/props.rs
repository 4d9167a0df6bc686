//! Merging property lists by identifier.

use vstd::prelude::*;

use crate::model::Prop;

verus! {

/// `i` is the position of the first property of `props` with identifier `id`,
/// or `props.len()` when there is none.
pub open spec fn is_first_with_id(props: Seq<Prop>, id: u64, i: int) -> bool {
    &&& 0 <= i <= props.len()
    &&& i < props.len() ==> props[i].identifier == id
    &&& forall|j: int| 0 <= j < i ==> props[j].identifier != id
}

/// Position of the first property with identifier `id`, or `props.len()`.
pub open spec fn first_with_id(props: Seq<Prop>, id: u64) -> int
    decreases props.len(),
{
    if props.len() == 0 {
        0
    } else if props[0].identifier == id {
        0
    } else {
        1 + first_with_id(props.drop_first(), id)
    }
}

/// `first_with_id` is the one position that `is_first_with_id` accepts.
pub(crate) proof fn lemma_first_with_id(props: Seq<Prop>, id: u64)
    ensures
        is_first_with_id(props, id, first_with_id(props, id)),
        forall|i: int| is_first_with_id(props, id, i) ==> i == first_with_id(props, id),
    decreases props.len(),
{
    if props.len() > 0 && props[0].identifier != id {
        let rest = props.drop_first();
        lemma_first_with_id(rest, id);
        let r = first_with_id(rest, id);
        assert forall|j: int| 0 <= j < 1 + r implies props[j].identifier != id by {
            if j > 0 {
                assert(rest[j - 1] == props[j]);
            }
        }
        if r < rest.len() {
            assert(rest[r] == props[r + 1]);
        }
    }
    let f = first_with_id(props, id);
    assert forall|i: int| is_first_with_id(props, id, i) implies i == f by {
        if i < f {
            assert(props[i].identifier == id);
        } else if f < i {
            assert(props[f].identifier == id);
        }
    }
}

/// Whether some property of `props` has identifier `id`.
pub open spec fn has_id(props: Seq<Prop>, id: u64) -> bool {
    exists|i: int| 0 <= i < props.len() && props[i].identifier == id
}

/// No two properties share an identifier.
pub open spec fn ids_unique(props: Seq<Prop>) -> bool {
    forall|i: int, j: int|
        0 <= i < j < props.len() ==> props[i].identifier != props[j].identifier
}

/// `base` after one incoming property: a property with the same identifier
/// takes the new value where it stands, an unknown one is appended.
pub open spec fn fold_prop(base: Seq<Prop>, incoming: Prop) -> Seq<Prop> {
    let i = first_with_id(base, incoming.identifier);
    if i < base.len() {
        base.update(
            i,
            Prop { index: base[i].index, identifier: base[i].identifier, value: incoming.value },
        )
    } else {
        base.push(incoming)
    }
}

/// `base` after all of `incoming`, taken in order.
pub open spec fn fold_props(base: Seq<Prop>, incoming: Seq<Prop>) -> Seq<Prop>
    decreases incoming.len(),
{
    if incoming.len() == 0 {
        base
    } else {
        fold_prop(fold_props(base, incoming.drop_last()), incoming.last())
    }
}

/// Folding one property keeps identifiers where they stand and adds at most
/// the incoming one at the end.
pub(crate) proof fn lemma_fold_prop_ids(base: Seq<Prop>, incoming: Prop)
    ensures
        fold_prop(base, incoming).len() >= base.len(),
        forall|i: int|
            0 <= i < base.len() ==> (#[trigger] fold_prop(base, incoming)[i]).identifier
                == base[i].identifier,
        has_id(base, incoming.identifier) ==> fold_prop(base, incoming).len() == base.len(),
        !has_id(base, incoming.identifier) ==> fold_prop(base, incoming) == base.push(incoming),
        ids_unique(base) ==> ids_unique(fold_prop(base, incoming)),
{
    lemma_first_with_id(base, incoming.identifier);
    let f = first_with_id(base, incoming.identifier);
    let r = fold_prop(base, incoming);
    if f < base.len() {
        assert(has_id(base, incoming.identifier));
    } else {
        assert(!has_id(base, incoming.identifier));
    }
    if ids_unique(base) {
        assert forall|i: int, j: int| 0 <= i < j < r.len() implies r[i].identifier
            != r[j].identifier by {
            if j < base.len() {
                assert(base[i].identifier != base[j].identifier);
            }
        }
    }
}

/// Merging never makes two properties share an identifier.
pub proof fn lemma_fold_props_unique(base: Seq<Prop>, incoming: Seq<Prop>)
    requires
        ids_unique(base),
    ensures
        ids_unique(fold_props(base, incoming)),
    decreases incoming.len(),
{
    if incoming.len() > 0 {
        lemma_fold_props_unique(base, incoming.drop_last());
        lemma_fold_prop_ids(fold_props(base, incoming.drop_last()), incoming.last());
    }
}

/// Merging keeps every property of `base` in its place, with its identifier.
pub proof fn lemma_fold_props_keeps_base(base: Seq<Prop>, incoming: Seq<Prop>)
    ensures
        fold_props(base, incoming).len() >= base.len(),
        forall|i: int|
            0 <= i < base.len() ==> (#[trigger] fold_props(base, incoming)[i]).identifier
                == base[i].identifier,
    decreases incoming.len(),
{
    if incoming.len() > 0 {
        lemma_fold_props_keeps_base(base, incoming.drop_last());
        lemma_fold_prop_ids(fold_props(base, incoming.drop_last()), incoming.last());
    }
}

/// Position of the first property with identifier `id`.
pub fn find_prop(props: &Vec<Prop>, id: u64) -> (i: usize)
    ensures
        i as int == first_with_id(props@, id),
        i <= props.len(),
{
    let mut i: usize = 0;
    while i < props.len() && props[i].identifier != id
        invariant
            i <= props.len(),
            forall|j: int| 0 <= j < i ==> props@[j].identifier != id,
        decreases props.len() - i,
    {
        i = i + 1;
    }
    proof {
        lemma_first_with_id(props@, id);
        assert(is_first_with_id(props@, id, i as int));
    }
    i
}

/// Merges `incoming` into `props`: known identifiers take the new value in
/// place, new ones are appended in the order in which they come.
pub fn apply_update(props: &mut Vec<Prop>, incoming: &Vec<Prop>)
    ensures
        final(props)@ == fold_props(old(props)@, incoming@),
{
    let mut k: usize = 0;
    while k < incoming.len()
        invariant
            k <= incoming.len(),
            props@ == fold_props(old(props)@, incoming@.take(k as int)),
        decreases incoming.len() - k,
    {
        let id = incoming[k].identifier;
        let i = find_prop(props, id);
        let value = incoming[k].value.clone();
        if i < props.len() {
            let merged = Prop { index: props[i].index, identifier: props[i].identifier, value };
            props.set(i, merged);
        } else {
            props.push(Prop { index: incoming[k].index, identifier: id, value });
        }
        proof {
            assert(incoming@.take(k + 1).drop_last() == incoming@.take(k as int));
            assert(incoming@.take(k + 1).last() == incoming@[k as int]);
        }
        k = k + 1;
    }
    proof {
        assert(incoming@.take(incoming.len() as int) == incoming@);
    }
}

} // verus!
