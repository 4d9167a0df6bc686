//! Dropping elements from a list in place.

use vstd::prelude::*;

verus! {

/// The elements of `items` whose flag in `flags` is set, in order. The two
/// are of one length.
pub open spec fn flagged<A>(items: Seq<A>, flags: Seq<bool>) -> Seq<A>
    decreases items.len(),
{
    if items.len() == 0 {
        Seq::empty()
    } else {
        let rest = flagged(items.drop_last(), flags.drop_last());
        if flags.last() {
            rest.push(items.last())
        } else {
            rest
        }
    }
}

/// Where each flag says whether `keep` holds of its element, the flagged
/// elements are the elements that `keep` holds of.
pub proof fn lemma_flagged_filter<A>(items: Seq<A>, flags: Seq<bool>, keep: spec_fn(A) -> bool)
    requires
        flags.len() == items.len(),
        forall|i: int| 0 <= i < items.len() ==> flags[i] == keep(#[trigger] items[i]),
    ensures
        flagged(items, flags) == items.filter(keep),
    decreases items.len(),
{
    reveal(Seq::filter);
    if items.len() > 0 {
        lemma_flagged_filter(items.drop_last(), flags.drop_last(), keep);
    }
}

/// The flagged elements of a mapped list are the flagged elements, mapped.
pub proof fn lemma_flagged_map<A, B>(items: Seq<A>, flags: Seq<bool>, f: spec_fn(A) -> B)
    requires
        flags.len() == items.len(),
    ensures
        flagged(items, flags).map_values(f) == flagged(items.map_values(f), flags),
    decreases items.len(),
{
    if items.len() > 0 {
        lemma_flagged_map(items.drop_last(), flags.drop_last(), f);
        assert(items.map_values(f).drop_last() =~= items.drop_last().map_values(f));
        assert(flagged(items, flags).map_values(f) =~= flagged(items.map_values(f), flags));
    } else {
        assert(flagged(items, flags).map_values(f) =~= flagged(items.map_values(f), flags));
    }
}

/// Drops from `items` the elements whose flag is not set. The others keep
/// their order.
pub fn retain_flagged<T>(items: &mut Vec<T>, flags: &Vec<bool>)
    requires
        flags.len() == old(items).len(),
    ensures
        final(items)@ == flagged(old(items)@, flags@),
{
    let ghost before = items@;
    let mut i: usize = 0;
    let mut seen: usize = 0;
    proof {
        assert(items@.take(0) =~= flagged(before.take(0), flags@.take(0)));
        assert(items@.skip(0) =~= before.skip(0));
    }
    while seen < flags.len()
        invariant
            before == old(items)@,
            flags.len() == before.len(),
            i <= seen <= flags.len(),
            i <= items.len(),
            items.len() - i == before.len() - seen,
            items@.take(i as int) == flagged(before.take(seen as int), flags@.take(seen as int)),
            items@.skip(i as int) == before.skip(seen as int),
        decreases flags.len() - seen,
    {
        let ghost current = items@;
        proof {
            assert(current[i as int] == current.skip(i as int)[0]);
            assert(before[seen as int] == before.skip(seen as int)[0]);
            assert(before.take(seen + 1).drop_last() =~= before.take(seen as int));
            assert(flags@.take(seen + 1).drop_last() =~= flags@.take(seen as int));
            assert(before.take(seen + 1).last() == before[seen as int]);
            assert(flags@.take(seen + 1).last() == flags@[seen as int]);
        }
        if flags[seen] {
            proof {
                assert(current.take(i + 1) =~= current.take(i as int).push(current[i as int]));
                assert(current.skip(i + 1) =~= before.skip(seen + 1)) by {
                    assert(current.skip(i + 1) =~= current.skip(i as int).skip(1));
                    assert(before.skip(seen + 1) =~= before.skip(seen as int).skip(1));
                }
            }
            i = i + 1;
        } else {
            items.remove(i);
            proof {
                assert(items@ =~= current.remove(i as int));
                assert(items@.take(i as int) =~= current.take(i as int));
                assert(items@.skip(i as int) =~= before.skip(seen + 1)) by {
                    assert(items@.skip(i as int) =~= current.skip(i as int).skip(1));
                    assert(before.skip(seen + 1) =~= before.skip(seen as int).skip(1));
                }
            }
        }
        seen = seen + 1;
    }
    proof {
        assert(before.take(seen as int) =~= before);
        assert(flags@.take(seen as int) =~= flags@);
        assert(items@.take(i as int) =~= items@);
    }
}

} // verus!
