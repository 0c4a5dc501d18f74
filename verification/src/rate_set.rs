//! Sets of refresh rates kept in std's ordered set and read back in
//! increasing order.

use std::collections::BTreeSet;

use vstd::prelude::*;
use vstd::std_specs::btree::spec_btree_keys_iter;
use vstd::std_specs::cmp::OrdSpec;
use vstd::std_specs::iter::IteratorSpec;

use crate::cli_mode::ascending;
use crate::model::RefreshRate;

verus! {

/// Adds `x` to the set.
pub fn add_rate(set: &mut BTreeSet<RefreshRate>, x: RefreshRate)
    ensures
        final(set)@ == old(set)@.insert(x),
{
    broadcast use vstd::laws_cmp::group_laws_cmp;

    set.insert(x);
}

/// Takes `x` out of the set; says whether it was there.
pub fn remove_rate(set: &mut BTreeSet<RefreshRate>, x: RefreshRate) -> (res: bool)
    ensures
        final(set)@ == old(set)@.remove(x),
        res == old(set)@.contains(x),
{
    broadcast use vstd::std_specs::btree::group_btree_axioms, vstd::laws_cmp::group_laws_cmp;

    set.remove(&x)
}

/// The first `n` rates handed out.
pub open spec fn first_rates(s: Seq<&RefreshRate>, n: int) -> Seq<RefreshRate> {
    s.take(n).unref()
}

/// The rates of `set`, in increasing order.
pub fn sorted_rates(set: &BTreeSet<RefreshRate>) -> (res: Vec<RefreshRate>)
    ensures
        ascending(res@),
        res@.to_set() == set@,
{
    broadcast use vstd::std_specs::btree::group_btree_axioms, vstd::laws_cmp::group_laws_cmp;

    let mut out: Vec<RefreshRate> = Vec::new();
    for x in it: set.iter()
        invariant
            it.seq() == spec_btree_keys_iter(set).remaining(),
            out@ == first_rates(it.seq(), it.index()),
    {
        out.push(*x);
        assert(out@ =~= first_rates(it.seq(), it.index() + 1));
    }
    let ghost keys = spec_btree_keys_iter(set).remaining();
    assert(out@ =~= keys.unref());
    assert(vstd::laws_cmp::obeys_cmp::<&RefreshRate>());
    assert(vstd::std_specs::btree::increasing_seq(keys));
    assert forall|i: int, j: int| 0 <= i < j < out@.len() implies out@[i] < out@[j] by {
        assert((&keys[i]).cmp_spec(&keys[j]) is Less);
    }
    out
}

} // verus!
