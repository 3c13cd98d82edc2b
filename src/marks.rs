//! Sets of dense indices held as flag vectors, and the bound that makes
//! marking loops terminate.

use vstd::prelude::*;
use vstd::set_lib::{lemma_int_range, lemma_len_subset, set_int_range};

verus! {

/// The indices whose flag is set.
pub open spec fn marked(m: Seq<bool>) -> Set<int> {
    Set::new(|i: int| 0 <= i < m.len() && m[i])
}

/// A flag vector marks at most as many indices as it has flags.
pub proof fn lemma_marked_bound(m: Seq<bool>)
    ensures
        marked(m).finite(),
        marked(m).len() <= m.len(),
{
    lemma_int_range(0, m.len() as int);
    assert(marked(m).subset_of(set_int_range(0, m.len() as int)));
    lemma_len_subset(marked(m), set_int_range(0, m.len() as int));
}

/// Setting one unset flag marks exactly one index more.
pub proof fn lemma_mark_one(m: Seq<bool>, i: int)
    requires
        0 <= i < m.len(),
        !m[i],
    ensures
        marked(m.update(i, true)) == marked(m).insert(i),
        marked(m.update(i, true)).len() == marked(m).len() + 1,
{
    lemma_marked_bound(m);
    assert(marked(m.update(i, true)) =~= marked(m).insert(i));
}

} // verus!
