//! The order in which a `BTreeMap` keyed by record id is walked.

use crate::model::ascending;
use vstd::prelude::*;
use vstd::std_specs::btree::increasing_seq;
use vstd::std_specs::cmp::OrdSpec;

verus! {

/// Ids in the increasing order of a `BTreeMap` walk are ascending.
pub proof fn lemma_increasing_is_ascending(ids: Seq<u32>)
    requires
        increasing_seq(ids),
    ensures
        ascending(ids),
{
    broadcast use vstd::laws_cmp::group_laws_cmp;
    vstd::std_specs::btree::axiom_increasing_seq_meaning(ids);
    assert forall|i: int, j: int| 0 <= i < j < ids.len() implies ids[i] < ids[j] by {
        assert(ids[i].cmp_spec(&ids[j]) is Less);
    }
}

} // verus!
