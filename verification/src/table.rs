//! One table of the store: its name, its id counter and its records, and the
//! walks over the records in ascending order of their ids.

use crate::json::{clone_value, get_field, is_text};
use crate::model::{
    field_is, lemma_ordered_ids_unique, ordered_ids, ordered_records, TableModel,
};
use crate::order::lemma_increasing_is_ascending;
use serde_json::Value;
use std::collections::BTreeMap;
use vstd::prelude::*;
use vstd::std_specs::btree::{increasing_seq, spec_btree_map_iter};
use vstd::std_specs::iter::IteratorSpec;

verus! {

pub(crate) struct Table {
    pub(crate) name: String,
    pub(crate) next_id: u32,
    pub(crate) data: BTreeMap<u32, Value>,
}

impl Table {
    pub(crate) open spec fn model(&self) -> TableModel {
        TableModel { next_id: self.next_id, records: self.data@ }
    }
}

/// The ids that a walk over the records meets, in the order of the walk.
pub(crate) open spec fn walk_ids(pairs: Seq<(&u32, &Value)>) -> Seq<u32> {
    pairs.map_values(|kv: (&u32, &Value)| *kv.0)
}

/// A walk over the records meets every record once, in ascending order of
/// the ids.
pub(crate) proof fn lemma_walk_in_order(data: &BTreeMap<u32, Value>, pairs: Seq<(&u32, &Value)>)
    requires
        pairs == spec_btree_map_iter(data).remaining(),
        increasing_seq(walk_ids(pairs)),
    ensures
        walk_ids(pairs) == ordered_ids(data@),
        pairs.len() == ordered_records(data@).len(),
        forall|i: int|
            0 <= i < pairs.len() ==> data@.contains_key(*(#[trigger] pairs[i]).0) && *pairs[i].1
                == ordered_records(data@)[i],
{
    let ids = walk_ids(pairs);
    lemma_increasing_is_ascending(ids);
    assert forall|id: u32| #[trigger] ids.contains(id) <==> data@.contains_key(id) by {
        if ids.contains(id) {
            let i = choose|i: int| 0 <= i < ids.len() && ids[i] == id;
            assert(data@.contains_key(*pairs[i].0));
        }
        if data@.contains_key(id) {
            assert(pairs.contains((&id, &data@[id])));
            let i = choose|i: int| 0 <= i < pairs.len() && pairs[i] == (&id, &data@[id]);
            assert(ids[i] == id);
        }
    }
    lemma_ordered_ids_unique(data@, ids);
    assert forall|i: int| 0 <= i < pairs.len() implies data@.contains_key(
        *(#[trigger] pairs[i]).0,
    ) && *pairs[i].1 == ordered_records(data@)[i] by {
        assert(data@.contains_key(*pairs[i].0));
        assert(ids[i] == *pairs[i].0);
    }
}

/// A copy of every record, in ascending order of the ids.
pub(crate) fn values(data: &BTreeMap<u32, Value>) -> (out: Vec<Value>)
    ensures
        out@ == ordered_records(data@),
{
    let mut out: Vec<Value> = Vec::new();
    let it = data.iter();
    let ghost pairs = it.remaining();
    proof {
        lemma_walk_in_order(data, pairs);
    }
    for kv in iter: it
        invariant
            iter.seq() == pairs,
            pairs.len() == ordered_records(data@).len(),
            forall|i: int|
                0 <= i < pairs.len() ==> *(#[trigger] pairs[i]).1 == ordered_records(data@)[i],
            out@ == ordered_records(data@).take(iter.index()),
    {
        let ghost i = iter.index();
        out.push(clone_value(kv.1));
        proof {
            let all = ordered_records(data@);
            assert(all.take(i + 1) =~= all.take(i).push(all[i]));
        }
    }
    proof {
        let all = ordered_records(data@);
        assert(all.take(all.len() as int) =~= all);
    }
    out
}

/// Whether a record has the field `column` with the string `text` in it.
pub(crate) fn has_field(record: &Value, column: &str, text: &str) -> (r: bool)
    ensures
        r == field_is(*record, column@, text@),
{
    match get_field(record, column) {
        Some(v) => is_text(v, text),
        None => false,
    }
}

/// A copy of every record whose field `column` is the string `text`, in
/// ascending order of the ids.
pub(crate) fn values_where(data: &BTreeMap<u32, Value>, column: &str, text: &str) -> (out: Vec<
    Value,
>)
    ensures
        out@ == ordered_records(data@).filter(|record: Value| field_is(record, column@, text@)),
{
    let mut out: Vec<Value> = Vec::new();
    let it = data.iter();
    let ghost pairs = it.remaining();
    let ghost wanted = |record: Value| field_is(record, column@, text@);
    proof {
        lemma_walk_in_order(data, pairs);
        assert(ordered_records(data@).take(0) =~= Seq::<Value>::empty());
        reveal(Seq::filter);
        assert(Seq::<Value>::empty().filter(wanted) =~= Seq::<Value>::empty());
    }
    for kv in iter: it
        invariant
            iter.seq() == pairs,
            pairs.len() == ordered_records(data@).len(),
            forall|i: int|
                0 <= i < pairs.len() ==> *(#[trigger] pairs[i]).1 == ordered_records(data@)[i],
            wanted == (|record: Value| field_is(record, column@, text@)),
            out@ == ordered_records(data@).take(iter.index()).filter(wanted),
    {
        let ghost i = iter.index();
        if has_field(kv.1, column, text) {
            out.push(clone_value(kv.1));
        }
        proof {
            let all = ordered_records(data@);
            assert(all.take(i + 1) =~= all.take(i).push(all[i]));
            all.take(i).lemma_filter_push(all[i], wanted);
        }
    }
    proof {
        let all = ordered_records(data@);
        assert(all.take(all.len() as int) =~= all);
    }
    out
}

} // verus!
