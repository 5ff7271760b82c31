//! What holds of the store whatever it contains, stated over its model and
//! proved.

use crate::db::{is_snapshot, load};
use crate::error::DbError;
use crate::json::json_parse;
use crate::model::{ascending, field_is, lemma_ordered_ids, ordered_ids, ordered_records, Store};
use crate::snapshot::{encodes, lemma_decode_inverts_encode};
use serde_json::Value;
use vstd::prelude::*;

verus! {

/// A table that holds no record lists no record.
pub proof fn lemma_no_records(records: Map<u32, Value>)
    requires
        forall|id: u32| !records.contains_key(id),
    ensures
        ordered_records(records) == Seq::<Value>::empty(),
{
    lemma_ordered_ids(records);
    let ids = ordered_ids(records);
    if ids.len() > 0 {
        assert(ids.contains(ids[0]));
    }
    assert(ordered_records(records) =~= Seq::<Value>::empty());
}

/// A table that was created with `recreate` set exists and lists no record,
/// whatever the store held before.
pub proof fn law_recreated_table_is_empty(store: Store, name: Seq<char>)
    ensures
        store.add_table(name, true).find_all(name) == Some(Seq::<Value>::empty()),
{
    lemma_no_records(store.add_table(name, true).tables[name].records);
}

/// The store after `values` were stored under one id of one table, one
/// after the other.
pub open spec fn upsert_each(store: Store, name: Seq<char>, id: u32, values: Seq<Value>) -> Store
    decreases values.len(),
{
    if values.len() == 0 {
        store
    } else {
        upsert_each(store, name, id, values.drop_last()).upsert(name, id, values.last())
    }
}

/// The last write wins: after any number of values were stored under one id
/// of an existing table, the record under that id is the value stored last.
pub proof fn law_last_write_wins(store: Store, name: Seq<char>, id: u32, values: Seq<Value>)
    requires
        store.has_table(name),
        values.len() > 0,
    ensures
        upsert_each(store, name, id, values).find_by_id(name, id) == Some(values.last()),
{
    lemma_upsert_keeps_table(store, name, id, values.drop_last());
}

/// Storing values does not remove the table they are stored in.
pub proof fn lemma_upsert_keeps_table(store: Store, name: Seq<char>, id: u32, values: Seq<Value>)
    requires
        store.has_table(name),
    ensures
        upsert_each(store, name, id, values).has_table(name),
    decreases values.len(),
{
    if values.len() > 0 {
        lemma_upsert_keeps_table(store, name, id, values.drop_last());
    }
}

/// A call on the store that does not create a table anew.
pub enum Call {
    /// Adding a table without `recreate`.
    AddTable(Seq<char>),
    /// Asking a table for its next id.
    NextId(Seq<char>),
    /// Storing a value under an id of a table.
    Upsert(Seq<char>, u32, Value),
    /// Removing the record under an id of a table.
    DeleteById(Seq<char>, u32),
    /// Removing every record of a table.
    DeleteAll(Seq<char>),
}

/// The store after one call.
pub open spec fn after(store: Store, call: Call) -> Store {
    match call {
        Call::AddTable(name) => store.add_table(name, false),
        Call::NextId(name) => store.issue_id(name),
        Call::Upsert(name, id, value) => store.upsert(name, id, value),
        Call::DeleteById(name, id) => store.delete(name, id),
        Call::DeleteAll(name) => store.clear(name),
    }
}

/// The store after a run of calls.
pub open spec fn after_all(store: Store, calls: Seq<Call>) -> Store
    decreases calls.len(),
{
    if calls.len() == 0 {
        store
    } else {
        after(after_all(store, calls.drop_last()), calls.last())
    }
}

/// The ids that the table `name` handed out over a run of calls, in the
/// order of the calls.
pub open spec fn handed_out(store: Store, calls: Seq<Call>, name: Seq<char>) -> Seq<u32>
    decreases calls.len(),
{
    if calls.len() == 0 {
        Seq::empty()
    } else {
        let earlier = handed_out(store, calls.drop_last(), name);
        let now = after_all(store, calls.drop_last());
        match calls.last() {
            Call::NextId(asked) => if asked == name && now.next_id(name) is Some {
                earlier.push(now.next_id(name)->0)
            } else {
                earlier
            },
            _ => earlier,
        }
    }
}

/// Ids only go up: over any run of calls that does not create a table anew,
/// in whatever order they come, each id that a table hands out is greater
/// than every id it handed out before. So no id is handed out twice, whatever
/// was deleted in between.
pub proof fn law_ids_ascend(store: Store, calls: Seq<Call>, name: Seq<char>)
    ensures
        ascending(handed_out(store, calls, name)),
{
    lemma_ids_below_counter(store, calls, name);
}

/// Every id handed out is below the counter as it stands after the calls.
pub proof fn lemma_ids_below_counter(store: Store, calls: Seq<Call>, name: Seq<char>)
    ensures
        ascending(handed_out(store, calls, name)),
        handed_out(store, calls, name).len() > 0 ==> after_all(store, calls).has_table(name),
        forall|k: int|
            0 <= k < handed_out(store, calls, name).len() ==> handed_out(store, calls, name)[k]
                < after_all(store, calls).tables[name].next_id,
    decreases calls.len(),
{
    if calls.len() > 0 {
        let earlier = handed_out(store, calls.drop_last(), name);
        let now = after_all(store, calls.drop_last());
        lemma_ids_below_counter(store, calls.drop_last(), name);
        let all = handed_out(store, calls, name);
        let then = after_all(store, calls);
        assert(then == after(now, calls.last()));
        if earlier.len() > 0 {
            assert(now.has_table(name));
            assert(then.has_table(name));
            assert(now.tables[name].next_id <= then.tables[name].next_id);
        }
        assert forall|k: int| 0 <= k < all.len() implies all[k] < then.tables[name].next_id by {
            if k < earlier.len() {
                assert(all[k] == earlier[k]);
            }
        }
        assert forall|i: int, j: int| 0 <= i < j < all.len() implies all[i] < all[j] by {
            if j < earlier.len() {
                assert(all[i] == earlier[i] && all[j] == earlier[j]);
            } else {
                assert(all[i] == earlier[i]);
            }
        }
    }
}

/// Removing every record of a table leaves it without records and leaves its
/// counter where it was: the id it hands out next is the one it would have
/// handed out before.
pub proof fn law_clear_keeps_counter(store: Store, name: Seq<char>)
    requires
        store.has_table(name),
    ensures
        store.clear(name).find_all(name) == Some(Seq::<Value>::empty()),
        store.clear(name).next_id(name) == store.next_id(name),
        store.clear(name).tables[name].next_id == store.tables[name].next_id,
{
    lemma_no_records(store.clear(name).tables[name].records);
}

/// Parsing `text` gives a document that is a written form of `store`.
pub open spec fn parses_to(text: Seq<char>, store: Store) -> bool {
    match json_parse(text) {
        Some(doc) => encodes(doc, store),
        None => false,
    }
}

/// Loading from a snapshot gives the store back, as far as the JSON text
/// carries it: where parsing the text of a snapshot gives a document that is
/// again a written form of the store, loading from that text gives the same
/// store, and so the same answers to every lookup.
pub proof fn law_reload(store: Store, text: Seq<char>)
    requires
        is_snapshot(text, store),
        text.len() > 0,
        parses_to(text, store),
    ensures
        load(text) == Ok::<Store, DbError>(store),
        forall|name: Seq<char>| (#[trigger] load(text)->Ok_0.find_all(name)) == store.find_all(name),
        forall|name: Seq<char>, id: u32|
            (#[trigger] load(text)->Ok_0.find_by_id(name, id)) == store.find_by_id(name, id),
{
    lemma_decode_inverts_encode(json_parse(text)->0, store);
}

/// The ids of the records whose field `column` is the string `text`, in
/// ascending order.
pub open spec fn matching_ids(records: Map<u32, Value>, column: Seq<char>, text: Seq<char>) -> Seq<
    u32,
> {
    ordered_ids(records).filter(|id: u32| field_is(records[id], column, text))
}

/// A search by field finds exactly the matching records, in ascending order
/// of their ids: the ids of what it finds are ascending, they are the ids of
/// the table's records whose field `column` is the string `text`, and no
/// others; so where no record matches, it finds none.
pub proof fn law_find_by_value_exact(
    store: Store,
    name: Seq<char>,
    column: Seq<char>,
    text: Seq<char>,
)
    requires
        store.has_table(name),
    ensures
        ({
            let records = store.tables[name].records;
            let ids = matching_ids(records, column, text);
            &&& store.find_by_value(name, column, text) == Some(
                ids.map_values(|id: u32| records[id]),
            )
            &&& ascending(ids)
            &&& forall|id: u32| #[trigger]
                ids.contains(id) <==> records.contains_key(id) && field_is(
                    records[id],
                    column,
                    text,
                )
            &&& (forall|id: u32|
                records.contains_key(id) ==> !field_is(#[trigger] records[id], column, text))
                ==> store.find_by_value(name, column, text) == Some(Seq::<Value>::empty())
        }),
{
    let records = store.tables[name].records;
    lemma_ordered_ids(records);
    lemma_filter_ids(records, ordered_ids(records), column, text);
    let ids = matching_ids(records, column, text);
    let wanted = |id: u32| field_is(records[id], column, text);
    assert forall|id: u32| #[trigger]
        ids.contains(id) <==> records.contains_key(id) && field_is(records[id], column, text) by {
        if records.contains_key(id) && field_is(records[id], column, text) {
            assert(ordered_ids(records).contains(id));
            assert(wanted(id));
        }
    }
    if forall|id: u32| records.contains_key(id) ==> !field_is(#[trigger] records[id], column, text) {
        if ids.len() > 0 {
            assert(ids.contains(ids[0]));
        }
        assert(ids.map_values(|id: u32| records[id]) =~= Seq::<Value>::empty());
    }
}

/// Picking the matching records from a list of ids is picking the matching
/// ids; the picked ids keep their order and are members of the list.
pub proof fn lemma_filter_ids(
    records: Map<u32, Value>,
    ids: Seq<u32>,
    column: Seq<char>,
    text: Seq<char>,
)
    requires
        ascending(ids),
    ensures
        ({
            let picked = ids.filter(|id: u32| field_is(records[id], column, text));
            &&& ids.map_values(|id: u32| records[id]).filter(
                |record: Value| field_is(record, column, text),
            ) == picked.map_values(|id: u32| records[id])
            &&& ascending(picked)
            &&& forall|id: u32| #[trigger]
                picked.contains(id) <==> ids.contains(id) && field_is(records[id], column, text)
        }),
    decreases ids.len(),
{
    reveal(Seq::filter);
    let by_id = |id: u32| field_is(records[id], column, text);
    let by_record = |record: Value| field_is(record, column, text);
    let read = |id: u32| records[id];
    let picked = ids.filter(by_id);
    if ids.len() == 0 {
        assert(ids.map_values(read).filter(by_record) =~= picked.map_values(read));
    } else {
        let front = ids.drop_last();
        let last = ids.last();
        lemma_filter_ids(records, front, column, text);
        let front_picked = front.filter(by_id);
        assert(ids.map_values(read).drop_last() =~= front.map_values(read));
        assert(ids.map_values(read).last() == records[last]);
        if by_id(last) {
            assert(picked == front_picked.push(last));
            assert(ids.map_values(read).filter(by_record) =~= picked.map_values(read));
            assert forall|i: int, j: int| 0 <= i < j < picked.len() implies picked[i]
                < picked[j] by {
                if j == front_picked.len() {
                    assert(front_picked.contains(picked[i]));
                    let k = choose|k: int| 0 <= k < front.len() && front[k] == picked[i];
                    assert(ids[k] < ids[ids.len() - 1]);
                }
            }
        } else {
            assert(picked == front_picked);
            assert(ids.map_values(read).filter(by_record) =~= picked.map_values(read));
        }
        assert forall|id: u32| #[trigger]
            picked.contains(id) <==> ids.contains(id) && field_is(records[id], column, text) by {
            if picked.contains(id) {
                let k = choose|k: int| 0 <= k < picked.len() && picked[k] == id;
                if k < front_picked.len() {
                    assert(front_picked.contains(id));
                    let m = choose|m: int| 0 <= m < front.len() && front[m] == id;
                    assert(ids[m] == id);
                } else {
                    assert(ids[ids.len() - 1] == id);
                }
            }
            if ids.contains(id) && field_is(records[id], column, text) {
                let m = choose|m: int| 0 <= m < ids.len() && ids[m] == id;
                if m < front.len() {
                    assert(front[m] == id);
                    assert(front.contains(id));
                    assert(front_picked.contains(id));
                    let k = choose|k: int| 0 <= k < front_picked.len() && front_picked[k] == id;
                    assert(picked[k] == id);
                } else {
                    assert(picked[picked.len() - 1] == id);
                }
            }
        }
    }
}

} // verus!
