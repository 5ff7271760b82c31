//! The store as a mathematical value: tables by name, each with its id
//! counter and its records by id. Every operation of the store is a function
//! on this model, and the executable store is held to these functions.

use crate::json::{json_fields, json_text};
use serde_json::Value;
use vstd::prelude::*;

verus! {

/// A table: the id it hands out next, and its records by id.
#[verifier::ext_equal]
pub struct TableModel {
    pub next_id: u32,
    pub records: Map<u32, Value>,
}

impl TableModel {
    /// A table as it is created: no records, and `1` as the first id.
    pub open spec fn fresh() -> TableModel {
        TableModel { next_id: 1, records: Map::empty() }
    }

    /// The table after it has handed out its next id. A table whose counter
    /// stands at `u32::MAX` hands out nothing and stays as it is.
    pub open spec fn issue_id(self) -> TableModel {
        if self.next_id < u32::MAX {
            TableModel { next_id: (self.next_id + 1) as u32, records: self.records }
        } else {
            self
        }
    }

    /// The table with `value` stored under `id`, in place of what was there.
    pub open spec fn upsert(self, id: u32, value: Value) -> TableModel {
        TableModel { next_id: self.next_id, records: self.records.insert(id, value) }
    }

    /// The table without the record under `id`.
    pub open spec fn delete(self, id: u32) -> TableModel {
        TableModel { next_id: self.next_id, records: self.records.remove(id) }
    }

    /// The table without any record; its counter stays.
    pub open spec fn clear(self) -> TableModel {
        TableModel { next_id: self.next_id, records: Map::empty() }
    }
}

/// The ids below `bound` that `records` holds, in ascending order.
pub open spec fn ids_below(records: Map<u32, Value>, bound: nat) -> Seq<u32>
    decreases bound,
{
    if bound == 0 {
        Seq::empty()
    } else {
        let id = (bound - 1) as u32;
        let rest = ids_below(records, (bound - 1) as nat);
        if records.contains_key(id) {
            rest.push(id)
        } else {
            rest
        }
    }
}

/// All ids that `records` holds, in ascending order.
pub open spec fn ordered_ids(records: Map<u32, Value>) -> Seq<u32> {
    ids_below(records, 0x1_0000_0000)
}

/// All records, in ascending order of their ids.
pub open spec fn ordered_records(records: Map<u32, Value>) -> Seq<Value> {
    ordered_ids(records).map_values(|id: u32| records[id])
}

/// Whether `record` is a JSON object whose own field `column` is the JSON
/// string `text`. A record that is no object, that lacks the field, or whose
/// field is not a string does not match.
pub open spec fn field_is(record: Value, column: Seq<char>, text: Seq<char>) -> bool {
    match json_fields(record) {
        Some(fields) => fields.contains_key(column) && json_text(fields[column]) == Some(text),
        None => false,
    }
}

/// The store: its tables by name.
#[verifier::ext_equal]
pub struct Store {
    pub tables: Map<Seq<char>, TableModel>,
}

impl Store {
    /// The store without any table.
    pub open spec fn empty() -> Store {
        Store { tables: Map::empty() }
    }

    /// Whether a table of that name exists.
    pub open spec fn has_table(self, name: Seq<char>) -> bool {
        self.tables.contains_key(name)
    }

    /// The store after a table is added. An existing table is left alone
    /// unless `recreate` is set; then a fresh one takes its place.
    pub open spec fn add_table(self, name: Seq<char>, recreate: bool) -> Store {
        if !recreate && self.has_table(name) {
            self
        } else {
            Store { tables: self.tables.insert(name, TableModel::fresh()) }
        }
    }

    /// Whether adding a table changes the store, and so calls for a snapshot.
    pub open spec fn add_table_writes(self, name: Seq<char>, recreate: bool) -> bool {
        recreate || !self.has_table(name)
    }

    /// The record under `id` in a table; `None` where the table or the
    /// record does not exist.
    pub open spec fn find_by_id(self, name: Seq<char>, id: u32) -> Option<Value> {
        if self.has_table(name) && self.tables[name].records.contains_key(id) {
            Some(self.tables[name].records[id])
        } else {
            None
        }
    }

    /// All records of a table in ascending order of their ids; `None` where
    /// the table does not exist.
    pub open spec fn find_all(self, name: Seq<char>) -> Option<Seq<Value>> {
        if self.has_table(name) {
            Some(ordered_records(self.tables[name].records))
        } else {
            None
        }
    }

    /// The records of a table whose field `column` is the string `text`, in
    /// ascending order of their ids; `None` where the table does not exist.
    pub open spec fn find_by_value(
        self,
        name: Seq<char>,
        column: Seq<char>,
        text: Seq<char>,
    ) -> Option<Seq<Value>> {
        if self.has_table(name) {
            Some(
                ordered_records(self.tables[name].records).filter(
                    |record: Value| field_is(record, column, text),
                ),
            )
        } else {
            None
        }
    }

    /// The id that a table hands out next; `None` where the table does not
    /// exist or its counter stands at `u32::MAX`.
    pub open spec fn next_id(self, name: Seq<char>) -> Option<u32> {
        if self.has_table(name) && self.tables[name].next_id < u32::MAX {
            Some(self.tables[name].next_id)
        } else {
            None
        }
    }

    /// The store after a table has handed out its next id.
    pub open spec fn issue_id(self, name: Seq<char>) -> Store {
        if self.has_table(name) {
            Store { tables: self.tables.insert(name, self.tables[name].issue_id()) }
        } else {
            self
        }
    }

    /// The store after `value` is stored under `id` in a table. A store
    /// without that table stays as it is.
    pub open spec fn upsert(self, name: Seq<char>, id: u32, value: Value) -> Store {
        if self.has_table(name) {
            Store { tables: self.tables.insert(name, self.tables[name].upsert(id, value)) }
        } else {
            self
        }
    }

    /// The store after the record under `id` is removed from a table.
    pub open spec fn delete(self, name: Seq<char>, id: u32) -> Store {
        if self.has_table(name) {
            Store { tables: self.tables.insert(name, self.tables[name].delete(id)) }
        } else {
            self
        }
    }

    /// The store after all records are removed from a table.
    pub open spec fn clear(self, name: Seq<char>) -> Store {
        if self.has_table(name) {
            Store { tables: self.tables.insert(name, self.tables[name].clear()) }
        } else {
            self
        }
    }
}

/// Each id is smaller than the ones after it.
pub open spec fn ascending(ids: Seq<u32>) -> bool {
    forall|i: int, j: int| 0 <= i < j < ids.len() ==> ids[i] < ids[j]
}

/// `ids_below` lists, in ascending order, exactly the ids below the bound
/// that the records hold.
pub proof fn lemma_ids_below(records: Map<u32, Value>, bound: nat)
    requires
        bound <= 0x1_0000_0000,
    ensures
        ascending(ids_below(records, bound)),
        forall|id: u32| #[trigger]
            ids_below(records, bound).contains(id) <==> (records.contains_key(id) && id < bound),
    decreases bound,
{
    if bound > 0 {
        lemma_ids_below(records, (bound - 1) as nat);
        let rest = ids_below(records, (bound - 1) as nat);
        let last = (bound - 1) as u32;
        let all = ids_below(records, bound);
        if records.contains_key(last) {
            assert(all == rest.push(last));
            assert forall|i: int, j: int| 0 <= i < j < all.len() implies all[i] < all[j] by {
                assert(all[i] == rest[i]);
                assert(rest.contains(rest[i]));
                if j < rest.len() {
                    assert(all[j] == rest[j]);
                } else {
                    assert(all[j] == last);
                }
            }
            assert forall|id: u32| #[trigger]
                all.contains(id) <==> (records.contains_key(id) && id < bound) by {
                if all.contains(id) {
                    let k = choose|k: int| 0 <= k < all.len() && all[k] == id;
                    if k < rest.len() {
                        assert(rest.contains(rest[k]));
                    }
                }
                if records.contains_key(id) && id < bound {
                    if id == last {
                        assert(all[rest.len() as int] == id);
                    } else {
                        assert(rest.contains(id));
                        let k = choose|k: int| 0 <= k < rest.len() && rest[k] == id;
                        assert(all[k] == id);
                    }
                }
            }
        }
    }
}

/// Two ascending sequences with the same members are the same sequence.
pub proof fn lemma_ascending_unique(a: Seq<u32>, b: Seq<u32>)
    requires
        ascending(a),
        ascending(b),
        forall|x: u32| #![trigger a.contains(x)] #![trigger b.contains(x)] a.contains(x) <==> b.contains(x),
    ensures
        a == b,
    decreases a.len(),
{
    if a.len() == 0 {
        if b.len() > 0 {
            assert(b.contains(b[0]));
        }
        assert(a =~= b);
    } else if b.len() == 0 {
        assert(a.contains(a[0]));
    } else {
        let x = a.last();
        let y = b.last();
        assert(a.contains(x));
        assert(b.contains(y));
        let i = choose|i: int| 0 <= i < b.len() && b[i] == x;
        let j = choose|j: int| 0 <= j < a.len() && a[j] == y;
        assert(x == y);
        let a0 = a.drop_last();
        let b0 = b.drop_last();
        assert forall|z: u32| a0.contains(z) <==> b0.contains(z) by {
            if a0.contains(z) {
                let k = choose|k: int| 0 <= k < a0.len() && a0[k] == z;
                assert(a[k] == z);
                assert(a.contains(z));
                let m = choose|m: int| 0 <= m < b.len() && b[m] == z;
                assert(m < b.len() - 1);
                assert(b0[m] == z);
            }
            if b0.contains(z) {
                let k = choose|k: int| 0 <= k < b0.len() && b0[k] == z;
                assert(b[k] == z);
                assert(b.contains(z));
                let m = choose|m: int| 0 <= m < a.len() && a[m] == z;
                assert(m < a.len() - 1);
                assert(a0[m] == z);
            }
        }
        lemma_ascending_unique(a0, b0);
        assert(a =~= a0.push(x));
        assert(b =~= b0.push(y));
    }
}

/// An ascending list of exactly the ids that the records hold is the list of
/// their ids in order.
pub proof fn lemma_ordered_ids_unique(records: Map<u32, Value>, ids: Seq<u32>)
    requires
        ascending(ids),
        forall|id: u32| #[trigger] ids.contains(id) <==> records.contains_key(id),
    ensures
        ids == ordered_ids(records),
{
    lemma_ids_below(records, 0x1_0000_0000);
    lemma_ascending_unique(ids, ordered_ids(records));
}

/// The ids in order are ascending and are exactly the ids that the records
/// hold.
pub proof fn lemma_ordered_ids(records: Map<u32, Value>)
    ensures
        ascending(ordered_ids(records)),
        forall|id: u32| #[trigger] ordered_ids(records).contains(id) <==> records.contains_key(id),
        ordered_records(records).len() == ordered_ids(records).len(),
{
    lemma_ids_below(records, 0x1_0000_0000);
}

} // verus!
