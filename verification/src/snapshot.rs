//! The persisted form of the store: one JSON document whose top level maps
//! each table name to `{ "next_id": <number>, "data": { "<id>": <record> } }`,
//! the ids written in decimal.
//!
//! `encodes` says when a document is the form of a store, `decode` reads a
//! store back from a document, and `lemma_decode_inverts_encode` shows that
//! reading what was written gives the same store.

use crate::decimal::{
    decimal, decimal_value, lemma_decimal_injective, lemma_decimal_value, parse_decimal,
    to_decimal,
};
use crate::json::{
    as_u64, clone_value, distinct_keys, get_field, holds_entries, json_fields, json_u64, number,
    object_entries, object_from,
};
use crate::model::{lemma_ordered_ids, ordered_ids, Store, TableModel};
use crate::table::{lemma_walk_in_order, walk_ids};
use serde_json::Value;
use std::collections::BTreeMap;
use vstd::prelude::*;
use vstd::std_specs::iter::IteratorSpec;

verus! {

/// The key under which a table's id counter is written.
pub open spec fn next_id_key() -> Seq<char> {
    "next_id"@
}

/// The key under which a table's records are written.
pub open spec fn data_key() -> Seq<char> {
    "data"@
}

/// `v` is the written form of `records`: an object with one field for each
/// record, its key the decimal form of the id.
pub open spec fn encodes_records(v: Value, records: Map<u32, Value>) -> bool {
    match json_fields(v) {
        Some(fields) => {
            &&& forall|id: u32| #[trigger]
                records.contains_key(id) ==> fields.contains_key(decimal(id as nat))
                    && fields[decimal(id as nat)] == records[id]
            &&& forall|key: Seq<char>| #[trigger]
                fields.contains_key(key) ==> decimal_value(key) is Some && records.contains_key(
                    decimal_value(key)->0,
                )
        },
        None => false,
    }
}

/// `v` is the written form of `table`: an object with the two fields
/// `next_id` and `data`.
pub open spec fn encodes_table(v: Value, table: TableModel) -> bool {
    match json_fields(v) {
        Some(fields) => {
            &&& forall|key: Seq<char>| #[trigger]
                fields.contains_key(key) <==> (key == next_id_key() || key == data_key())
            &&& json_u64(fields[next_id_key()]) == Some(table.next_id as u64)
            &&& encodes_records(fields[data_key()], table.records)
        },
        None => false,
    }
}

/// `doc` is the written form of `store`: an object with one field for each
/// table, its key the table's name.
pub open spec fn encodes(doc: Value, store: Store) -> bool {
    match json_fields(doc) {
        Some(fields) => {
            &&& forall|name: Seq<char>| #[trigger]
                fields.contains_key(name) <==> store.tables.contains_key(name)
            &&& forall|name: Seq<char>| #[trigger]
                store.tables.contains_key(name) ==> encodes_table(fields[name], store.tables[name])
        },
        None => false,
    }
}

/// The records that an object holds under decimal ids; `None` where `v` is
/// not an object or one of its keys is not the decimal form of an id.
pub open spec fn decode_records(v: Value) -> Option<Map<u32, Value>> {
    match json_fields(v) {
        Some(fields) => if forall|key: Seq<char>| #[trigger]
            fields.contains_key(key) ==> decimal_value(key) is Some {
            Some(
                Map::new(
                    |id: u32| fields.contains_key(decimal(id as nat)),
                    |id: u32| fields[decimal(id as nat)],
                ),
            )
        } else {
            None
        },
        None => None,
    }
}

/// The table that an object describes; `None` where `v` is not an object,
/// lacks `next_id` or `data`, has a `next_id` that is no integer from zero
/// to `u32::MAX`, or has a `data` that `decode_records` does not read. Other
/// fields of the object are passed over.
pub open spec fn decode_table(v: Value) -> Option<TableModel> {
    match json_fields(v) {
        Some(fields) => if fields.contains_key(next_id_key()) && fields.contains_key(data_key()) {
            match (json_u64(fields[next_id_key()]), decode_records(fields[data_key()])) {
                (Some(n), Some(records)) => if n <= u32::MAX {
                    Some(TableModel { next_id: n as u32, records })
                } else {
                    None
                },
                _ => None,
            }
        } else {
            None
        },
        None => None,
    }
}

/// The store that a document describes; `None` where `doc` is not an object
/// or one of its fields is not a table.
pub open spec fn decode(doc: Value) -> Option<Store> {
    match json_fields(doc) {
        Some(fields) => if forall|name: Seq<char>| #[trigger]
            fields.contains_key(name) ==> decode_table(fields[name]) is Some {
            Some(
                Store {
                    tables: Map::new(
                        |name: Seq<char>| fields.contains_key(name),
                        |name: Seq<char>| decode_table(fields[name])->0,
                    ),
                },
            )
        } else {
            None
        },
        None => None,
    }
}

/// The two keys of a table's written form are different keys.
pub proof fn lemma_keys_differ()
    ensures
        next_id_key() != data_key(),
{
    reveal_strlit("next_id");
    reveal_strlit("data");
    assert(next_id_key().len() == 7);
    assert(data_key().len() == 4);
}

/// Reading the written form of some records gives these records.
pub proof fn lemma_decode_records(v: Value, records: Map<u32, Value>)
    requires
        encodes_records(v, records),
    ensures
        decode_records(v) == Some(records),
{
    let fields = json_fields(v)->0;
    let read = Map::new(
        |id: u32| fields.contains_key(decimal(id as nat)),
        |id: u32| fields[decimal(id as nat)],
    );
    assert forall|id: u32| read.contains_key(id) <==> records.contains_key(id) by {
        if read.contains_key(id) {
            let key = decimal(id as nat);
            assert(fields.contains_key(key));
            lemma_decimal_value(key, id);
        }
    }
    assert(read =~= records);
}

/// Reading the written form of a table gives this table.
pub proof fn lemma_decode_table(v: Value, table: TableModel)
    requires
        encodes_table(v, table),
    ensures
        decode_table(v) == Some(table),
{
    let fields = json_fields(v)->0;
    assert(fields.contains_key(next_id_key()));
    assert(fields.contains_key(data_key()));
    lemma_decode_records(fields[data_key()], table.records);
}

/// Reading the written form of a store gives this store.
pub proof fn lemma_decode_inverts_encode(doc: Value, store: Store)
    requires
        encodes(doc, store),
    ensures
        decode(doc) == Some(store),
{
    let fields = json_fields(doc)->0;
    assert forall|name: Seq<char>| #[trigger] fields.contains_key(name) implies decode_table(
        fields[name],
    ) == Some(store.tables[name]) by {
        assert(store.tables.contains_key(name));
        lemma_decode_table(fields[name], store.tables[name]);
    }
    assert(decode(doc)->0.tables =~= store.tables);
}

/// Writes the records of a table.
pub(crate) fn encode_records(data: &BTreeMap<u32, Value>) -> (v: Value)
    ensures
        encodes_records(v, data@),
{
    let mut entries: Vec<(String, Value)> = Vec::new();
    let it = data.iter();
    let ghost pairs = it.remaining();
    proof {
        lemma_walk_in_order(data, pairs);
    }
    for kv in iter: it
        invariant
            iter.seq() == pairs,
            entries@.len() == iter.index(),
            forall|i: int|
                0 <= i < entries@.len() ==> (#[trigger] entries@[i]).0@ == decimal(
                    *pairs[i].0 as nat,
                ) && entries@[i].1 == *pairs[i].1,
    {
        entries.push((to_decimal(*kv.0), clone_value(kv.1)));
    }
    let ghost listed = entries@;
    proof {
        let ids = walk_ids(pairs);
        lemma_ordered_ids(data@);
        assert forall|i: int, j: int| 0 <= i < j < listed.len() implies (#[trigger] listed[i]).0@
            != (#[trigger] listed[j]).0@ by {
            assert(ids[i] < ids[j]);
            if listed[i].0@ == listed[j].0@ {
                lemma_decimal_injective(ids[i] as nat, ids[j] as nat);
            }
        }
    }
    let v = object_from(entries);
    proof {
        let ids = walk_ids(pairs);
        let fields = json_fields(v)->0;
        assert forall|id: u32| #[trigger] data@.contains_key(id) implies fields.contains_key(
            decimal(id as nat),
        ) && fields[decimal(id as nat)] == data@[id] by {
            assert(ordered_ids(data@).contains(id));
            let i = choose|i: int| 0 <= i < ids.len() && ids[i] == id;
            assert(listed[i].0@ == decimal(id as nat));
        }
        assert forall|key: Seq<char>| #[trigger] fields.contains_key(key) implies decimal_value(
            key,
        ) is Some && data@.contains_key(decimal_value(key)->0) by {
            let i = choose|i: int| 0 <= i < listed.len() && (#[trigger] listed[i]).0@ == key;
            lemma_decimal_value(key, ids[i]);
        }
    }
    v
}

/// `data` holds what the entries from `from` on list, each under the id that
/// its key spells, and nothing else.
spec fn holds_tail(listed: Seq<(String, Value)>, from: int, data: Map<u32, Value>) -> bool {
    &&& forall|i: int|
        from <= i < listed.len() ==> decimal_value((#[trigger] listed[i]).0@) is Some
            && data.contains_key(decimal_value(listed[i].0@)->0) && data[decimal_value(
            listed[i].0@,
        )->0] == listed[i].1
    &&& forall|id: u32| #[trigger]
        data.contains_key(id) ==> exists|i: int|
            from <= i < listed.len() && (#[trigger] listed[i]).0@ == decimal(id as nat)
}

proof fn lemma_tail_step(listed: Seq<(String, Value)>, at: int, before: Map<u32, Value>, id: u32)
    requires
        distinct_keys(listed),
        0 <= at < listed.len(),
        holds_tail(listed, at + 1, before),
        listed[at].0@ == decimal(id as nat),
    ensures
        holds_tail(listed, at, before.insert(id, listed[at].1)),
{
    let after = before.insert(id, listed[at].1);
    lemma_decimal_value(listed[at].0@, id);
    assert forall|i: int| at <= i < listed.len() implies decimal_value(
        (#[trigger] listed[i]).0@,
    ) is Some && after.contains_key(decimal_value(listed[i].0@)->0) && after[decimal_value(
        listed[i].0@,
    )->0] == listed[i].1 by {
        if i > at {
            lemma_decimal_value(listed[i].0@, id);
            assert(listed[at].0@ != listed[i].0@);
        }
    }
    assert forall|other: u32| #[trigger] after.contains_key(other) implies exists|i: int|
        at <= i < listed.len() && (#[trigger] listed[i]).0@ == decimal(other as nat) by {
        if other == id {
            assert(listed[at].0@ == decimal(other as nat));
        } else {
            assert(before.contains_key(other));
            let i = choose|i: int|
                at + 1 <= i < listed.len() && (#[trigger] listed[i]).0@ == decimal(other as nat);
            assert(listed[i].0@ == decimal(other as nat));
        }
    }
}

proof fn lemma_tail_done(v: Value, listed: Seq<(String, Value)>, data: Map<u32, Value>)
    requires
        json_fields(v) is Some,
        holds_entries(json_fields(v)->0, listed),
        holds_tail(listed, 0, data),
    ensures
        decode_records(v) == Some(data),
{
    let fields = json_fields(v)->0;
    let read = Map::new(
        |id: u32| fields.contains_key(decimal(id as nat)),
        |id: u32| fields[decimal(id as nat)],
    );
    assert forall|key: Seq<char>| #[trigger] fields.contains_key(key) implies decimal_value(
        key,
    ) is Some by {
        let i = choose|i: int| 0 <= i < listed.len() && (#[trigger] listed[i]).0@ == key;
        assert(decimal_value(listed[i].0@) is Some);
    }
    assert forall|id: u32| read.contains_key(id) <==> data.contains_key(id) by {
        if read.contains_key(id) {
            let key = decimal(id as nat);
            let i = choose|i: int| 0 <= i < listed.len() && (#[trigger] listed[i]).0@ == key;
            lemma_decimal_value(key, id);
            assert(data.contains_key(decimal_value(listed[i].0@)->0));
        }
        if data.contains_key(id) {
            let i = choose|i: int|
                0 <= i < listed.len() && (#[trigger] listed[i]).0@ == decimal(id as nat);
            assert(fields.contains_key(listed[i].0@));
        }
    }
    assert forall|id: u32| read.contains_key(id) implies read[id] == data[id] by {
        let key = decimal(id as nat);
        let i = choose|i: int| 0 <= i < listed.len() && (#[trigger] listed[i]).0@ == key;
        lemma_decimal_value(key, id);
        assert(data[decimal_value(listed[i].0@)->0] == listed[i].1);
        assert(fields[listed[i].0@] == listed[i].1);
    }
    assert(read =~= data);
}

/// Reads the records of a table.
pub(crate) fn read_records(v: &Value) -> (r: Option<BTreeMap<u32, Value>>)
    ensures
        match r {
            Some(data) => decode_records(*v) == Some(data@),
            None => decode_records(*v) is None,
        },
{
    let mut entries = match object_entries(v) {
        Some(entries) => entries,
        None => {
            return None;
        },
    };
    let ghost listed = entries@;
    let mut data: BTreeMap<u32, Value> = BTreeMap::new();
    while entries.len() > 0
        invariant
            json_fields(*v) is Some,
            distinct_keys(listed),
            holds_entries(json_fields(*v)->0, listed),
            entries.len() <= listed.len(),
            entries@ == listed.take(entries.len() as int),
            holds_tail(listed, entries.len() as int, data@),
        decreases entries.len(),
    {
        let ghost at = entries.len() - 1;
        let ghost before = data@;
        let (key, value) = entries.pop().unwrap();
        assert(key == listed[at].0 && value == listed[at].1);
        match parse_decimal(key.as_str()) {
            Some(id) => {
                data.insert(id, value);
                proof {
                    lemma_decimal_value(key@, id);
                    lemma_tail_step(listed, at, before, id);
                }
            },
            None => {
                proof {
                    assert(json_fields(*v)->0.contains_key(listed[at].0@));
                }
                return None;
            },
        }
    }
    proof {
        lemma_tail_done(*v, listed, data@);
    }
    Some(data)
}

/// Writes a table.
pub(crate) fn encode_table(next_id: u32, data: &BTreeMap<u32, Value>) -> (v: Value)
    ensures
        encodes_table(v, TableModel { next_id, records: data@ }),
{
    let mut entries: Vec<(String, Value)> = Vec::new();
    entries.push(("next_id".to_owned(), number(next_id)));
    entries.push(("data".to_owned(), encode_records(data)));
    proof {
        lemma_keys_differ();
        assert(entries@[0].0@ == next_id_key());
        assert(entries@[1].0@ == data_key());
    }
    let ghost listed = entries@;
    let v = object_from(entries);
    proof {
        let fields = json_fields(v)->0;
        assert(fields.contains_key(listed[0].0@));
        assert(fields.contains_key(listed[1].0@));
    }
    v
}

/// Reads a table: its id counter and its records.
pub(crate) fn read_table(v: &Value) -> (r: Option<(u32, BTreeMap<u32, Value>)>)
    ensures
        match r {
            Some((next_id, data)) => decode_table(*v) == Some(
                TableModel { next_id, records: data@ },
            ),
            None => decode_table(*v) is None,
        },
{
    let counter = match get_field(v, "next_id") {
        Some(counter) => counter,
        None => {
            return None;
        },
    };
    let records = match get_field(v, "data") {
        Some(records) => records,
        None => {
            return None;
        },
    };
    let n = match as_u64(counter) {
        Some(n) => n,
        None => {
            return None;
        },
    };
    if n > 0xffff_ffff {
        return None;
    }
    match read_records(records) {
        Some(data) => Some((n as u32, data)),
        None => None,
    }
}

} // verus!
