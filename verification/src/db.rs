//! The store: named tables of JSON records, each table with a counter that
//! hands out the ids of its records.
//!
//! The store holds every table in memory and touches no file. It is loaded
//! from the text of its backing file, and every operation that changes it
//! hands back the new text of that file, which the caller writes.

use crate::error::DbError;
use crate::json::{
    clone_value, distinct_keys, holds_entries, json_fields, json_parse, json_print,
    object_entries, object_from, parse_text, to_text,
};
use crate::model::{Store, TableModel};
use crate::snapshot::{
    decode, decode_table, encode_table, encodes, encodes_table, read_table,
};
use crate::table::{values, values_where, Table};
use serde_json::Value;
use std::collections::BTreeMap;
use vstd::prelude::*;

verus! {

/// What an operation that may change the store hands back: its answer, and
/// the text that the backing file has to hold from now on. `snapshot` is
/// `None` where the operation left the store as it was.
pub struct Outcome<T> {
    pub value: T,
    pub snapshot: Option<String>,
}

/// `text` is a snapshot of `store`: the JSON text of a document that is the
/// written form of the store.
pub open spec fn is_snapshot(text: Seq<char>, store: Store) -> bool {
    exists|doc: Value| #[trigger] encodes(doc, store) && json_print(doc) == Some(text)
}

/// A written form of `store` exists that cannot be put into JSON text.
pub open spec fn unprintable(store: Store) -> bool {
    exists|doc: Value| #[trigger] encodes(doc, store) && json_print(doc) is None
}

/// `r` is how an operation ends that changed the store to `store` and answers
/// `value`: with the answer and a snapshot of the store, or with
/// `DbError::Serialize` where the snapshot could not be put into text.
pub open spec fn flushed<T>(r: Result<Outcome<T>, DbError>, value: T, store: Store) -> bool {
    match r {
        Ok(out) => {
            &&& out.value == value
            &&& out.snapshot matches Some(text) && is_snapshot(text@, store)
        },
        Err(e) => e == DbError::Serialize && unprintable(store),
    }
}

/// `r` is how an operation ends that left the store alone and answers
/// `value`: with the answer and no snapshot.
pub open spec fn unflushed<T>(r: Result<Outcome<T>, DbError>, value: T) -> bool {
    match r {
        Ok(out) => out.value == value && out.snapshot is None,
        Err(_) => false,
    }
}

/// What loading from `text` gives: the empty store for an empty text, else
/// the store that the text describes, or the reason why it describes none.
pub open spec fn load(text: Seq<char>) -> Result<Store, DbError> {
    if text.len() == 0 {
        Ok(Store::empty())
    } else {
        match json_parse(text) {
            Some(doc) => match decode(doc) {
                Some(store) => Ok(store),
                None => Err(DbError::Layout),
            },
            None => Err(DbError::Syntax),
        }
    }
}

spec fn distinct_names(tables: Seq<Table>) -> bool {
    forall|i: int, j: int|
        0 <= i < j < tables.len() ==> (#[trigger] tables[i]).name@ != (#[trigger] tables[j]).name@
}

spec fn names(tables: Seq<Table>, name: Seq<char>) -> bool {
    exists|i: int| 0 <= i < tables.len() && (#[trigger] tables[i]).name@ == name
}

spec fn index_of(tables: Seq<Table>, name: Seq<char>) -> int {
    choose|i: int| 0 <= i < tables.len() && (#[trigger] tables[i]).name@ == name
}

spec fn tables_model(tables: Seq<Table>) -> Map<Seq<char>, TableModel> {
    Map::new(
        |name: Seq<char>| names(tables, name),
        |name: Seq<char>| tables[index_of(tables, name)].model(),
    )
}

proof fn lemma_table_at(tables: Seq<Table>, i: int)
    requires
        distinct_names(tables),
        0 <= i < tables.len(),
    ensures
        tables_model(tables).contains_key(tables[i].name@),
        tables_model(tables)[tables[i].name@] == tables[i].model(),
{
    let name = tables[i].name@;
    assert(names(tables, name));
    let j = index_of(tables, name);
    assert(j == i);
}

proof fn lemma_table_changed(before: Seq<Table>, after: Seq<Table>, i: int)
    requires
        distinct_names(before),
        0 <= i < before.len(),
        after.len() == before.len(),
        after[i].name@ == before[i].name@,
        forall|j: int| 0 <= j < before.len() && j != i ==> after[j] == before[j],
    ensures
        distinct_names(after),
        tables_model(after) == tables_model(before).insert(before[i].name@, after[i].model()),
{
    assert forall|j: int| 0 <= j < after.len() implies (#[trigger] after[j]).name@
        == before[j].name@ by {}
    assert(distinct_names(after));
    let m1 = tables_model(after);
    let m2 = tables_model(before).insert(before[i].name@, after[i].model());
    assert forall|name: Seq<char>| m1.contains_key(name) <==> m2.contains_key(name) by {
        if names(after, name) {
            let j = index_of(after, name);
            assert(before[j].name@ == name);
        }
        if names(before, name) {
            let j = index_of(before, name);
            assert(after[j].name@ == name);
        }
        assert(after[i].name@ == before[i].name@);
    }
    assert forall|name: Seq<char>| m1.contains_key(name) implies m1[name] == m2[name] by {
        let j = index_of(after, name);
        lemma_table_at(after, j);
        if j != i {
            lemma_table_at(before, j);
        }
    }
    assert(m1 =~= m2);
}

proof fn lemma_table_pushed(before: Seq<Table>, table: Table)
    requires
        distinct_names(before),
        !names(before, table.name@),
    ensures
        distinct_names(before.push(table)),
        tables_model(before.push(table)) == tables_model(before).insert(
            table.name@,
            table.model(),
        ),
{
    let after = before.push(table);
    assert forall|i: int, j: int| 0 <= i < j < after.len() implies (#[trigger] after[i]).name@ != (
    #[trigger] after[j]).name@ by {
        if j == before.len() {
            assert(before[i].name@ != table.name@);
        }
    }
    let m1 = tables_model(after);
    let m2 = tables_model(before).insert(table.name@, table.model());
    assert forall|name: Seq<char>| m1.contains_key(name) <==> m2.contains_key(name) by {
        if names(after, name) {
            let j = index_of(after, name);
            if j < before.len() {
                assert(before[j].name@ == name);
            }
        }
        if names(before, name) {
            let j = index_of(before, name);
            assert(after[j].name@ == name);
        }
        assert(after[before.len() as int].name@ == table.name@);
    }
    assert forall|name: Seq<char>| m1.contains_key(name) implies m1[name] == m2[name] by {
        let j = index_of(after, name);
        lemma_table_at(after, j);
        if j < before.len() {
            lemma_table_at(before, j);
        }
    }
    assert(m1 =~= m2);
}

/// `tables` holds, last entry first, the tables that the entries from `from`
/// on describe.
spec fn read_tail(listed: Seq<(String, Value)>, from: int, tables: Seq<Table>) -> bool {
    &&& tables.len() == listed.len() - from
    &&& forall|k: int|
        0 <= k < tables.len() ==> (#[trigger] tables[k]).name@ == listed[listed.len() - 1 - k].0@
            && decode_table(listed[listed.len() - 1 - k].1) == Some(tables[k].model())
}

proof fn lemma_read_all(doc: Value, listed: Seq<(String, Value)>, tables: Seq<Table>)
    requires
        json_fields(doc) is Some,
        distinct_keys(listed),
        holds_entries(json_fields(doc)->0, listed),
        read_tail(listed, 0, tables),
    ensures
        distinct_names(tables),
        decode(doc) == Some(Store { tables: tables_model(tables) }),
{
    let fields = json_fields(doc)->0;
    let n = listed.len();
    assert forall|i: int, j: int| 0 <= i < j < tables.len() implies (#[trigger] tables[i]).name@ != (
    #[trigger] tables[j]).name@ by {
        assert(listed[n - 1 - j].0@ != listed[n - 1 - i].0@);
    }
    assert forall|name: Seq<char>| #[trigger] fields.contains_key(name) implies decode_table(
        fields[name],
    ) is Some && names(tables, name) && tables_model(tables)[name] == decode_table(
        fields[name],
    )->0 by {
        let i = choose|i: int| 0 <= i < n && (#[trigger] listed[i]).0@ == name;
        let k = n - 1 - i;
        assert(tables[k].name@ == name);
        lemma_table_at(tables, k);
    }
    assert forall|name: Seq<char>| names(tables, name) implies fields.contains_key(name) by {
        let k = index_of(tables, name);
        assert(fields.contains_key(listed[n - 1 - k].0@));
    }
    assert(decode(doc)->0.tables =~= tables_model(tables));
}

/// What follows the printing of a snapshot: the text where it was printed,
/// `DbError::Serialize` where it was not.
pub fn printed(result: Result<String, serde_json::Error>) -> (r: Result<String, DbError>)
    ensures
        r == match result {
            Ok(text) => Ok::<String, DbError>(text),
            Err(_) => Err(DbError::Serialize),
        },
{
    match result {
        Ok(text) => Ok(text),
        Err(_) => Err(DbError::Serialize),
    }
}

/// The store.
pub struct Db {
    tables: Vec<Table>,
}

impl View for Db {
    type V = Store;

    closed spec fn view(&self) -> Store {
        Store { tables: tables_model(self.tables@) }
    }
}

impl Db {
    #[verifier::type_invariant]
    spec fn well_formed(&self) -> bool {
        distinct_names(self.tables@)
    }

    /// A store without any table.
    pub fn new() -> (db: Db)
        ensures
            db@ == Store::empty(),
    {
        let db = Db { tables: Vec::new() };
        assert(db@.tables =~= Map::empty());
        db
    }

    /// Loads the store from the text of its backing file. A file that is new
    /// or empty gives the store without any table.
    pub fn init(contents: String) -> (r: Result<Db, DbError>)
        ensures
            match r {
                Ok(db) => load(contents@) == Ok::<Store, DbError>(db@),
                Err(e) => load(contents@) == Err::<Store, DbError>(e),
            },
    {
        if contents.as_str().is_empty() {
            Ok(Db::new())
        } else {
            Db::from_parsed(parse_text(contents.as_str()))
        }
    }

    /// What follows the parsing of the backing file's text: the store that
    /// the parsed document describes, `DbError::Syntax` where the text was
    /// not parsed.
    pub fn from_parsed(parsed: Result<Value, serde_json::Error>) -> (r: Result<Db, DbError>)
        ensures
            match parsed {
                Ok(doc) => match r {
                    Ok(db) => decode(doc) == Some(db@),
                    Err(e) => e == DbError::Layout && decode(doc) is None,
                },
                Err(_) => r matches Err(e) && e == DbError::Syntax,
            },
    {
        match parsed {
            Ok(doc) => Db::from_document(&doc),
            Err(_) => Err(DbError::Syntax),
        }
    }

    /// The store that a document describes.
    pub fn from_document(doc: &Value) -> (r: Result<Db, DbError>)
        ensures
            match r {
                Ok(db) => decode(*doc) == Some(db@),
                Err(e) => e == DbError::Layout && decode(*doc) is None,
            },
    {
        let mut entries = match object_entries(doc) {
            Some(entries) => entries,
            None => {
                return Err(DbError::Layout);
            },
        };
        let ghost listed = entries@;
        let mut tables: Vec<Table> = Vec::new();
        while entries.len() > 0
            invariant
                json_fields(*doc) is Some,
                distinct_keys(listed),
                holds_entries(json_fields(*doc)->0, listed),
                entries.len() <= listed.len(),
                entries@ == listed.take(entries.len() as int),
                read_tail(listed, entries.len() as int, tables@),
            decreases entries.len(),
        {
            let ghost at = entries.len() - 1;
            let (name, described) = entries.pop().unwrap();
            assert(name == listed[at].0 && described == listed[at].1);
            match read_table(&described) {
                Some((next_id, data)) => {
                    tables.push(Table { name, next_id, data });
                },
                None => {
                    proof {
                        assert(json_fields(*doc)->0.contains_key(listed[at].0@));
                    }
                    return Err(DbError::Layout);
                },
            }
        }
        proof {
            lemma_read_all(*doc, listed, tables@);
        }
        Ok(Db { tables })
    }

    /// The document that is the written form of the store.
    pub fn document(&self) -> (doc: Value)
        ensures
            encodes(doc, self@),
    {
        proof {
            use_type_invariant(self);
        }
        let mut entries: Vec<(String, Value)> = Vec::new();
        let mut i: usize = 0;
        while i < self.tables.len()
            invariant
                i <= self.tables.len(),
                entries@.len() == i,
                forall|k: int|
                    0 <= k < i ==> (#[trigger] entries@[k]).0@ == self.tables[k].name@
                        && encodes_table(entries@[k].1, self.tables[k].model()),
            decreases self.tables.len() - i,
        {
            let table = &self.tables[i];
            entries.push((table.name.clone(), encode_table(table.next_id, &table.data)));
            i += 1;
        }
        let ghost listed = entries@;
        proof {
            assert forall|a: int, b: int| 0 <= a < b < listed.len() implies (#[trigger] listed[a]).0@
                != (#[trigger] listed[b]).0@ by {
                assert(self.tables[a].name@ != self.tables[b].name@);
            }
        }
        let doc = object_from(entries);
        proof {
            let fields = json_fields(doc)->0;
            let tables = self.tables@;
            assert forall|name: Seq<char>| #[trigger]
                fields.contains_key(name) <==> self@.tables.contains_key(name) by {
                if fields.contains_key(name) {
                    let k = choose|k: int| 0 <= k < listed.len() && (#[trigger] listed[k]).0@ == name;
                    assert(tables[k].name@ == name);
                }
                if names(tables, name) {
                    let k = index_of(tables, name);
                    assert(fields.contains_key(listed[k].0@));
                }
            }
            assert forall|name: Seq<char>| #[trigger]
                self@.tables.contains_key(name) implies encodes_table(
                fields[name],
                self@.tables[name],
            ) by {
                let k = index_of(tables, name);
                assert(fields.contains_key(listed[k].0@));
                assert(fields[listed[k].0@] == listed[k].1);
            }
        }
        doc
    }

    /// The text that the backing file has to hold for the store as it is.
    pub fn snapshot(&self) -> (r: Result<String, DbError>)
        ensures
            match r {
                Ok(text) => is_snapshot(text@, self@),
                Err(e) => e == DbError::Serialize && unprintable(self@),
            },
    {
        let doc = self.document();
        printed(to_text(&doc))
    }

    /// Ends an operation that changed the store.
    fn flush<T>(&self, value: T) -> (r: Result<Outcome<T>, DbError>)
        ensures
            flushed(r, value, self@),
    {
        match self.snapshot() {
            Ok(text) => Ok(Outcome { value, snapshot: Some(text) }),
            Err(e) => Err(e),
        }
    }

    /// Moves the tables out, to be changed and put back.
    fn take_tables(&mut self) -> (tables: Vec<Table>)
        ensures
            tables == old(self).tables,
            distinct_names(tables@),
            final(self).tables@.len() == 0,
    {
        proof {
            use_type_invariant(&*self);
        }
        let mut tables: Vec<Table> = Vec::new();
        std::mem::swap(&mut self.tables, &mut tables);
        tables
    }

    fn position(&self, name: &String) -> (r: Option<usize>)
        ensures
            match r {
                Some(i) => i < self.tables.len() && self.tables[i as int].name@ == name@
                    && self@.has_table(name@) && self@.tables[name@] == self.tables[i as int].model(),
                None => !self@.has_table(name@) && !names(self.tables@, name@),
            },
    {
        proof {
            use_type_invariant(self);
        }
        let mut i: usize = 0;
        while i < self.tables.len()
            invariant
                i <= self.tables.len(),
                distinct_names(self.tables@),
                forall|j: int| 0 <= j < i ==> (#[trigger] self.tables[j]).name@ != name@,
            decreases self.tables.len() - i,
        {
            if self.tables[i].name == *name {
                proof {
                    lemma_table_at(self.tables@, i as int);
                }
                return Some(i);
            }
            i += 1;
        }
        None
    }

    /// Adds a table. Where a table of that name exists, it is left alone and
    /// nothing is written, unless `is_recreate` is set: then a fresh table
    /// takes its place and its records are gone.
    pub fn add_table(&mut self, table_name: String, is_recreate: bool) -> (r: Result<
        Outcome<()>,
        DbError,
    >)
        ensures
            final(self)@ == old(self)@.add_table(table_name@, is_recreate),
            if old(self)@.add_table_writes(table_name@, is_recreate) {
                flushed(r, (), final(self)@)
            } else {
                unflushed(r, ())
            },
    {
        let found = self.position(&table_name);
        if !is_recreate && found.is_some() {
            return Ok(Outcome { value: (), snapshot: None });
        }
        let mut tables = self.take_tables();
        let ghost before = tables@;
        match found {
            Some(i) => {
                tables[i].next_id = 1;
                tables[i].data = BTreeMap::new();
                proof {
                    lemma_table_changed(before, tables@, i as int);
                    assert(tables[i as int].model() == TableModel::fresh());
                }
            },
            None => {
                let table = Table { name: table_name, next_id: 1, data: BTreeMap::new() };
                proof {
                    lemma_table_pushed(before, table);
                    assert(table.model() == TableModel::fresh());
                }
                tables.push(table);
            },
        }
        self.tables = tables;
        self.flush(())
    }

    /// All records of a table, in ascending order of their ids.
    pub fn find_all(&self, table_name: String) -> (r: Option<Vec<Value>>)
        ensures
            match r {
                Some(records) => self@.find_all(table_name@) == Some(records@),
                None => self@.find_all(table_name@) is None,
            },
    {
        match self.position(&table_name) {
            Some(i) => Some(values(&self.tables[i].data)),
            None => None,
        }
    }

    /// The records of a table whose field `column` is the string `value`, in
    /// ascending order of their ids.
    pub fn find_by_value(&self, table_name: String, column: String, value: String) -> (r: Option<
        Vec<Value>,
    >)
        ensures
            match r {
                Some(records) => self@.find_by_value(table_name@, column@, value@) == Some(
                    records@,
                ),
                None => self@.find_by_value(table_name@, column@, value@) is None,
            },
    {
        match self.position(&table_name) {
            Some(i) => Some(
                values_where(&self.tables[i].data, column.as_str(), value.as_str()),
            ),
            None => None,
        }
    }

    /// The record under `id` in a table.
    pub fn find_by_id(&self, table_name: String, id: u32) -> (r: Option<Value>)
        ensures
            r == self@.find_by_id(table_name@, id),
    {
        match self.position(&table_name) {
            Some(i) => match self.tables[i].data.get(&id) {
                Some(v) => Some(clone_value(v)),
                None => None,
            },
            None => None,
        }
    }

    /// Hands out the next id of a table and moves its counter on. The answer
    /// is `None` where the table does not exist. A table whose counter stands
    /// at `u32::MAX` has no id left: that is `DbError::IdsExhausted`, and the
    /// store stays as it is.
    pub fn get_increment_last_id(&mut self, table_name: String) -> (r: Result<
        Outcome<Option<u32>>,
        DbError,
    >)
        ensures
            final(self)@ == old(self)@.issue_id(table_name@),
            if !old(self)@.has_table(table_name@) {
                unflushed(r, None)
            } else if old(self)@.next_id(table_name@) is None {
                r matches Err(e) && e == DbError::IdsExhausted
            } else {
                flushed(r, old(self)@.next_id(table_name@), final(self)@)
            },
    {
        match self.position(&table_name) {
            Some(i) => {
                let id = self.tables[i].next_id;
                if id == u32::MAX {
                    proof {
                        assert(self@.tables =~= self@.issue_id(table_name@).tables);
                    }
                    return Err(DbError::IdsExhausted);
                }
                let mut tables = self.take_tables();
                let ghost before = tables@;
                tables[i].next_id = id + 1;
                proof {
                    lemma_table_changed(before, tables@, i as int);
                    assert(tables[i as int].model() == before[i as int].model().issue_id());
                }
                self.tables = tables;
                self.flush(Some(id))
            },
            None => Ok(Outcome { value: None, snapshot: None }),
        }
    }

    /// Stores `data` under `id` in a table, in place of what was there, and
    /// answers with the stored value. Where the table does not exist the
    /// answer is `None` and nothing is stored or written.
    pub fn insert_or_update(&mut self, table_name: String, id: u32, data: Value) -> (r: Result<
        Outcome<Option<Value>>,
        DbError,
    >)
        ensures
            final(self)@ == old(self)@.upsert(table_name@, id, data),
            if old(self)@.has_table(table_name@) {
                flushed(r, Some(data), final(self)@)
            } else {
                unflushed(r, None)
            },
    {
        match self.position(&table_name) {
            Some(i) => {
                let stored = clone_value(&data);
                let mut tables = self.take_tables();
                let ghost before = tables@;
                tables[i].data.insert(id, data);
                proof {
                    lemma_table_changed(before, tables@, i as int);
                    assert(tables[i as int].model() == before[i as int].model().upsert(id, data));
                }
                self.tables = tables;
                self.flush(Some(stored))
            },
            None => Ok(Outcome { value: None, snapshot: None }),
        }
    }

    /// Removes the record under `id` from a table. The answer is `None` where
    /// the table does not exist; else it holds the removed record, or `None`
    /// where there was none under that id. The snapshot is handed out in
    /// either of the two latter cases.
    pub fn delete_by_id(&mut self, table_name: String, id: u32) -> (r: Result<
        Outcome<Option<Option<Value>>>,
        DbError,
    >)
        ensures
            final(self)@ == old(self)@.delete(table_name@, id),
            if old(self)@.has_table(table_name@) {
                flushed(r, Some(old(self)@.find_by_id(table_name@, id)), final(self)@)
            } else {
                unflushed(r, None)
            },
    {
        match self.position(&table_name) {
            Some(i) => {
                let mut tables = self.take_tables();
                let ghost before = tables@;
                let removed = tables[i].data.remove(&id);
                proof {
                    lemma_table_changed(before, tables@, i as int);
                    assert(tables[i as int].model() == before[i as int].model().delete(id));
                }
                self.tables = tables;
                self.flush(Some(removed))
            },
            None => Ok(Outcome { value: None, snapshot: None }),
        }
    }

    /// Removes every record from a table and answers whether the table
    /// exists. The table's counter stays where it is.
    pub fn delete_all(&mut self, table_name: String) -> (r: Result<Outcome<bool>, DbError>)
        ensures
            final(self)@ == old(self)@.clear(table_name@),
            if old(self)@.has_table(table_name@) {
                flushed(r, true, final(self)@)
            } else {
                unflushed(r, false)
            },
    {
        match self.position(&table_name) {
            Some(i) => {
                let mut tables = self.take_tables();
                let ghost before = tables@;
                tables[i].data.clear();
                proof {
                    lemma_table_changed(before, tables@, i as int);
                    assert(tables[i as int].model() == before[i as int].model().clear());
                }
                self.tables = tables;
                self.flush(true)
            },
            None => Ok(Outcome { value: false, snapshot: None }),
        }
    }
}

} // verus!
