//! An item as it is stored and as it comes in, and the answers about items.

use crate::decimal::{decimal, push_decimal};
use crate::response::{DeleteResponse, Detail, FetchResponse, UpdateResponse};
use vstd::prelude::*;
use vstd::string::StringExecFns;

verus! {

/// An item of the `item` table.
#[derive(Debug, Clone)]
pub struct Item {
    pub id: u32,
    pub name: String,
}

impl Item {
    pub fn new(id: u32, name: String) -> (item: Self)
        ensures
            item.id == id,
            item.name == name,
    {
        Self { id, name }
    }
}

/// What a client sends to create an item.
pub struct ItemCreateBody {
    pub name: String,
}

/// What a client sends to change an item.
pub struct ItemUpdateBody {
    pub name: String,
}

/// The message that no item has the id `id`.
pub open spec fn not_found_message(id: u32) -> Seq<char> {
    "Item "@ + decimal(id as nat) + " not found."@
}

/// The message that an item was deleted.
pub open spec fn deleted_message() -> Seq<char> {
    "Item deleted successfully."@
}

/// The detail that no item has the id `id`.
pub fn not_found_detail(id: u32) -> (detail: Detail)
    ensures
        detail.message@ == not_found_message(id),
{
    let mut message = String::from_str("Item ");
    push_decimal(&mut message, id);
    message.append(" not found.");
    Detail { message }
}

/// An answer that can say that no item has a given id.
pub trait ItemNotFound: Sized {
    /// Whether the answer says that no item has the id `id`.
    spec fn says_not_found(&self, id: u32) -> bool;

    fn not_found(id: u32) -> (r: Self)
        ensures
            r.says_not_found(id),
    ;
}

impl ItemNotFound for FetchResponse<Item> {
    open spec fn says_not_found(&self, id: u32) -> bool {
        self matches FetchResponse::NotFound(detail) && detail.message@ == not_found_message(id)
    }

    fn not_found(id: u32) -> (r: Self) {
        FetchResponse::NotFound(not_found_detail(id))
    }
}

impl ItemNotFound for UpdateResponse<Item> {
    open spec fn says_not_found(&self, id: u32) -> bool {
        self matches UpdateResponse::NotFound(detail) && detail.message@ == not_found_message(id)
    }

    fn not_found(id: u32) -> (r: Self) {
        UpdateResponse::NotFound(not_found_detail(id))
    }
}

impl ItemNotFound for DeleteResponse {
    open spec fn says_not_found(&self, id: u32) -> bool {
        self matches DeleteResponse::NotFound(detail) && detail.message@ == not_found_message(id)
    }

    fn not_found(id: u32) -> (r: Self) {
        DeleteResponse::NotFound(not_found_detail(id))
    }
}

/// An answer that can say that an item was deleted.
pub trait ItemDelete: Sized {
    /// Whether the answer says that the item was deleted.
    spec fn says_deleted(&self) -> bool;

    fn success() -> (r: Self)
        ensures
            r.says_deleted(),
    ;
}

impl ItemDelete for DeleteResponse {
    open spec fn says_deleted(&self) -> bool {
        self matches DeleteResponse::Success(detail) && detail.message@ == deleted_message()
    }

    fn success() -> (r: Self) {
        let detail = Detail { message: String::from_str("Item deleted successfully.") };
        DeleteResponse::Success(detail)
    }
}

} // verus!
