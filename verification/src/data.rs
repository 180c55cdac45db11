//! Records kept in the card database.
use vstd::prelude::*;

verus! {

/// A row id in the database.
pub type Id = i64;

/// The id of a card.
pub type CardId = i64;

/// The id of a tag.
pub type TagId = i64;

/// A tag that cards can carry.
pub struct Tag {
    pub id: Id,
    pub name: String,
}

impl Tag {
    pub fn new(id: Id, name: String) -> (t: Self)
        ensures
            t.id == id,
            t.name@ == name@,
    {
        Tag { id, name }
    }
}

} // verus!
