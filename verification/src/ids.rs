//! Identifiers: fresh ones, and those of entities in a project.
use vstd::prelude::*;

use crate::text;

verus! {

/// Whether a character is a hexadecimal digit in lower case.
pub open spec fn hex_digit(c: char) -> bool {
    ('0' <= c && c <= '9') || ('a' <= c && c <= 'f')
}

/// Whether a text is a random UUID without hyphens: thirty-two digits, the
/// thirteenth a 4 and the seventeenth one of 8, 9, a and b.
pub open spec fn simple_uuid(s: Seq<char>) -> bool {
    &&& s.len() == 32
    &&& forall|i: int| 0 <= i < 32 ==> hex_digit(#[trigger] s[i])
    &&& s[12] == '4'
    &&& s[16] == '8' || s[16] == '9' || s[16] == 'a' || s[16] == 'b'
}

/// A fresh id from `uuid::Uuid::new_v4`, written by its `simple` form. The id is
/// random: nothing is promised of it but the shape.
#[verifier::external_body]
pub(crate) fn fresh_uuid() -> (r: String)
    ensures
        simple_uuid(r@),
{
    uuid::Uuid::new_v4().simple().to_string()
}

/// A fresh id behind a prefix.
pub(crate) fn fresh_id(prefix: &str) -> (r: String)
    ensures
        exists|u: Seq<char>| #[trigger] simple_uuid(u) && r@ == prefix@ + u,
{
    let u: String = fresh_uuid();
    let r: String = text::prefixed(prefix, u.as_str());
    assert(simple_uuid(u@) && r@ == prefix@ + u@);
    r
}

/// The id of an entity in a project.
#[derive(Debug, PartialEq, Eq, Hash)]
pub struct EntityId {
    pub value: String,
}

impl EntityId {
    /// A fresh id.
    pub fn new() -> (r: EntityId)
        ensures
            exists|u: Seq<char>| #[trigger] simple_uuid(u) && r.value@ == "ent_"@ + u,
    {
        EntityId { value: fresh_id("ent_") }
    }

    pub fn from_text(value: &str) -> (r: EntityId)
        ensures
            r.value@ == value@,
    {
        EntityId { value: value.to_owned() }
    }

    pub fn as_str(&self) -> (r: &str)
        ensures
            r@ == self.value@,
    {
        self.value.as_str()
    }
}

impl Clone for EntityId {
    fn clone(&self) -> (r: EntityId)
        ensures
            r == *self,
    {
        EntityId { value: self.value.clone() }
    }
}

} // verus!
