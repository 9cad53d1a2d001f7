//! Unique identifiers for workflow nodes.

use vstd::prelude::*;

verus! {

/// The canonical hyphenated text of a 128-bit UUID, as `uuid` renders it.
pub uninterp spec fn uuid_text_of(bits: u128) -> Seq<char>;

/// Relies on `uuid::Uuid::new_v4` to draw a fresh random version-4 UUID.
/// The value is random; nothing is assumed about it.
#[verifier::external_body]
fn fresh_uuid_bits() -> u128 {
    uuid::Uuid::new_v4().as_u128()
}

/// Relies on `uuid::Uuid::to_string`, which renders the canonical
/// hyphenated form: 36 characters, with hyphens at positions 8, 13, 18
/// and 23.  The text is a function of the bits alone.
#[verifier::external_body]
fn uuid_hyphenated(bits: u128) -> (r: String)
    ensures
        r@ == uuid_text_of(bits),
        r@.len() == 36,
        r@[8] == '-',
        r@[13] == '-',
        r@[18] == '-',
        r@[23] == '-',
{
    uuid::Uuid::from_u128(bits).to_string()
}

/// A unique identifier for a workflow node.
///
/// Generated freshly for every node; equality and hashing use the raw
/// 128 bits.
#[derive(Debug, Clone, Copy, PartialEq, Eq, Hash, Structural)]
pub struct Id {
    bits: u128,
}

impl Id {
    /// The raw bits of the identifier.
    pub closed spec fn bits(&self) -> u128 {
        self.bits
    }

    /// Draw a fresh identifier.
    pub fn fresh() -> Id {
        Id { bits: fresh_uuid_bits() }
    }

    /// Render the identifier as the canonical textual UUID.
    pub fn text(&self) -> (r: String)
        ensures
            r@ == uuid_text_of(self.bits()),
            r@.len() == 36,
    {
        uuid_hyphenated(self.bits)
    }
}

} // verus!
