//! Persistence core of a small inventory manager.
//!
//! The crate models a document store (named collections of semi-structured
//! documents with unique indexes) and implements, against that store, a
//! generic persistence protocol shared by four entities: suppliers
//! (`Fornecedor`), brands (`Marca`), products (`Produto`) and tags (`Tag`).
//! Products embed denormalized snapshots of their supplier and tags; updating
//! a supplier, brand or tag propagates the change to every product that
//! embeds a stale copy.

use vstd::prelude::*;
use vstd::string::*;

pub mod endereco;
pub mod filter;
pub mod fornecedor;
pub mod laws;
pub mod marca;
pub mod produto;
pub mod store;
pub mod tag;
pub mod text;
pub mod updatable;
pub mod value;

verus! {

/// Errors of the persistence core.
///
/// Every error a core operation can report. Conversion failures between an
/// entity and its document form surface as `Serialization`; `Store` is kept
/// for the one place where the store itself refuses a value (a numeric code
/// outside the range its integer conversion accepts).
#[derive(Clone, Copy, Debug, PartialEq, Eq, Structural)]
pub enum Erro {
    /// A document could not be converted to or from an entity.
    Serialization,
    /// The store refused an operation (numeric conversion out of range).
    Store,
    /// A lookup or delete target was absent.
    NotFound,
    /// A replace keyed by identifier matched zero documents.
    NotFoundOnReplace,
    /// The operation requires an identifier and the entity has none.
    MissingIdentifier,
    /// A uniqueness constraint would be violated.
    DuplicateKey,
    /// A malformed identifier string was supplied at the boundary.
    InvalidArgument,
}

impl Erro {
    /// The human-readable message handed to the surrounding application.
    pub open spec fn spec_message(self) -> Seq<char> {
        match self {
            Erro::Serialization => "failed to serialize entity to document"@,
            Erro::Store => "store refused the operation"@,
            Erro::NotFound => "not found"@,
            Erro::NotFoundOnReplace => "no document matched the identifier"@,
            Erro::MissingIdentifier => "id is required"@,
            Erro::DuplicateKey => "duplicate key"@,
            Erro::InvalidArgument => "invalid identifier"@,
        }
    }

    /// All core errors cross the boundary as plain strings.
    pub fn message(&self) -> (r: String)
        ensures
            r@ == self.spec_message(),
    {
        match self {
            Erro::Serialization => String::from_str("failed to serialize entity to document"),
            Erro::Store => String::from_str("store refused the operation"),
            Erro::NotFound => String::from_str("not found"),
            Erro::NotFoundOnReplace => String::from_str("no document matched the identifier"),
            Erro::MissingIdentifier => String::from_str("id is required"),
            Erro::DuplicateKey => String::from_str("duplicate key"),
            Erro::InvalidArgument => String::from_str("invalid identifier"),
        }
    }
}

} // verus!
