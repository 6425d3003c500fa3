//! The tagged-union value representation of a PDF object, and the identifier
//! of an indirect object.

use vstd::prelude::*;

use crate::dict::Dictionary;

verus! {

/// The composite key of one indirect object. The document store allocates
/// numbers strictly increasing; equality is structural on both fields.
#[derive(Clone, Copy, Debug, PartialEq, Eq, Hash, Structural)]
pub struct ObjectId {
    pub number: u32,
    pub generation: u16,
}

/// How a string object was written in the file: as a literal or in hex.
/// Not semantically relevant to metadata text.
#[derive(Clone, Copy, Debug, PartialEq, Eq, Structural)]
pub enum StringFormat {
    Literal,
    Hexadecimal,
}

/// One PDF value. A `Reference` is a non-owning pointer into the document's
/// object table: the sole mechanism for cycles, so the graph is an arena of
/// identifiers, never owning pointers.
///
/// A real number carries its decimal text: the metadata subsystem only ever
/// displays a real, and the store renders it when the document is mirrored.
#[derive(Debug)]
pub enum Object {
    Null,
    Boolean(bool),
    Integer(i64),
    Real(String),
    Text(Vec<u8>, StringFormat),
    Name(Vec<u8>),
    Array(Vec<Object>),
    Dictionary(Dictionary),
    Stream(Dictionary, Vec<u8>),
    Reference(ObjectId),
}

/// A dictionary held directly in this object keeps its keys unique.
/// Nothing is asked of the other variants.
pub open spec fn obj_dict_wf(o: Object) -> bool {
    match o {
        Object::Dictionary(d) => d.wf(),
        _ => true,
    }
}

/// [`obj_dict_wf`] lifted over an optional binding.
pub open spec fn opt_obj_dict_wf(o: Option<Object>) -> bool {
    match o {
        Some(x) => obj_dict_wf(x),
        None => true,
    }
}

} // verus!
