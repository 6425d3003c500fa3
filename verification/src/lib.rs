//! An in-memory model of a PDF document's indirect-object graph, with
//! verified metadata (Info dictionary) resolution and mutation, and the
//! encryption-state transitions of a decrypt workflow.
//!
//! The byte-level parser/serializer and the cipher itself are outside this
//! library: callers load a file, mirror it here, mutate it through the
//! functions of [`metadata`] and [`crypto`], and persist the result.

pub mod crypto;
pub mod dict;
pub mod document;
pub mod error;
pub mod metadata;
pub mod object;
pub mod text;

pub use crypto::{decrypt, decrypt_action, encrypt, is_encrypted};
pub use dict::Dictionary;
pub use document::Document;
pub use error::Error;
pub use metadata::{ensure_info_object, get_info_dict, get_info_value, object_to_string, set_info_value};
pub use object::{Object, ObjectId, StringFormat};
