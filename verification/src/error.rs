//! The error kinds that the document model can report.

use vstd::prelude::*;

verus! {

/// Why a metadata or encryption operation failed.
#[derive(Clone, Copy, Debug, PartialEq, Eq, Structural)]
pub enum Error {
    /// The trailer's Info entry resolves to a value that is not a dictionary.
    InfoType,
    /// A reference was followed to an object id that is absent from the table.
    ReferenceResolution,
    /// The cipher engine rejected the password or the encryption dictionary.
    Decrypt,
    /// Encrypting a document is not supported; no output is ever produced.
    EncryptUnsupported,
}

} // verus!
