//! The encryption workflow: the one-way encrypted-to-plain transition of a
//! document, and the deliberate refusal to encrypt.
//!
//! The cipher itself belongs to an outside engine: the caller runs it on
//! the loaded file and hands its verdict to [`decrypt`], which performs the
//! state transition the engine's contract promises.

use vstd::prelude::*;
use vstd::string::StrSliceExecFns;
use vstd::utf8::encode_utf8;

use crate::dict::dict_lookup;
use crate::document::Document;
use crate::error::Error;
use crate::object::opt_obj_dict_wf;

verus! {

/// The trailer key `Encrypt`, as name bytes.
pub open spec fn encrypt_key() -> Seq<u8> {
    seq![0x45u8, 0x6eu8, 0x63u8, 0x72u8, 0x79u8, 0x70u8, 0x74u8]
}

/// The `Encrypt` key for trailer lookups.
fn encrypt_key_vec() -> (v: Vec<u8>)
    ensures
        v@ == encrypt_key(),
{
    let mut v: Vec<u8> = Vec::new();
    v.push(0x45);
    v.push(0x6e);
    v.push(0x63);
    v.push(0x72);
    v.push(0x79);
    v.push(0x70);
    v.push(0x74);
    proof {
        assert(v@ =~= encrypt_key());
    }
    v
}

/// Whether the document was loaded encrypted and not yet decrypted.
pub fn is_encrypted(doc: &Document) -> (r: bool)
    ensures
        r == doc.encrypted,
{
    doc.encrypted
}

/// Encrypting is not supported: every call fails with the explicit error,
/// whatever the arguments, so that the absence of a write path never
/// degrades silently to saving unencrypted output.
pub fn encrypt(
    _input_path: &str,
    _output_path: &str,
    _user_password: &str,
    _owner_password: Option<&str>,
) -> (r: Result<(), Error>)
    ensures
        r == Err::<(), Error>(Error::EncryptUnsupported),
{
    Err(Error::EncryptUnsupported)
}

/// What a decrypt transaction asks of its surroundings: nothing when the
/// document is already plain, or one run of the cipher engine with the
/// given password bytes.
#[derive(Debug)]
pub enum DecryptAction {
    AlreadyPlain,
    RunCipher(Vec<u8>),
}

/// The bytes handed to the cipher engine: the password, or empty when
/// none was given.
pub open spec fn spec_password_bytes(password: Option<&str>) -> Seq<u8> {
    match password {
        Some(p) => encode_utf8(p@),
        None => Seq::<u8>::empty(),
    }
}

/// Decide a decrypt transaction: an unencrypted document needs no cipher
/// run; an encrypted one has the engine invoked with the password, or
/// with the empty password when none was given.
pub fn decrypt_action(doc: &Document, password: Option<&str>) -> (a: DecryptAction)
    ensures
        !doc.encrypted ==> a == DecryptAction::AlreadyPlain,
        doc.encrypted ==> match a {
            DecryptAction::RunCipher(b) => b@ == spec_password_bytes(password),
            DecryptAction::AlreadyPlain => false,
        },
{
    if !doc.encrypted {
        return DecryptAction::AlreadyPlain;
    }
    match password {
        Some(p) => DecryptAction::RunCipher(p.as_bytes_vec()),
        None => DecryptAction::RunCipher(Vec::new()),
    }
}

/// One decrypt transaction on the in-memory document, handed the cipher
/// engine's verdict for the encrypted case.
///
/// A document that was never encrypted is untouched and the call succeeds,
/// whatever the password. When the engine accepted the password, the
/// trailer's `Encrypt` entry is removed and the encrypted flag cleared:
/// the one-way transition, with every object and every other trailer entry
/// kept. When the engine refused, the call fails with the decrypt error
/// and the document must not be saved.
pub fn decrypt(doc: &mut Document, _password: Option<&str>, cipher_ok: bool) -> (r: Result<
    (),
    Error,
>)
    requires
        old(doc).wf(),
    ensures
        final(doc).wf(),
        !old(doc).encrypted ==> *final(doc) == *old(doc) && r == Ok::<(), Error>(()),
        old(doc).encrypted && !cipher_ok ==> *final(doc) == *old(doc) && r == Err::<(), Error>(
            Error::Decrypt,
        ),
        old(doc).encrypted && cipher_ok ==> {
            &&& r == Ok::<(), Error>(())
            &&& !final(doc).encrypted
            &&& dict_lookup(final(doc).trailer.entries@, encrypt_key()) is None
            &&& forall|k: Seq<u8>|
                k != encrypt_key() ==> dict_lookup(final(doc).trailer.entries@, k) == dict_lookup(
                    old(doc).trailer.entries@,
                    k,
                )
            &&& final(doc).objects == old(doc).objects
            &&& final(doc).max_id == old(doc).max_id
            &&& final(doc).version == old(doc).version
        },
{
    let ghost pre = *doc;
    if !doc.encrypted {
        return Ok(());
    }
    if !cipher_ok {
        return Err(Error::Decrypt);
    }
    let key = encrypt_key_vec();
    doc.trailer.remove(key.as_slice());
    doc.encrypted = false;
    proof {
        assert forall|k: Seq<u8>| opt_obj_dict_wf(#[trigger] dict_lookup(
            doc.trailer.entries@,
            k,
        )) by {
            if k != encrypt_key() {
                assert(doc.trailer.spec_get(k) == pre.trailer.spec_get(k));
            } else {
                assert(doc.trailer.spec_get(k) is None);
            }
        }
        assert(doc.wf());
        assert forall|k: Seq<u8>| k != encrypt_key() implies dict_lookup(
            doc.trailer.entries@,
            k,
        ) == dict_lookup(pre.trailer.entries@, k) by {
            assert(doc.trailer.spec_get(k) == pre.trailer.spec_get(k));
        }
    }
    Ok(())
}

} // verus!
