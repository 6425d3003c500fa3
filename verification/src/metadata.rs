//! The Info dictionary subsystem: read-only navigation from the trailer to
//! a metadata value, and the idempotent ensure-then-set mutation protocol.

use vstd::prelude::*;
use vstd::string::StrSliceExecFns;
use vstd::utf8::{decode_utf8, encode_utf8, valid_utf8};

use crate::dict::{dict_lookup, Dictionary};
use crate::document::{table_lookup, spec_resolve, Document};
use crate::error::Error;
use crate::object::{opt_obj_dict_wf, Object, ObjectId, StringFormat};
use crate::text::{decode_text, i64_to_string, lossy_decode, spec_int_text};

verus! {

/// The trailer key `Info`, as name bytes.
pub open spec fn info_key() -> Seq<u8> {
    seq![0x49u8, 0x6eu8, 0x66u8, 0x6fu8]
}

/// The `Info` key for trailer lookups.
fn info_key_vec() -> (v: Vec<u8>)
    ensures
        v@ == info_key(),
{
    let mut v: Vec<u8> = Vec::new();
    v.push(0x49);
    v.push(0x6e);
    v.push(0x66);
    v.push(0x6f);
    proof {
        assert(v@ =~= info_key());
    }
    v
}

/// The trailer's Info entry, if any.
pub open spec fn spec_info_entry(doc: Document) -> Option<Object> {
    dict_lookup(doc.trailer.entries@, info_key())
}

/// The display text of string or name bytes: the UTF-8 decoding, best
/// effort on ill-formed input, never an error.
pub open spec fn text_of_bytes(b: Seq<u8>) -> Seq<char> {
    if valid_utf8(b) {
        decode_utf8(b)
    } else {
        lossy_decode(b)
    }
}

/// The display text of an object, after single-hop resolution: scalars
/// render by value; a container or an unfollowed reference renders as an
/// implementation-defined placeholder, for display only.
pub open spec fn spec_object_text(doc: Document, o: Object) -> Result<Seq<char>, Error> {
    match spec_resolve(doc, o) {
        Err(e) => Err(e),
        Ok(r) => Ok(
            match r {
                Object::Text(b, _) => text_of_bytes(b@),
                Object::Name(b) => text_of_bytes(b@),
                Object::Integer(i) => spec_int_text(i as int),
                Object::Real(t) => t@,
                Object::Boolean(b) => if b {
                    "true"@
                } else {
                    "false"@
                },
                Object::Null => "null"@,
                Object::Array(_) => "<array>"@,
                Object::Dictionary(_) => "<dictionary>"@,
                Object::Stream(_, _) => "<stream>"@,
                Object::Reference(_) => "<reference>"@,
            },
        ),
    }
}

/// What resolving the trailer's Info entry yields: absence is tolerated as
/// `None`, a reference is followed once and must reach a dictionary, a
/// direct dictionary is tolerated, and any other variant is a type error.
pub open spec fn spec_info_dict(doc: Document) -> Result<Option<Dictionary>, Error> {
    match spec_info_entry(doc) {
        None => Ok(None),
        Some(o) => match o {
            Object::Reference(id) => match table_lookup(doc.objects@, id) {
                Some(Object::Dictionary(d)) => Ok(Some(d)),
                Some(_) => Err(Error::InfoType),
                None => Err(Error::ReferenceResolution),
            },
            Object::Dictionary(d) => Ok(Some(d)),
            _ => Err(Error::InfoType),
        },
    }
}

/// The value the metadata subsystem reads for `key`: `None` when there is
/// no Info dictionary or it lacks the key, else the display text of the
/// bound object.
pub open spec fn spec_info_value(doc: Document, key: Seq<u8>) -> Result<
    Option<Seq<char>>,
    Error,
> {
    match spec_info_dict(doc) {
        Err(e) => Err(e),
        Ok(None) => Ok(None),
        Ok(Some(d)) => match dict_lookup(d.entries@, key) {
            None => Ok(None),
            Some(o) => match spec_object_text(doc, o) {
                Ok(t) => Ok(Some(t)),
                Err(e) => Err(e),
            },
        },
    }
}

/// Render one object for display, resolving a reference one hop.
pub fn object_to_string(doc: &Document, obj: &Object) -> (r: Result<String, Error>)
    ensures
        match r {
            Ok(s) => spec_object_text(*doc, *obj) == Ok::<Seq<char>, Error>(s@),
            Err(e) => spec_object_text(*doc, *obj) == Err::<Seq<char>, Error>(e),
        },
{
    let resolved = match doc.resolve(obj) {
        Ok(o) => o,
        Err(e) => return Err(e),
    };
    match resolved {
        Object::Text(b, _) => Ok(decode_text(b.as_slice())),
        Object::Name(b) => Ok(decode_text(b.as_slice())),
        Object::Integer(i) => Ok(i64_to_string(*i)),
        Object::Real(t) => Ok(t.clone()),
        Object::Boolean(b) => Ok(if *b {
            "true".to_owned()
        } else {
            "false".to_owned()
        }),
        Object::Null => Ok("null".to_owned()),
        Object::Array(_) => Ok("<array>".to_owned()),
        Object::Dictionary(_) => Ok("<dictionary>".to_owned()),
        Object::Stream(_, _) => Ok("<stream>".to_owned()),
        Object::Reference(_) => Ok("<reference>".to_owned()),
    }
}

/// Read the Info dictionary, if the trailer has one.
pub fn get_info_dict<'a>(doc: &'a Document) -> (r: Result<Option<&'a Dictionary>, Error>)
    ensures
        match r {
            Ok(Some(d)) => spec_info_dict(*doc) == Ok::<Option<Dictionary>, Error>(Some(*d)),
            Ok(None) => spec_info_dict(*doc) == Ok::<Option<Dictionary>, Error>(
                None::<Dictionary>,
            ),
            Err(e) => spec_info_dict(*doc) == Err::<Option<Dictionary>, Error>(e),
        },
{
    let key = info_key_vec();
    let info = match doc.trailer.get(key.as_slice()) {
        None => return Ok(None),
        Some(o) => o,
    };
    match info {
        Object::Reference(oid) => {
            let resolved = match doc.get_object(*oid) {
                Ok(o) => o,
                Err(e) => return Err(e),
            };
            match resolved {
                Object::Dictionary(d) => Ok(Some(d)),
                _ => Err(Error::InfoType),
            }
        },
        Object::Dictionary(d) => Ok(Some(d)),
        _ => Err(Error::InfoType),
    }
}

/// Read the display text of the Info value bound to `key`.
pub fn get_info_value(doc: &Document, key: &[u8]) -> (r: Result<Option<String>, Error>)
    ensures
        match r {
            Ok(Some(s)) => spec_info_value(*doc, key@) == Ok::<Option<Seq<char>>, Error>(
                Some(s@),
            ),
            Ok(None) => spec_info_value(*doc, key@) == Ok::<Option<Seq<char>>, Error>(
                None::<Seq<char>>,
            ),
            Err(e) => spec_info_value(*doc, key@) == Err::<Option<Seq<char>>, Error>(e),
        },
{
    let info = match get_info_dict(doc) {
        Ok(Some(d)) => d,
        Ok(None) => return Ok(None),
        Err(e) => return Err(e),
    };
    let obj = match info.get(key) {
        Some(o) => o,
        None => return Ok(None),
    };
    match object_to_string(doc, obj) {
        Ok(s) => Ok(Some(s)),
        Err(e) => Err(e),
    }
}

/// The state after a fresh indirect Info object was installed: the id is
/// the newly allocated one, it is bound to a dictionary holding exactly
/// `entries`, the trailer's Info entry points at it, and nothing else
/// moved.
pub open spec fn promoted(
    pre: Document,
    post: Document,
    id: ObjectId,
    entries: Seq<(Vec<u8>, Object)>,
) -> bool {
    &&& id == (ObjectId { number: (pre.max_id + 1) as u32, generation: 0u16 })
    &&& post.max_id == pre.max_id + 1
    &&& post.encrypted == pre.encrypted
    &&& post.version == pre.version
    &&& match table_lookup(post.objects@, id) {
        Some(Object::Dictionary(d)) => d.entries@ == entries,
        _ => false,
    }
    &&& forall|i: ObjectId|
        i != id ==> table_lookup(post.objects@, i) == table_lookup(pre.objects@, i)
    &&& dict_lookup(post.trailer.entries@, info_key()) == Some(Object::Reference(id))
    &&& forall|k: Seq<u8>|
        k != info_key() ==> dict_lookup(post.trailer.entries@, k) == dict_lookup(
            pre.trailer.entries@,
            k,
        )
}

/// The three cases of the ensure protocol: an existing reference is
/// returned untouched, whatever it resolves to; a direct dictionary is
/// promoted with its entries kept verbatim; anything else, absence
/// included, is replaced by a fresh empty indirect dictionary.
pub open spec fn ensure_info_post(pre: Document, post: Document, id: ObjectId) -> bool {
    match spec_info_entry(pre) {
        Some(Object::Reference(r)) => post == pre && id == r,
        Some(Object::Dictionary(d)) => promoted(pre, post, id, d.entries@),
        _ => promoted(pre, post, id, Seq::<(Vec<u8>, Object)>::empty()),
    }
}

/// Make the trailer's Info entry an indirect reference, allocating at most
/// one id, and return the id it points at. Never fails.
pub fn ensure_info_object(doc: &mut Document) -> (r: Result<ObjectId, Error>)
    requires
        old(doc).wf(),
        old(doc).max_id < u32::MAX,
    ensures
        final(doc).wf(),
        match r {
            Ok(id) => ensure_info_post(*old(doc), *final(doc), id),
            Err(_) => false,
        },
{
    let ghost pre = *doc;
    let key = info_key_vec();
    let mut existing: Option<ObjectId> = None;
    match doc.trailer.get(key.as_slice()) {
        Some(Object::Reference(oid)) => {
            existing = Some(*oid);
        },
        _ => {},
    }
    if let Some(oid) = existing {
        return Ok(oid);
    }
    let prior = doc.trailer.remove(key.as_slice());
    let ghost priorg = prior;
    proof {
        assert forall|k: Seq<u8>| opt_obj_dict_wf(#[trigger] dict_lookup(
            doc.trailer.entries@,
            k,
        )) by {
            if k != info_key() {
                assert(doc.trailer.spec_get(k) == pre.trailer.spec_get(k));
            } else {
                assert(doc.trailer.spec_get(k) is None);
            }
        }
        assert(doc.wf());
    }
    let oid = doc.new_object_id();
    let ghost mid0 = *doc;
    let dict = match prior {
        Some(Object::Dictionary(d)) => d,
        _ => Dictionary::new(),
    };
    let ghost dictg = dict;
    doc.set_object(oid, Object::Dictionary(dict));
    let ghost mid = *doc;
    doc.trailer.set(key, Object::Reference(oid));
    proof {
        assert(doc.spec_object(oid) == Some(Object::Dictionary(dictg)));
        assert forall|i: ObjectId| i != oid implies table_lookup(doc.objects@, i) == table_lookup(
            pre.objects@,
            i,
        ) by {
            assert(doc.spec_object(i) == mid0.spec_object(i));
            assert(mid0.objects == pre.objects);
        }
        match priorg {
            Some(Object::Dictionary(d0)) => {
                assert(dictg.entries@ == d0.entries@);
            },
            _ => {
                assert(dictg.entries@ =~= Seq::<(Vec<u8>, Object)>::empty());
            },
        }
        assert forall|k: Seq<u8>| opt_obj_dict_wf(#[trigger] dict_lookup(
            doc.trailer.entries@,
            k,
        )) by {
            if k != info_key() {
                assert(doc.trailer.spec_get(k) == mid.trailer.spec_get(k));
                assert(mid.trailer.spec_get(k) == pre.trailer.spec_get(k));
            } else {
                assert(doc.trailer.spec_get(k) == Some(Object::Reference(oid)));
            }
        }
        assert(doc.wf());
        assert forall|k: Seq<u8>| k != info_key() implies dict_lookup(doc.trailer.entries@, k)
            == dict_lookup(pre.trailer.entries@, k) by {
            assert(doc.trailer.spec_get(k) == mid.trailer.spec_get(k));
            assert(mid.trailer.spec_get(k) == pre.trailer.spec_get(k));
        }
        assert(ensure_info_post(pre, *doc, oid));
    }
    Ok(oid)
}

/// A literal-format string object holding exactly `bytes`.
pub open spec fn literal_string_obj(o: Object, bytes: Seq<u8>) -> bool {
    match o {
        Object::Text(b, StringFormat::Literal) => b@ == bytes,
        _ => false,
    }
}

/// The state after a successful write of `key`: the trailer's Info entry
/// is a reference to `id`; the dictionary there binds `key` to the UTF-8
/// bytes of `value` as a literal string and every other key exactly as
/// `base` (the Info entries before the write) bound it; nothing else
/// moved.
pub open spec fn set_ok_post(
    pre: Document,
    post: Document,
    id: ObjectId,
    base: Seq<(Vec<u8>, Object)>,
    key: Seq<u8>,
    value: Seq<char>,
) -> bool {
    &&& spec_info_entry(post) == Some(Object::Reference(id))
    &&& match table_lookup(post.objects@, id) {
        Some(Object::Dictionary(d2)) => {
            &&& match dict_lookup(d2.entries@, key) {
                Some(o) => literal_string_obj(o, encode_utf8(value)),
                None => false,
            }
            &&& forall|k2: Seq<u8>|
                k2 != key ==> dict_lookup(d2.entries@, k2) == dict_lookup(base, k2)
        },
        _ => false,
    }
    &&& forall|i: ObjectId|
        i != id ==> table_lookup(post.objects@, i) == table_lookup(pre.objects@, i)
    &&& forall|k2: Seq<u8>|
        k2 != info_key() ==> dict_lookup(post.trailer.entries@, k2) == dict_lookup(
            pre.trailer.entries@,
            k2,
        )
    &&& post.encrypted == pre.encrypted
    &&& post.version == pre.version
}

/// Nothing a reader can observe moved: every table binding, the trailer,
/// and the flags read back unchanged.
pub open spec fn unchanged_observations(pre: Document, post: Document) -> bool {
    &&& forall|i: ObjectId| table_lookup(post.objects@, i) == table_lookup(pre.objects@, i)
    &&& post.trailer == pre.trailer
    &&& post.encrypted == pre.encrypted
    &&& post.max_id == pre.max_id
    &&& post.version == pre.version
}

/// Exactly when a write succeeds, and what it leaves behind: an existing
/// Info reference must resolve to a dictionary (else the type or
/// resolution error, with the document observationally untouched); a
/// direct dictionary is promoted first; anything else starts from an
/// empty dictionary at a fresh id.
pub open spec fn set_info_post(
    pre: Document,
    post: Document,
    key: Seq<u8>,
    value: Seq<char>,
    r: Result<(), Error>,
) -> bool {
    match spec_info_entry(pre) {
        Some(Object::Reference(rid)) => match table_lookup(pre.objects@, rid) {
            Some(Object::Dictionary(d)) => r == Ok::<(), Error>(()) && set_ok_post(
                pre,
                post,
                rid,
                d.entries@,
                key,
                value,
            ),
            Some(_) => r == Err::<(), Error>(Error::InfoType) && unchanged_observations(
                pre,
                post,
            ),
            None => r == Err::<(), Error>(Error::ReferenceResolution) && post == pre,
        },
        Some(Object::Dictionary(d)) => r == Ok::<(), Error>(()) && set_ok_post(
            pre,
            post,
            ObjectId { number: (pre.max_id + 1) as u32, generation: 0u16 },
            d.entries@,
            key,
            value,
        ),
        _ => r == Ok::<(), Error>(()) && set_ok_post(
            pre,
            post,
            ObjectId { number: (pre.max_id + 1) as u32, generation: 0u16 },
            Seq::<(Vec<u8>, Object)>::empty(),
            key,
            value,
        ),
    }
}

/// Bind `key` to `value` in the Info dictionary, ensuring an indirect one
/// first and replacing the dictionary whole at its id.
pub fn set_info_value(doc: &mut Document, key: Vec<u8>, value: String) -> (r: Result<(), Error>)
    requires
        old(doc).wf(),
        old(doc).max_id < u32::MAX,
    ensures
        final(doc).wf(),
        set_info_post(*old(doc), *final(doc), key@, value@, r),
{
    let ghost pre = *doc;
    let info_oid = match ensure_info_object(doc) {
        Ok(id) => id,
        Err(e) => return Err(e),
    };
    let ghost mid = *doc;
    proof {
        match spec_info_entry(pre) {
            Some(Object::Reference(rid)) => {
                assert(table_lookup(pre.objects@, rid) is Some ==> !(rid.number > pre.max_id));
            },
            _ => {},
        }
    }
    let taken = doc.take_object(info_oid);
    let ghost mid2 = *doc;
    match taken {
        Some(Object::Dictionary(mut d)) => {
            let ghost base = d.entries@;
            let bytes = value.as_str().as_bytes_vec();
            d.set(key, Object::Text(bytes, StringFormat::Literal));
            let ghost d2g = d;
            doc.set_object(info_oid, Object::Dictionary(d));
            proof {
                let post = *doc;
                assert(post.spec_object(info_oid) == Some(Object::Dictionary(d2g)));
                assert(d2g.spec_get(key@) == Some(
                    Object::Text(bytes, StringFormat::Literal),
                ));
                assert(bytes@ == encode_utf8(value@));
                assert forall|k2: Seq<u8>| k2 != key@ implies dict_lookup(d2g.entries@, k2)
                    == dict_lookup(base, k2) by {
                    assert(d2g.spec_get(k2) == dict_lookup(base, k2));
                }
                assert forall|i: ObjectId| i != info_oid implies table_lookup(post.objects@, i)
                    == table_lookup(pre.objects@, i) by {
                    assert(post.spec_object(i) == mid2.spec_object(i));
                    assert(mid2.spec_object(i) == mid.spec_object(i));
                    assert(mid.spec_object(i) == pre.spec_object(i));
                }
                assert forall|k2: Seq<u8>| k2 != info_key() implies dict_lookup(
                    post.trailer.entries@,
                    k2,
                ) == dict_lookup(pre.trailer.entries@, k2) by {
                    assert(mid.trailer.spec_get(k2) == pre.trailer.spec_get(k2));
                }
                assert(post.trailer == mid.trailer);
                assert(spec_info_entry(post) == spec_info_entry(mid));
                match spec_info_entry(pre) {
                    Some(Object::Reference(rid)) => {
                        assert(*doc == post);
                        assert(info_oid == rid);
                        assert(spec_info_entry(post) == Some(Object::Reference(rid)));
                        assert(set_ok_post(pre, post, rid, base, key@, value@));
                    },
                    Some(Object::Dictionary(d0)) => {
                        assert(base == d0.entries@);
                        assert(spec_info_entry(post) == Some(Object::Reference(info_oid)));
                        assert(set_ok_post(pre, post, info_oid, base, key@, value@));
                    },
                    _ => {
                        assert(base =~= Seq::<(Vec<u8>, Object)>::empty());
                        assert(spec_info_entry(post) == Some(Object::Reference(info_oid)));
                        assert(set_ok_post(pre, post, info_oid, base, key@, value@));
                    },
                }
                assert(set_info_post(pre, *doc, key@, value@, Ok::<(), Error>(())));
            }
            Ok(())
        },
        Some(other) => {
            doc.set_object(info_oid, other);
            proof {
                if !(spec_info_entry(pre) matches Some(Object::Reference(_))) {
                    assert(false);
                }
                assert forall|i: ObjectId| table_lookup(doc.objects@, i) == table_lookup(
                    pre.objects@,
                    i,
                ) by {
                    if i != info_oid {
                        assert(doc.spec_object(i) == mid2.spec_object(i));
                        assert(mid2.spec_object(i) == mid.spec_object(i));
                        assert(mid.spec_object(i) == pre.spec_object(i));
                    } else {
                        assert(doc.spec_object(i) == Some(other));
                        assert(mid.spec_object(i) == pre.spec_object(i));
                    }
                }
            }
            Err(Error::InfoType)
        },
        None => {
            proof {
                if !(spec_info_entry(pre) matches Some(Object::Reference(_))) {
                    assert(false);
                }
            }
            Err(Error::ReferenceResolution)
        },
    }
}

/// Round trip: after a successful write of `key` to `value`, reading
/// `key` back yields exactly `value`, for every document and every
/// string value.
pub proof fn lemma_set_then_get(pre: Document, post: Document, key: Seq<u8>, value: Seq<char>)
    requires
        set_info_post(pre, post, key, value, Ok::<(), Error>(())),
    ensures
        spec_info_value(post, key) == Ok::<Option<Seq<char>>, Error>(Some(value)),
{
    broadcast use vstd::utf8::encode_utf8_valid_utf8, vstd::utf8::encode_utf8_decode_utf8;

}

/// Absent-key neutrality: a document with no Info entry reads `None` for
/// every key, never an error.
pub proof fn lemma_absent_info_reads_none(doc: Document, key: Seq<u8>)
    requires
        spec_info_entry(doc) is None,
    ensures
        spec_info_value(doc, key) == Ok::<Option<Seq<char>>, Error>(None::<Seq<char>>),
{
}

/// Promotion preserves siblings: a successful write through a direct
/// inline Info dictionary leaves the trailer's Info entry a reference,
/// binds the written key, and binds every other key exactly as the inline
/// dictionary did.
pub proof fn lemma_promotion_preserves_siblings(
    pre: Document,
    post: Document,
    d0: Dictionary,
    key: Seq<u8>,
    value: Seq<char>,
)
    requires
        spec_info_entry(pre) == Some(Object::Dictionary(d0)),
        set_info_post(pre, post, key, value, Ok::<(), Error>(())),
    ensures
        spec_info_entry(post) matches Some(Object::Reference(_)),
        spec_info_value(post, key) == Ok::<Option<Seq<char>>, Error>(Some(value)),
        match spec_info_dict(post) {
            Ok(Some(d2)) => forall|k2: Seq<u8>|
                k2 != key ==> dict_lookup(d2.entries@, k2) == dict_lookup(d0.entries@, k2),
            _ => false,
        },
{
    lemma_set_then_get(pre, post, key, value);
}

/// Idempotent ensure: a second ensure, with no trailer edit in between,
/// returns the same id and leaves the document untouched.
pub proof fn lemma_ensure_idempotent(
    d0: Document,
    d1: Document,
    d2: Document,
    id1: ObjectId,
    id2: ObjectId,
)
    requires
        ensure_info_post(d0, d1, id1),
        ensure_info_post(d1, d2, id2),
    ensures
        id2 == id1,
        d2 == d1,
{
}

} // verus!
