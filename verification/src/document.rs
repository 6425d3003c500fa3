//! The in-memory document: an arena of indirect objects keyed by
//! [`ObjectId`], the trailer dictionary, and the encrypted flag.

use vstd::prelude::*;

use crate::dict::{dict_lookup, Dictionary};
use crate::error::Error;
use crate::object::{obj_dict_wf, opt_obj_dict_wf, Object, ObjectId};

verus! {

/// The object that an arena binds to `id`: the value of the first entry
/// carrying `id`, if any.
pub open spec fn table_lookup(s: Seq<(ObjectId, Object)>, id: ObjectId) -> Option<Object>
    decreases s.len(),
{
    if s.len() == 0 {
        None
    } else if s[0].0 == id {
        Some(s[0].1)
    } else {
        table_lookup(s.drop_first(), id)
    }
}

/// An id is bound exactly when some entry carries it.
pub proof fn lemma_table_absent(s: Seq<(ObjectId, Object)>, id: ObjectId)
    ensures
        table_lookup(s, id) is None <==> (forall|j: int| 0 <= j < s.len() ==> s[j].0 != id),
    decreases s.len(),
{
    if s.len() > 0 {
        lemma_table_absent(s.drop_first(), id);
        assert(forall|j: int| 0 <= j < s.drop_first().len() ==> s.drop_first()[j] == s[j + 1]);
        assert(forall|j: int| 1 <= j < s.len() ==> #[trigger] s[j] == s.drop_first()[j - 1]);
    }
}

/// The first entry carrying `id` decides the lookup.
pub proof fn lemma_table_first(s: Seq<(ObjectId, Object)>, id: ObjectId, i: int)
    requires
        0 <= i < s.len(),
        s[i].0 == id,
        forall|j: int| 0 <= j < i ==> s[j].0 != id,
    ensures
        table_lookup(s, id) == Some(s[i].1),
    decreases s.len(),
{
    if i > 0 {
        assert(forall|j: int| 0 <= j < s.drop_first().len() ==> s.drop_first()[j] == s[j + 1]);
        lemma_table_first(s.drop_first(), id, i - 1);
    }
}

/// Appending an entry only binds its id, and only if that id was free.
pub proof fn lemma_table_push(s: Seq<(ObjectId, Object)>, e: (ObjectId, Object), id: ObjectId)
    ensures
        table_lookup(s.push(e), id) == (if table_lookup(s, id) is Some {
            table_lookup(s, id)
        } else if e.0 == id {
            Some(e.1)
        } else {
            None::<Object>
        }),
    decreases s.len(),
{
    if s.len() == 0 {
        assert(s.push(e)[0] == e);
        assert(s.push(e).drop_first() =~= Seq::<(ObjectId, Object)>::empty());
        assert(table_lookup(Seq::<(ObjectId, Object)>::empty(), id) is None);
    } else {
        assert(s.push(e)[0] == s[0]);
        assert(s.push(e).drop_first() =~= s.drop_first().push(e));
        lemma_table_push(s.drop_first(), e, id);
    }
}

/// Removing an entry of another id leaves an id's binding as it was.
pub proof fn lemma_table_remove(s: Seq<(ObjectId, Object)>, i: int, id: ObjectId)
    requires
        0 <= i < s.len(),
        s[i].0 != id,
    ensures
        table_lookup(s.remove(i), id) == table_lookup(s, id),
    decreases s.len(),
{
    if i == 0 {
        assert(s.remove(0) =~= s.drop_first());
    } else {
        assert(s.remove(i)[0] == s[0]);
        if s[0].0 != id {
            assert(s.remove(i).drop_first() =~= s.drop_first().remove(i - 1));
            lemma_table_remove(s.drop_first(), i - 1, id);
        }
    }
}

/// A document: the object table, the trailer, and the encryption state.
/// `max_id` is the highest object number the store has allocated, so a fresh
/// id never collides with a live one and is never reused.
#[derive(Debug)]
pub struct Document {
    pub objects: Vec<(ObjectId, Object)>,
    pub trailer: Dictionary,
    pub encrypted: bool,
    pub max_id: u32,
    pub version: String,
}

impl Document {
    /// Every invariant of a live document:
    /// ids in the table are unique and no id above `max_id` is bound;
    /// the trailer and every dictionary reachable in one step keep their
    /// keys unique.
    pub open spec fn wf(self) -> bool {
        &&& forall|i: int, j: int|
            0 <= i < j < self.objects@.len() ==> self.objects@[i].0 != self.objects@[j].0
        &&& forall|id: ObjectId|
            id.number > self.max_id ==> #[trigger] table_lookup(self.objects@, id) is None
        &&& forall|id: ObjectId| opt_obj_dict_wf(#[trigger] table_lookup(self.objects@, id))
        &&& self.trailer.wf()
        &&& forall|k: Seq<u8>| opt_obj_dict_wf(#[trigger] dict_lookup(self.trailer.entries@, k))
    }

    /// The object bound to `id` in the table, if any.
    pub open spec fn spec_object(self, id: ObjectId) -> Option<Object> {
        table_lookup(self.objects@, id)
    }

    /// A fresh, empty, unencrypted document.
    pub fn new() -> (d: Document)
        ensures
            d.wf(),
            d.objects@.len() == 0,
            d.trailer.entries@.len() == 0,
            !d.encrypted,
            d.max_id == 0,
            forall|id: ObjectId| d.spec_object(id) is None,
            forall|k: Seq<u8>| d.trailer.spec_get(k) is None,
    {
        Document {
            objects: Vec::new(),
            trailer: Dictionary::new(),
            encrypted: false,
            max_id: 0,
            version: String::new(),
        }
    }

    /// A fresh document that records the file-format version it will be
    /// saved under.
    pub fn with_version(version: &str) -> (d: Document)
        ensures
            d.wf(),
            d.objects@.len() == 0,
            d.trailer.entries@.len() == 0,
            !d.encrypted,
            d.max_id == 0,
            d.version@ == version@,
            forall|id: ObjectId| d.spec_object(id) is None,
            forall|k: Seq<u8>| d.trailer.spec_get(k) is None,
    {
        Document {
            objects: Vec::new(),
            trailer: Dictionary::new(),
            encrypted: false,
            max_id: 0,
            version: version.to_owned(),
        }
    }

    /// The index of the first table entry carrying `id`, if any.
    fn find(&self, id: ObjectId) -> (r: Option<usize>)
        ensures
            match r {
                Some(i) => (i as int) < self.objects@.len() && self.objects@[i as int].0 == id
                    && (forall|j: int| 0 <= j < i as int ==> self.objects@[j].0 != id),
                None => forall|j: int| 0 <= j < self.objects@.len() ==> self.objects@[j].0 != id,
            },
    {
        let mut i: usize = 0;
        while i < self.objects.len()
            invariant
                i <= self.objects@.len(),
                forall|j: int| 0 <= j < i ==> self.objects@[j].0 != id,
            decreases self.objects@.len() - i,
        {
            if self.objects[i].0 == id {
                return Some(i);
            }
            i += 1;
        }
        None
    }

    /// Dereference an id. Absence is the fatal resolution error, for the
    /// callers that do not tolerate a dangling reference.
    pub fn get_object<'a>(&'a self, id: ObjectId) -> (r: Result<&'a Object, Error>)
        ensures
            match r {
                Ok(o) => self.spec_object(id) == Some(*o),
                Err(e) => self.spec_object(id) is None && e == Error::ReferenceResolution,
            },
    {
        match self.find(id) {
            Some(i) => {
                proof {
                    lemma_table_first(self.objects@, id, i as int);
                }
                Ok(&self.objects[i].1)
            },
            None => {
                proof {
                    lemma_table_absent(self.objects@, id);
                }
                Err(Error::ReferenceResolution)
            },
        }
    }

    /// Take the object bound to `id` out of the table, leaving every other
    /// id as it was.
    pub fn take_object(&mut self, id: ObjectId) -> (r: Option<Object>)
        requires
            old(self).wf(),
        ensures
            final(self).wf(),
            r == old(self).spec_object(id),
            final(self).spec_object(id) is None,
            forall|i: ObjectId| i != id ==> final(self).spec_object(i) == old(self).spec_object(i),
            old(self).spec_object(id) is None ==> *final(self) == *old(self),
            final(self).trailer == old(self).trailer,
            final(self).encrypted == old(self).encrypted,
            final(self).max_id == old(self).max_id,
            final(self).version == old(self).version,
    {
        let ghost pre = self.objects@;
        match self.find(id) {
            None => {
                proof {
                    lemma_table_absent(pre, id);
                }
                None
            },
            Some(i) => {
                proof {
                    lemma_table_first(pre, id, i as int);
                }
                let kv = self.objects.remove(i);
                proof {
                    let post = self.objects@;
                    assert(forall|j: int|
                        0 <= j < post.len() ==> post[j] == (if j < i as int {
                            pre[j]
                        } else {
                            pre[j + 1]
                        }));
                    assert forall|i2: ObjectId| i2 != id implies table_lookup(post, i2)
                        == table_lookup(pre, i2) by {
                        lemma_table_remove(pre, i as int, i2);
                    }
                    assert forall|j: int| 0 <= j < post.len() implies post[j].0 != id by {
                        if j >= i as int {
                            assert(post[j] == pre[j + 1]);
                        }
                    }
                    lemma_table_absent(post, id);
                }
                Some(kv.1)
            },
        }
    }

    /// Bind `id` to `obj` in the table, replacing any prior binding whole.
    /// Only ids the store has allocated may be bound, and a dictionary goes
    /// in with its keys unique, so the document stays well-formed.
    pub fn set_object(&mut self, id: ObjectId, obj: Object)
        requires
            old(self).wf(),
            id.number <= old(self).max_id,
            obj_dict_wf(obj),
        ensures
            final(self).wf(),
            final(self).spec_object(id) == Some(obj),
            forall|i: ObjectId| i != id ==> final(self).spec_object(i) == old(self).spec_object(i),
            final(self).trailer == old(self).trailer,
            final(self).encrypted == old(self).encrypted,
            final(self).max_id == old(self).max_id,
            final(self).version == old(self).version,
    {
        self.take_object(id);
        let ghost mid = self.objects@;
        let ghost e = (id, obj);
        proof {
            lemma_table_absent(mid, id);
        }
        self.objects.push((id, obj));
        proof {
            let post = self.objects@;
            assert(post == mid.push(e));
            assert forall|i2: ObjectId| #[trigger] table_lookup(post, i2) == (if i2 == id {
                Some(e.1)
            } else {
                table_lookup(mid, i2)
            }) by {
                lemma_table_push(mid, e, i2);
            }
            assert forall|i: int, j: int| 0 <= i < j < post.len() implies post[i].0
                != post[j].0 by {
                if j == post.len() - 1 {
                    assert(post[i] == mid[i]);
                    assert(post[j] == e);
                }
            }
        }
    }

    /// Allocate a fresh object id: one more than any the store has handed
    /// out, so it is bound to nothing and is never reused while this
    /// document is open.
    pub fn new_object_id(&mut self) -> (id: ObjectId)
        requires
            old(self).wf(),
            old(self).max_id < u32::MAX,
        ensures
            final(self).wf(),
            id == (ObjectId { number: (old(self).max_id + 1) as u32, generation: 0u16 }),
            final(self).max_id == old(self).max_id + 1,
            final(self).spec_object(id) is None,
            final(self).objects == old(self).objects,
            final(self).trailer == old(self).trailer,
            final(self).encrypted == old(self).encrypted,
            final(self).version == old(self).version,
    {
        self.max_id = self.max_id + 1;
        ObjectId { number: self.max_id, generation: 0 }
    }

    /// Single-hop resolution: follow `obj` through the table if it is a
    /// reference, and hand anything else back unchanged. A reference to a
    /// reference is not followed further.
    pub fn resolve<'a>(&'a self, obj: &'a Object) -> (r: Result<&'a Object, Error>)
        ensures
            match r {
                Ok(o) => spec_resolve(*self, *obj) == Ok::<Object, Error>(*o),
                Err(e) => spec_resolve(*self, *obj) == Err::<Object, Error>(e),
            },
    {
        match obj {
            Object::Reference(id) => self.get_object(*id),
            _ => Ok(obj),
        }
    }
}

/// What single-hop resolution yields: the table's binding for a reference,
/// the fatal resolution error for a dangling one, and any other object
/// unchanged.
pub open spec fn spec_resolve(doc: Document, o: Object) -> Result<Object, Error> {
    match o {
        Object::Reference(id) => match table_lookup(doc.objects@, id) {
            Some(x) => Ok(x),
            None => Err(Error::ReferenceResolution),
        },
        _ => Ok(o),
    }
}

} // verus!
