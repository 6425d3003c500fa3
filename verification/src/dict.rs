//! A PDF dictionary: a mapping from name bytes to objects, keys unique,
//! insertion order irrelevant. Held as an association list so that lookups
//! and whole-value replacement have a direct mathematical reading.

use vstd::prelude::*;

use crate::object::Object;

verus! {

/// A mapping from name bytes to objects.
#[derive(Debug)]
pub struct Dictionary {
    pub entries: Vec<(Vec<u8>, Object)>,
}

/// The value that an association list binds to `key`: the value of the first
/// entry whose key bytes are `key`, if any.
pub open spec fn dict_lookup(s: Seq<(Vec<u8>, Object)>, key: Seq<u8>) -> Option<Object>
    decreases s.len(),
{
    if s.len() == 0 {
        None
    } else if s[0].0@ == key {
        Some(s[0].1)
    } else {
        dict_lookup(s.drop_first(), key)
    }
}

/// A key is bound exactly when some entry carries it.
pub proof fn lemma_lookup_absent(s: Seq<(Vec<u8>, Object)>, key: Seq<u8>)
    ensures
        dict_lookup(s, key) is None <==> (forall|j: int| 0 <= j < s.len() ==> s[j].0@ != key),
    decreases s.len(),
{
    if s.len() > 0 {
        lemma_lookup_absent(s.drop_first(), key);
        assert(forall|j: int| 0 <= j < s.drop_first().len() ==> s.drop_first()[j] == s[j + 1]);
        assert(forall|j: int| 1 <= j < s.len() ==> #[trigger] s[j] == s.drop_first()[j - 1]);
    }
}

/// The first entry carrying `key` decides the lookup.
pub proof fn lemma_lookup_first(s: Seq<(Vec<u8>, Object)>, key: Seq<u8>, i: int)
    requires
        0 <= i < s.len(),
        s[i].0@ == key,
        forall|j: int| 0 <= j < i ==> s[j].0@ != key,
    ensures
        dict_lookup(s, key) == Some(s[i].1),
    decreases s.len(),
{
    if i > 0 {
        assert(forall|j: int| 0 <= j < s.drop_first().len() ==> s.drop_first()[j] == s[j + 1]);
        lemma_lookup_first(s.drop_first(), key, i - 1);
    }
}

/// Appending an entry only binds its key, and only if that key was free.
pub proof fn lemma_lookup_push(s: Seq<(Vec<u8>, Object)>, e: (Vec<u8>, Object), key: Seq<u8>)
    ensures
        dict_lookup(s.push(e), key) == (if dict_lookup(s, key) is Some {
            dict_lookup(s, key)
        } else if e.0@ == key {
            Some(e.1)
        } else {
            None::<Object>
        }),
    decreases s.len(),
{
    if s.len() == 0 {
        assert(s.push(e)[0] == e);
        assert(s.push(e).drop_first() =~= Seq::<(Vec<u8>, Object)>::empty());
        assert(dict_lookup(Seq::<(Vec<u8>, Object)>::empty(), key) is None);
    } else {
        assert(s.push(e)[0] == s[0]);
        assert(s.push(e).drop_first() =~= s.drop_first().push(e));
        lemma_lookup_push(s.drop_first(), e, key);
    }
}

/// Removing an entry of another key leaves a key's binding as it was.
pub proof fn lemma_lookup_remove(s: Seq<(Vec<u8>, Object)>, i: int, key: Seq<u8>)
    requires
        0 <= i < s.len(),
        s[i].0@ != key,
    ensures
        dict_lookup(s.remove(i), key) == dict_lookup(s, key),
    decreases s.len(),
{
    if i == 0 {
        assert(s.remove(0) =~= s.drop_first());
    } else {
        assert(s.remove(i)[0] == s[0]);
        if s[0].0@ != key {
            assert(s.remove(i).drop_first() =~= s.drop_first().remove(i - 1));
            lemma_lookup_remove(s.drop_first(), i - 1, key);
        }
    }
}

/// Byte-for-byte equality of two slices.
pub fn bytes_eq(a: &[u8], b: &[u8]) -> (r: bool)
    ensures
        r == (a@ == b@),
{
    if a.len() != b.len() {
        return false;
    }
    let mut i: usize = 0;
    while i < a.len()
        invariant
            i <= a@.len(),
            a@.len() == b@.len(),
            forall|j: int| 0 <= j < i ==> a@[j] == b@[j],
        decreases a@.len() - i,
    {
        if a[i] != b[i] {
            return false;
        }
        i += 1;
    }
    proof {
        assert(a@ =~= b@);
    }
    true
}

impl Dictionary {
    /// Keys are unique: the shape every dictionary of a well-formed document
    /// keeps, so that replacing a key's value replaces its only binding.
    pub open spec fn wf(self) -> bool {
        forall|i: int, j: int|
            0 <= i < j < self.entries@.len() ==> self.entries@[i].0@ != self.entries@[j].0@
    }

    /// The object bound to `key`, if any.
    pub open spec fn spec_get(self, key: Seq<u8>) -> Option<Object> {
        dict_lookup(self.entries@, key)
    }

    /// An empty dictionary.
    pub fn new() -> (d: Dictionary)
        ensures
            d.wf(),
            d.entries@.len() == 0,
            forall|k: Seq<u8>| d.spec_get(k) is None,
    {
        Dictionary { entries: Vec::new() }
    }

    /// The index of the first entry carrying `key`, if any.
    fn find(&self, key: &[u8]) -> (r: Option<usize>)
        ensures
            match r {
                Some(i) => (i as int) < self.entries@.len() && self.entries@[i as int].0@ == key@
                    && (forall|j: int| 0 <= j < i as int ==> self.entries@[j].0@ != key@),
                None => forall|j: int| 0 <= j < self.entries@.len() ==> self.entries@[j].0@ != key@,
            },
    {
        let mut i: usize = 0;
        while i < self.entries.len()
            invariant
                i <= self.entries@.len(),
                forall|j: int| 0 <= j < i ==> self.entries@[j].0@ != key@,
            decreases self.entries@.len() - i,
        {
            if bytes_eq(self.entries[i].0.as_slice(), key) {
                return Some(i);
            }
            i += 1;
        }
        None
    }

    /// Read the value bound to `key`.
    pub fn get<'a>(&'a self, key: &[u8]) -> (r: Option<&'a Object>)
        ensures
            match r {
                Some(o) => self.spec_get(key@) == Some(*o),
                None => self.spec_get(key@) is None,
            },
    {
        match self.find(key) {
            Some(i) => {
                proof {
                    lemma_lookup_first(self.entries@, key@, i as int);
                }
                Some(&self.entries[i].1)
            },
            None => {
                proof {
                    lemma_lookup_absent(self.entries@, key@);
                }
                None
            },
        }
    }

    /// Unbind `key` and hand its value out, leaving every other key as it was.
    pub fn remove(&mut self, key: &[u8]) -> (r: Option<Object>)
        requires
            old(self).wf(),
        ensures
            final(self).wf(),
            r == old(self).spec_get(key@),
            final(self).spec_get(key@) is None,
            forall|k: Seq<u8>| k != key@ ==> final(self).spec_get(k) == old(self).spec_get(k),
    {
        let ghost pre = self.entries@;
        match self.find(key) {
            None => {
                proof {
                    lemma_lookup_absent(pre, key@);
                }
                None
            },
            Some(i) => {
                proof {
                    lemma_lookup_first(pre, key@, i as int);
                }
                let kv = self.entries.remove(i);
                proof {
                    let post = self.entries@;
                    assert(forall|j: int|
                        0 <= j < post.len() ==> post[j] == (if j < i as int {
                            pre[j]
                        } else {
                            pre[j + 1]
                        }));
                    assert forall|k: Seq<u8>| k != key@ implies dict_lookup(post, k)
                        == dict_lookup(pre, k) by {
                        lemma_lookup_remove(pre, i as int, k);
                    }
                    assert forall|j: int| 0 <= j < post.len() implies post[j].0@ != key@ by {
                        if j >= i as int {
                            assert(post[j] == pre[j + 1]);
                        }
                    }
                    lemma_lookup_absent(post, key@);
                }
                Some(kv.1)
            },
        }
    }

    /// Bind `key` to `value`, replacing any prior binding whole, and leaving
    /// every other key as it was.
    pub fn set(&mut self, key: Vec<u8>, value: Object)
        requires
            old(self).wf(),
        ensures
            final(self).wf(),
            final(self).spec_get(key@) == Some(value),
            forall|k: Seq<u8>| k != key@ ==> final(self).spec_get(k) == old(self).spec_get(k),
    {
        self.remove(key.as_slice());
        let ghost mid = self.entries@;
        let ghost e = (key, value);
        proof {
            lemma_lookup_absent(mid, key@);
        }
        self.entries.push((key, value));
        proof {
            let post = self.entries@;
            assert(post == mid.push(e));
            assert forall|k: Seq<u8>| #[trigger] dict_lookup(post, k) == (if k == key@ {
                Some(e.1)
            } else {
                dict_lookup(mid, k)
            }) by {
                lemma_lookup_push(mid, e, k);
            }
            assert forall|i: int, j: int| 0 <= i < j < post.len() implies post[i].0@
                != post[j].0@ by {
                if j == post.len() - 1 {
                    assert(post[i] == mid[i]);
                    assert(post[j] == e);
                }
            }
        }
    }
}

} // verus!
