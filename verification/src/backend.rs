//! The key/value store behind the command layer: one plain keyspace and one
//! keyspace of hashes (field/value maps), both modelled as association
//! lists looked up by first match.

use vstd::prelude::*;
use crate::protocol::model::FrameV;
use crate::protocol::RespFrame;

verus! {

/// Look a key up in an association list: the first matching entry's value.
pub open spec fn alist_get<V>(s: Seq<(Seq<u8>, V)>, k: Seq<u8>) -> Option<V>
    decreases s.len(),
{
    if s.len() == 0 {
        None
    } else if s[0].0 == k {
        Some(s[0].1)
    } else {
        alist_get(s.skip(1), k)
    }
}

/// Bind a key in an association list: replace the first matching entry, or
/// append a new entry when the key is absent.
pub open spec fn alist_set<V>(s: Seq<(Seq<u8>, V)>, k: Seq<u8>, v: V) -> Seq<(Seq<u8>, V)>
    decreases s.len(),
{
    if s.len() == 0 {
        seq![(k, v)]
    } else if s[0].0 == k {
        seq![(k, v)] + s.skip(1)
    } else {
        seq![s[0]] + alist_set(s.skip(1), k, v)
    }
}

/// The view of one keyspace: each entry's key bytes and value view.
pub open spec fn kv_view(s: Seq<(Vec<u8>, RespFrame)>) -> Seq<(Seq<u8>, FrameV)> {
    Seq::new(s.len(), |i: int| (s[i].0@, s[i].1.deep_view()))
}

/// The view of the hash keyspace: each entry's key bytes and field map view.
pub open spec fn hkv_view(s: Seq<(Vec<u8>, Vec<(Vec<u8>, RespFrame)>)>) -> Seq<
    (Seq<u8>, Seq<(Seq<u8>, FrameV)>),
> {
    Seq::new(s.len(), |i: int| (s[i].0@, kv_view(s[i].1@)))
}

/// When the first match sits at index `i`, the lookup returns its value.
pub proof fn lemma_alist_get_at<V>(s: Seq<(Seq<u8>, V)>, k: Seq<u8>, i: int)
    requires
        0 <= i < s.len(),
        s[i].0 == k,
        forall|j: int| 0 <= j < i ==> (#[trigger] s[j]).0 != k,
    ensures
        alist_get(s, k) == Some(s[i].1),
    decreases i,
{
    if i > 0 {
        lemma_alist_get_at(s.skip(1), k, i - 1);
    }
}

/// When no entry matches, the lookup returns nothing.
pub proof fn lemma_alist_get_none<V>(s: Seq<(Seq<u8>, V)>, k: Seq<u8>)
    requires
        forall|j: int| 0 <= j < s.len() ==> (#[trigger] s[j]).0 != k,
    ensures
        alist_get(s, k) is None,
    decreases s.len(),
{
    if s.len() > 0 {
        lemma_alist_get_none(s.skip(1), k);
    }
}

/// When the first match sits at index `i`, binding the key updates exactly
/// that entry.
pub proof fn lemma_alist_set_at<V>(s: Seq<(Seq<u8>, V)>, k: Seq<u8>, v: V, i: int)
    requires
        0 <= i < s.len(),
        s[i].0 == k,
        forall|j: int| 0 <= j < i ==> (#[trigger] s[j]).0 != k,
    ensures
        alist_set(s, k, v) == s.update(i, (k, v)),
    decreases i,
{
    if i == 0 {
        assert(seq![(k, v)] + s.skip(1) =~= s.update(0, (k, v)));
    } else {
        lemma_alist_set_at(s.skip(1), k, v, i - 1);
        assert(seq![s[0]] + s.skip(1).update(i - 1, (k, v)) =~= s.update(i, (k, v)));
    }
}

/// When no entry matches, binding the key appends a new entry.
pub proof fn lemma_alist_set_none<V>(s: Seq<(Seq<u8>, V)>, k: Seq<u8>, v: V)
    requires
        forall|j: int| 0 <= j < s.len() ==> (#[trigger] s[j]).0 != k,
    ensures
        alist_set(s, k, v) == s.push((k, v)),
    decreases s.len(),
{
    if s.len() == 0 {
        assert(alist_set(s, k, v) =~= s.push((k, v)));
    } else {
        lemma_alist_set_none(s.skip(1), k, v);
        assert(seq![s[0]] + s.skip(1).push((k, v)) =~= s.push((k, v)));
    }
}

/// Compare two byte strings for equality.
pub fn bytes_eq(a: &[u8], b: &[u8]) -> (r: bool)
    ensures
        r == (a@ == b@),
{
    if a.len() != b.len() {
        proof {
            assert(a@.len() != b@.len());
        }
        return false;
    }
    let n = a.len();
    let mut i: usize = 0;
    while i < n
        invariant
            i <= n,
            n == a@.len() && n == b@.len(),
            forall|j: int| 0 <= j < i ==> a@[j] == b@[j],
        decreases n - i,
    {
        if a[i] != b[i] {
            return false;
        }
        i = i + 1;
    }
    proof {
        assert(a@ =~= b@);
    }
    true
}


/// Look a field up in a field/value list, copying the value out.
pub fn kvlist_get(list: &Vec<(Vec<u8>, RespFrame)>, key: &Vec<u8>) -> (r: Option<RespFrame>)
    ensures
        match alist_get(kv_view(list@), key@) {
            Some(v) => r matches Some(f) && f.deep_view() == v,
            None => r is None,
        },
{
    let n = list.len();
    let mut i: usize = 0;
    while i < n
        invariant
            i <= n,
            n == list@.len(),
            forall|j: int| 0 <= j < i ==> (#[trigger] kv_view(list@)[j]).0 != key@,
        decreases n - i,
    {
        if bytes_eq(list[i].0.as_slice(), key.as_slice()) {
            proof {
                lemma_alist_get_at(kv_view(list@), key@, i as int);
            }
            return Some(list[i].1.clone());
        }
        proof {
            assert(kv_view(list@)[i as int].0 == list@[i as int].0@);
        }
        i = i + 1;
    }
    proof {
        lemma_alist_get_none(kv_view(list@), key@);
    }
    None
}

/// Bind a field in a field/value list, replacing any existing binding.
pub fn kvlist_set(list: &mut Vec<(Vec<u8>, RespFrame)>, key: Vec<u8>, value: RespFrame)
    ensures
        kv_view(final(list)@) == alist_set(kv_view(old(list)@), key@, value.deep_view()),
{
    let n = list.len();
    let mut i: usize = 0;
    while i < n
        invariant
            i <= n,
            n == list@.len(),
            *list == *old(list),
            forall|j: int| 0 <= j < i ==> (#[trigger] kv_view(list@)[j]).0 != key@,
        decreases n - i,
    {
        if bytes_eq(list[i].0.as_slice(), key.as_slice()) {
            proof {
                lemma_alist_set_at(kv_view(list@), key@, value.deep_view(), i as int);
            }
            let ghost okv = kv_view(list@);
            list[i] = (key, value);
            proof {
                assert(kv_view(list@) =~= okv.update(
                    i as int,
                    (list@[i as int].0@, list@[i as int].1.deep_view()),
                ));
            }
            return ;
        }
        proof {
            assert(kv_view(list@)[i as int].0 == list@[i as int].0@);
        }
        i = i + 1;
    }
    proof {
        lemma_alist_set_none(kv_view(list@), key@, value.deep_view());
    }
    let ghost okv = kv_view(list@);
    list.push((key, value));
    proof {
        assert(kv_view(list@) =~= okv.push(
            (list@[list@.len() - 1].0@, list@[list@.len() - 1].1.deep_view()),
        ));
    }
}

/// Copy a field/value list, keeping its view exactly.
pub fn kvlist_clone(list: &Vec<(Vec<u8>, RespFrame)>) -> (r: Vec<(Vec<u8>, RespFrame)>)
    ensures
        kv_view(r@) == kv_view(list@),
{
    let n = list.len();
    let mut out: Vec<(Vec<u8>, RespFrame)> = Vec::new();
    let mut i: usize = 0;
    while i < n
        invariant
            i <= n,
            n == list@.len(),
            out@.len() == i,
            forall|j: int|
                0 <= j < i ==> (#[trigger] out@[j]).0@ == list@[j].0@ && out@[j].1.deep_view()
                    == list@[j].1.deep_view(),
        decreases n - i,
    {
        let k = crate::protocol::clone_bytes(&list[i].0);
        let v = list[i].1.clone();
        out.push((k, v));
        i = i + 1;
    }
    proof {
        assert(kv_view(out@) =~= kv_view(list@));
    }
    out
}

/// The store: a plain keyspace and a keyspace of hashes.
#[derive(Debug)]
pub struct Backend {
    kv: Vec<(Vec<u8>, RespFrame)>,
    hkv: Vec<(Vec<u8>, Vec<(Vec<u8>, RespFrame)>)>,
}

impl Backend {
    /// The view of the plain keyspace.
    pub closed spec fn kv_map(&self) -> Seq<(Seq<u8>, FrameV)> {
        kv_view(self.kv@)
    }

    /// The view of the hash keyspace.
    pub closed spec fn hkv_map(&self) -> Seq<(Seq<u8>, Seq<(Seq<u8>, FrameV)>)> {
        hkv_view(self.hkv@)
    }

    /// An empty store.
    pub fn new() -> (r: Self)
        ensures
            r.kv_map() == Seq::<(Seq<u8>, FrameV)>::empty(),
            r.hkv_map() == Seq::<(Seq<u8>, Seq<(Seq<u8>, FrameV)>)>::empty(),
    {
        let r = Backend { kv: Vec::new(), hkv: Vec::new() };
        proof {
            assert(r.kv_map() =~= Seq::<(Seq<u8>, FrameV)>::empty());
            assert(r.hkv_map() =~= Seq::<(Seq<u8>, Seq<(Seq<u8>, FrameV)>)>::empty());
        }
        r
    }

    /// The value bound to `key`, copied out, or nothing.
    pub fn get(&self, key: &Vec<u8>) -> (r: Option<RespFrame>)
        ensures
            match alist_get(self.kv_map(), key@) {
                Some(v) => r matches Some(f) && f.deep_view() == v,
                None => r is None,
            },
    {
        let n = self.kv.len();
        let mut i: usize = 0;
        while i < n
            invariant
                i <= n,
                n == self.kv@.len(),
                forall|j: int| 0 <= j < i ==> (#[trigger] self.kv_map()[j]).0 != key@,
            decreases n - i,
        {
            if bytes_eq(self.kv[i].0.as_slice(), key.as_slice()) {
                proof {
                    lemma_alist_get_at(self.kv_map(), key@, i as int);
                }
                return Some(self.kv[i].1.clone());
            }
            proof {
                assert(self.kv_map()[i as int].0 == self.kv@[i as int].0@);
            }
            i = i + 1;
        }
        proof {
            lemma_alist_get_none(self.kv_map(), key@);
        }
        None
    }

    /// Bind `key` to `value`, replacing any existing binding.
    pub fn set(&mut self, key: Vec<u8>, value: RespFrame)
        ensures
            final(self).kv_map() == alist_set(old(self).kv_map(), key@, value.deep_view()),
            final(self).hkv_map() == old(self).hkv_map(),
    {
        let n = self.kv.len();
        let mut i: usize = 0;
        while i < n
            invariant
                i <= n,
                n == self.kv@.len(),
                *self == *old(self),
                forall|j: int| 0 <= j < i ==> (#[trigger] self.kv_map()[j]).0 != key@,
            decreases n - i,
        {
            if bytes_eq(self.kv[i].0.as_slice(), key.as_slice()) {
                proof {
                    lemma_alist_set_at(
                        self.kv_map(),
                        key@,
                        value.deep_view(),
                        i as int,
                    );
                }
                let ghost okv = self.kv_map();
                self.kv[i] = (key, value);
                proof {
                    assert(self.kv_map() =~= okv.update(
                        i as int,
                        (self.kv@[i as int].0@, self.kv@[i as int].1.deep_view()),
                    ));
                    assert(self.hkv_map() =~= old(self).hkv_map());
                }
                return ;
            }
            proof {
                assert(self.kv_map()[i as int].0 == self.kv@[i as int].0@);
            }
            i = i + 1;
        }
        proof {
            lemma_alist_set_none(self.kv_map(), key@, value.deep_view());
        }
        let ghost okv = self.kv_map();
        self.kv.push((key, value));
        proof {
            assert(self.kv_map() =~= okv.push(
                (self.kv@[self.kv@.len() - 1].0@, self.kv@[self.kv@.len() - 1].1.deep_view()),
            ));
            assert(self.hkv_map() =~= old(self).hkv_map());
        }
    }

    /// The value bound to `field` in the hash at `key`, copied out, or
    /// nothing.
    pub fn hget(&self, key: &Vec<u8>, field: &Vec<u8>) -> (r: Option<RespFrame>)
        ensures
            match alist_get(self.hkv_map(), key@) {
                Some(inner) => match alist_get(inner, field@) {
                    Some(v) => r matches Some(f) && f.deep_view() == v,
                    None => r is None,
                },
                None => r is None,
            },
    {
        let n = self.hkv.len();
        let mut i: usize = 0;
        while i < n
            invariant
                i <= n,
                n == self.hkv@.len(),
                forall|j: int| 0 <= j < i ==> (#[trigger] self.hkv_map()[j]).0 != key@,
            decreases n - i,
        {
            if bytes_eq(self.hkv[i].0.as_slice(), key.as_slice()) {
                proof {
                    lemma_alist_get_at(self.hkv_map(), key@, i as int);
                    assert(self.hkv_map()[i as int].1 == kv_view(self.hkv@[i as int].1@));
                }
                return kvlist_get(&self.hkv[i].1, field);
            }
            proof {
                assert(self.hkv_map()[i as int].0 == self.hkv@[i as int].0@);
            }
            i = i + 1;
        }
        proof {
            lemma_alist_get_none(self.hkv_map(), key@);
        }
        None
    }

    /// Bind `field` to `value` in the hash at `key`, creating the hash when
    /// it does not exist.
    pub fn hset(&mut self, key: Vec<u8>, field: Vec<u8>, value: RespFrame)
        ensures
            ({
                let prev = match alist_get(old(self).hkv_map(), key@) {
                    Some(m) => m,
                    None => Seq::<(Seq<u8>, FrameV)>::empty(),
                };
                final(self).hkv_map() == alist_set(
                    old(self).hkv_map(),
                    key@,
                    alist_set(prev, field@, value.deep_view()),
                )
            }),
            final(self).kv_map() == old(self).kv_map(),
    {
        let n = self.hkv.len();
        let mut i: usize = 0;
        while i < n
            invariant
                i <= n,
                n == self.hkv@.len(),
                *self == *old(self),
                forall|j: int| 0 <= j < i ==> (#[trigger] self.hkv_map()[j]).0 != key@,
            decreases n - i,
        {
            if bytes_eq(self.hkv[i].0.as_slice(), key.as_slice()) {
                proof {
                    lemma_alist_get_at(self.hkv_map(), key@, i as int);
                    assert(self.hkv_map()[i as int].1 == kv_view(self.hkv@[i as int].1@));
                }
                let mut inner = kvlist_clone(&self.hkv[i].1);
                kvlist_set(&mut inner, field, value);
                let ghost okv = self.hkv_map();
                let ghost newinner = kv_view(inner@);
                proof {
                    lemma_alist_set_at(okv, key@, newinner, i as int);
                }
                self.hkv[i] = (key, inner);
                proof {
                    assert(self.hkv_map() =~= okv.update(
                        i as int,
                        (self.hkv@[i as int].0@, kv_view(self.hkv@[i as int].1@)),
                    ));
                    assert(self.kv_map() =~= old(self).kv_map());
                }
                return ;
            }
            proof {
                assert(self.hkv_map()[i as int].0 == self.hkv@[i as int].0@);
            }
            i = i + 1;
        }
        proof {
            lemma_alist_get_none(self.hkv_map(), key@);
        }
        let mut inner: Vec<(Vec<u8>, RespFrame)> = Vec::new();
        proof {
            assert(kv_view(inner@) =~= Seq::<(Seq<u8>, FrameV)>::empty());
        }
        kvlist_set(&mut inner, field, value);
        let ghost okv = self.hkv_map();
        let ghost newinner = kv_view(inner@);
        proof {
            lemma_alist_set_none(okv, key@, newinner);
        }
        self.hkv.push((key, inner));
        proof {
            assert(self.hkv_map() =~= okv.push(
                (
                    self.hkv@[self.hkv@.len() - 1].0@,
                    kv_view(self.hkv@[self.hkv@.len() - 1].1@),
                ),
            ));
            assert(self.kv_map() =~= old(self).kv_map());
        }
    }

    /// The whole hash at `key`, copied out in insertion order, or nothing.
    pub fn hgetall(&self, key: &Vec<u8>) -> (r: Option<Vec<(Vec<u8>, RespFrame)>>)
        ensures
            match alist_get(self.hkv_map(), key@) {
                Some(inner) => r matches Some(l) && kv_view(l@) == inner,
                None => r is None,
            },
    {
        let n = self.hkv.len();
        let mut i: usize = 0;
        while i < n
            invariant
                i <= n,
                n == self.hkv@.len(),
                forall|j: int| 0 <= j < i ==> (#[trigger] self.hkv_map()[j]).0 != key@,
            decreases n - i,
        {
            if bytes_eq(self.hkv[i].0.as_slice(), key.as_slice()) {
                proof {
                    lemma_alist_get_at(self.hkv_map(), key@, i as int);
                    assert(self.hkv_map()[i as int].1 == kv_view(self.hkv@[i as int].1@));
                }
                return Some(kvlist_clone(&self.hkv[i].1));
            }
            proof {
                assert(self.hkv_map()[i as int].0 == self.hkv@[i as int].0@);
            }
            i = i + 1;
        }
        proof {
            lemma_alist_get_none(self.hkv_map(), key@);
        }
        None
    }
}

} // verus!
