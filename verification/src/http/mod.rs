use vstd::prelude::*;
use crate::text::{first_at, is_first_at, lemma_first_at, lemma_first_at_is_first};
use crate::utils::bytes_equal;

pub mod codes;
pub mod protocol;

verus! {

/// The encodings that a body can be sent in.
#[derive(Debug, Clone, Copy, PartialEq, Eq, Structural)]
pub enum Encoding {
    Gzip,
    Deflate,
}

/// A requested range of bytes: either end may be absent.
#[derive(Debug, Clone, Copy, PartialEq, Eq, Structural)]
pub struct Range {
    pub from: Option<usize>,
    pub to: Option<usize>,
}

impl Range {
    pub fn new(from: Option<usize>, to: Option<usize>) -> (r: Range)
        ensures
            r.from == from,
            r.to == to,
    {
        Range { from, to }
    }
}

/// Holds at the entries whose key is `key`.
pub open spec fn at_key(key: Seq<u8>) -> spec_fn(Seq<(Seq<u8>, Seq<u8>)>, int) -> bool {
    |t: Seq<(Seq<u8>, Seq<u8>)>, j: int| t[j].0 == key
}

/// The position of the entry with `key`, or the number of entries.
pub open spec fn position(es: Seq<(Seq<u8>, Seq<u8>)>, key: Seq<u8>) -> int {
    first_at(es, at_key(key))
}

/// The value that stands under `key`.
pub open spec fn lookup(es: Seq<(Seq<u8>, Seq<u8>)>, key: Seq<u8>) -> Option<Seq<u8>> {
    if position(es, key) < es.len() {
        Some(es[position(es, key)].1)
    } else {
        None
    }
}

/// The entries after `value` was put under `key`: in place of the value that
/// stood there, else at the end.
pub open spec fn inserted(es: Seq<(Seq<u8>, Seq<u8>)>, key: Seq<u8>, value: Seq<u8>) -> Seq<
    (Seq<u8>, Seq<u8>),
> {
    if position(es, key) < es.len() {
        es.update(position(es, key), (key, value))
    } else {
        es.push((key, value))
    }
}

/// The entries without the one under `key`.
pub open spec fn removed(es: Seq<(Seq<u8>, Seq<u8>)>, key: Seq<u8>) -> Seq<(Seq<u8>, Seq<u8>)> {
    if position(es, key) < es.len() {
        es.remove(position(es, key))
    } else {
        es
    }
}

/// No key stands twice.
pub open spec fn distinct_keys(es: Seq<(Seq<u8>, Seq<u8>)>) -> bool {
    forall|i: int, j: int| 0 <= i < j < es.len() ==> (#[trigger] es[i]).0 != (#[trigger] es[j]).0
}

/// A map from text to text that keeps its entries in the order in which
/// their keys first came. No key stands twice.
#[derive(Debug)]
pub struct TextMap {
    pub entries: Vec<(Vec<u8>, Vec<u8>)>,
}

impl View for TextMap {
    type V = Seq<(Seq<u8>, Seq<u8>)>;

    open spec fn view(&self) -> Seq<(Seq<u8>, Seq<u8>)> {
        self.entries@.map_values(|e: (Vec<u8>, Vec<u8>)| (e.0@, e.1@))
    }
}

impl TextMap {
    pub open spec fn wf(&self) -> bool {
        distinct_keys(self@)
    }

    pub fn new() -> (m: TextMap)
        ensures
            m@ == Seq::<(Seq<u8>, Seq<u8>)>::empty(),
            m.wf(),
    {
        let m = TextMap { entries: Vec::new() };
        proof {
            assert(m@ =~= Seq::<(Seq<u8>, Seq<u8>)>::empty());
        }
        m
    }

    /// The number of entries.
    pub fn len(&self) -> (n: usize)
        ensures
            n == self@.len(),
    {
        self.entries.len()
    }

    fn find(&self, key: &[u8]) -> (i: usize)
        ensures
            i == position(self@, key@),
            i <= self@.len(),
            i < self@.len() ==> self@[i as int].0 == key@,
    {
        let mut i: usize = 0;
        while i < self.entries.len()
            invariant
                i <= self.entries@.len(),
                forall|j: int| 0 <= j < i ==> (#[trigger] self@[j]).0 != key@,
            decreases self.entries@.len() - i,
        {
            if bytes_equal(self.entries[i].0.as_slice(), key) {
                proof {
                    lemma_first_at(self@, at_key(key@), i as int);
                }
                return i;
            }
            i += 1;
        }
        proof {
            lemma_first_at(self@, at_key(key@), i as int);
        }
        i
    }

    /// The value under `key`.
    pub fn get(&self, key: &[u8]) -> (r: Option<&Vec<u8>>)
        ensures
            match lookup(self@, key@) {
                Some(value) => r is Some && r->0@ == value,
                None => r is None,
            },
    {
        let i = self.find(key);
        if i < self.entries.len() {
            Some(&self.entries[i].1)
        } else {
            None
        }
    }

    /// Puts `value` under `key`; a value that stood there is replaced.
    pub fn insert(&mut self, key: Vec<u8>, value: Vec<u8>)
        requires
            old(self).wf(),
        ensures
            final(self)@ == inserted(old(self)@, key@, value@),
            final(self).wf(),
    {
        let i = self.find(key.as_slice());
        let ghost before = self@;
        if i < self.entries.len() {
            self.entries.set(i, (key, value));
            proof {
                assert(self@ =~= before.update(i as int, (key@, value@)));
            }
        } else {
            self.entries.push((key, value));
            proof {
                assert(self@ =~= before.push((key@, value@)));
                lemma_first_at_is_first(before, at_key(key@));
                assert forall|a: int, b: int| 0 <= a < b < self@.len() implies (#[trigger] self@[a]).0
                    != (#[trigger] self@[b]).0 by {
                    if b == before.len() {
                        assert(!at_key(key@)(before, a));
                    } else {
                        assert(before[a].0 != before[b].0);
                    }
                }
            }
        }
    }

    /// Takes out the entry under `key`, if there is one.
    pub fn remove(&mut self, key: &[u8])
        requires
            old(self).wf(),
        ensures
            final(self)@ == removed(old(self)@, key@),
            final(self).wf(),
    {
        let i = self.find(key);
        let ghost before = self@;
        if i < self.entries.len() {
            self.entries.remove(i);
            proof {
                assert(self@ =~= before.remove(i as int));
                assert forall|a: int, b: int| 0 <= a < b < self@.len() implies (#[trigger] self@[a]).0
                    != (#[trigger] self@[b]).0 by {
                    let a0 = if a < i { a } else { a + 1 };
                    let b0 = if b < i { b } else { b + 1 };
                    assert(before[a0].0 != before[b0].0);
                }
            }
        }
    }
}

/// What was put under a key is found there, and what stands under any other
/// key is what stood there: of several values put under one key, the last
/// wins.
pub proof fn lemma_insert_lookup(es: Seq<(Seq<u8>, Seq<u8>)>, key: Seq<u8>, value: Seq<u8>, other: Seq<u8>)
    ensures
        lookup(inserted(es, key, value), key) == Some(value),
        other != key ==> lookup(inserted(es, key, value), other) == lookup(es, other),
{
    let p = position(es, key);
    let after = inserted(es, key, value);
    lemma_first_at_is_first(es, at_key(key));
    assert(is_first_at(after, at_key(key), p)) by {
        assert forall|j: int| 0 <= j < p implies !#[trigger] at_key(key)(after, j) by {
            assert(!at_key(key)(es, j));
        }
    }
    lemma_first_at(after, at_key(key), p);
    if other != key {
        let q = position(es, other);
        lemma_first_at_is_first(es, at_key(other));
        let q2 = if q < es.len() {
            q
        } else {
            after.len() as int
        };
        assert(is_first_at(after, at_key(other), q2)) by {
            assert forall|j: int| 0 <= j < q2 implies !#[trigger] at_key(other)(after, j) by {
                if j < es.len() {
                    assert(!at_key(other)(es, j));
                    if j == p {
                        assert(after[j].0 == key);
                    } else {
                        assert(after[j] == es[j]);
                    }
                } else {
                    assert(after[j].0 == key);
                }
            }
            if q < es.len() {
                assert(at_key(other)(es, q));
                if p < es.len() {
                    assert(at_key(key)(es, p));
                }
                assert(after[q] == es[q]);
            }
        }
        lemma_first_at(after, at_key(other), q2);
    }
}

} // verus!
