//! A small key-value table over byte-string keys, the shared store of both
//! components.
//!
//! The table is an association list with unique keys.  Its view is the
//! sequence of `(key, value)` pairs in insertion order, and [`spec_lookup`]
//! says what a key maps to.  Keeping the sequence (rather than only a map) as
//! the view lets the components state that a successful registration appends
//! exactly one pair and that an update rewrites exactly one.

use vstd::prelude::*;

use crate::types::bytes_eq;
use crate::types::copy_bytes;

verus! {

/// The value bound to `key` in `s`: the value of the first pair whose key
/// matches, or `None` if no pair matches.
pub open spec fn spec_lookup(s: Seq<(Seq<u8>, Seq<u8>)>, key: Seq<u8>) -> Option<Seq<u8>>
    decreases s.len(),
{
    if s.len() == 0 {
        None
    } else if s[0].0 == key {
        Some(s[0].1)
    } else {
        spec_lookup(s.skip(1), key)
    }
}

/// `s` with the value of the first pair keyed by `key` replaced by `val`;
/// `s` unchanged if no pair matches.
pub open spec fn spec_replace(s: Seq<(Seq<u8>, Seq<u8>)>, key: Seq<u8>, val: Seq<u8>) -> Seq<
    (Seq<u8>, Seq<u8>),
>
    decreases s.len(),
{
    if s.len() == 0 {
        s
    } else if s[0].0 == key {
        seq![(key, val)].add(s.skip(1))
    } else {
        seq![s[0]].add(spec_replace(s.skip(1), key, val))
    }
}

/// A key is absent exactly when no pair carries it.
pub proof fn lemma_lookup_absent(s: Seq<(Seq<u8>, Seq<u8>)>, key: Seq<u8>)
    ensures
        (spec_lookup(s, key) is None) <==> (forall|j: int| 0 <= j < s.len() ==> s[j].0 != key),
    decreases s.len(),
{
    if s.len() > 0 {
        let t = s.skip(1);
        lemma_lookup_absent(t, key);
        if spec_lookup(s, key) is None {
            assert forall|j: int| 0 <= j < s.len() implies s[j].0 != key by {
                if j > 0 {
                    assert(t[j - 1] == s[j]);
                }
            }
        } else if s[0].0 != key {
            assert(exists|j: int| 0 <= j < t.len() && t[j].0 == key);
            let j = choose|j: int| 0 <= j < t.len() && t[j].0 == key;
            assert(t[j] == s[j + 1]);
        }
    }
}

/// If the first pair carrying `key` stands at index `i`, the lookup returns
/// its value.
pub proof fn lemma_lookup_first(s: Seq<(Seq<u8>, Seq<u8>)>, i: int, key: Seq<u8>)
    requires
        0 <= i < s.len(),
        s[i].0 == key,
        forall|j: int| 0 <= j < i ==> s[j].0 != key,
    ensures
        spec_lookup(s, key) == Some(s[i].1),
    decreases i,
{
    if i > 0 {
        lemma_lookup_first(s.skip(1), i - 1, key);
    }
}

/// Appending a pair with a fresh key binds that key and leaves every other
/// key's lookup unchanged.
pub proof fn lemma_lookup_push(s: Seq<(Seq<u8>, Seq<u8>)>, key: Seq<u8>, val: Seq<u8>, k2: Seq<u8>)
    requires
        spec_lookup(s, key) is None,
    ensures
        spec_lookup(s.push((key, val)), k2) == if k2 == key {
            Some(val)
        } else {
            spec_lookup(s, k2)
        },
    decreases s.len(),
{
    let p = s.push((key, val));
    if s.len() == 0 {
        assert(p[0] == (key, val));
        assert(p.skip(1) =~= Seq::<(Seq<u8>, Seq<u8>)>::empty());
        assert(spec_lookup(p.skip(1), k2) is None);
    } else {
        assert(p[0] == s[0]);
        assert(p.skip(1) =~= s.skip(1).push((key, val)));
        lemma_lookup_push(s.skip(1), key, val, k2);
        assert(spec_lookup(p.skip(1), k2) == spec_lookup(s.skip(1).push((key, val)), k2));
    }
}

/// Replacement keeps the length and the keys of `s`.
pub proof fn lemma_replace_shape(s: Seq<(Seq<u8>, Seq<u8>)>, key: Seq<u8>, val: Seq<u8>)
    ensures
        spec_replace(s, key, val).len() == s.len(),
        forall|j: int| 0 <= j < s.len() ==> #[trigger] spec_replace(s, key, val)[j].0 == s[j].0,
    decreases s.len(),
{
    if s.len() > 0 && s[0].0 != key {
        lemma_replace_shape(s.skip(1), key, val);
    }
}

/// After a replacement, the replaced key reads back the new value (when it
/// was bound at all) and every other key reads what it read before.
pub proof fn lemma_replace_lookup(
    s: Seq<(Seq<u8>, Seq<u8>)>,
    key: Seq<u8>,
    val: Seq<u8>,
    k2: Seq<u8>,
)
    ensures
        spec_lookup(spec_replace(s, key, val), k2) == if k2 == key && spec_lookup(s, key) is Some {
            Some(val)
        } else {
            spec_lookup(s, k2)
        },
    decreases s.len(),
{
    if s.len() > 0 {
        if s[0].0 == key {
            let r = seq![(key, val)].add(s.skip(1));
            assert(r.skip(1) =~= s.skip(1));
        } else {
            let r = seq![s[0]].add(spec_replace(s.skip(1), key, val));
            assert(r.skip(1) =~= spec_replace(s.skip(1), key, val));
            lemma_replace_lookup(s.skip(1), key, val, k2);
        }
    }
}

/// When the first pair carrying `key` stands at index `i`, replacement is a
/// point update there.
pub proof fn lemma_replace_is_update(s: Seq<(Seq<u8>, Seq<u8>)>, i: int, key: Seq<u8>, val: Seq<u8>)
    requires
        0 <= i < s.len(),
        s[i].0 == key,
        forall|j: int| 0 <= j < i ==> s[j].0 != key,
    ensures
        spec_replace(s, key, val) == s.update(i, (key, val)),
    decreases i,
{
    if i == 0 {
        assert(spec_replace(s, key, val) =~= s.update(0, (key, val)));
    } else {
        lemma_replace_is_update(s.skip(1), i - 1, key, val);
        assert(seq![s[0]].add(s.skip(1).update(i - 1, (key, val))) =~= s.update(i, (key, val)));
    }
}

/// The shared store: an association list whose keys are pairwise distinct.
pub struct Table {
    entries: Vec<(Vec<u8>, Vec<u8>)>,
}

impl View for Table {
    type V = Seq<(Seq<u8>, Seq<u8>)>;

    closed spec fn view(&self) -> Seq<(Seq<u8>, Seq<u8>)> {
        Seq::new(self.entries@.len(), |i: int| (self.entries@[i].0@, self.entries@[i].1@))
    }
}

impl Table {
    /// Keys are pairwise distinct.
    pub open spec fn wf(&self) -> bool {
        forall|i: int, j: int| 0 <= i < j < self@.len() ==> self@[i].0 != self@[j].0
    }

    /// An empty table.
    pub fn new() -> (r: Table)
        ensures
            r.wf(),
            r@ == Seq::<(Seq<u8>, Seq<u8>)>::empty(),
    {
        let r = Table { entries: Vec::new() };
        proof {
            assert(r@ =~= Seq::<(Seq<u8>, Seq<u8>)>::empty());
        }
        r
    }

    /// The index of the first pair carrying `key`, if any.
    fn find_index(&self, key: &Vec<u8>) -> (r: Option<usize>)
        ensures
            match r {
                Some(i) => i < self@.len() && self@[i as int].0 == key@ && (forall|j: int|
                    0 <= j < i ==> self@[j].0 != key@),
                None => forall|j: int| 0 <= j < self@.len() ==> self@[j].0 != key@,
            },
    {
        let mut i: usize = 0;
        while i < self.entries.len()
            invariant
                i <= self@.len(),
                self@.len() == self.entries@.len(),
                forall|j: int| 0 <= j < i ==> self@[j].0 != key@,
            decreases self@.len() - i,
        {
            if bytes_eq(&self.entries[i].0, key) {
                return Some(i);
            }
            i += 1;
        }
        None
    }

    /// Whether `key` is bound.
    pub fn contains(&self, key: &Vec<u8>) -> (r: bool)
        ensures
            r == (spec_lookup(self@, key@) is Some),
    {
        match self.find_index(key) {
            Some(i) => {
                proof {
                    lemma_lookup_first(self@, i as int, key@);
                }
                true
            },
            None => {
                proof {
                    lemma_lookup_absent(self@, key@);
                }
                false
            },
        }
    }

    /// The value bound to `key`, copied out.
    pub fn get(&self, key: &Vec<u8>) -> (r: Option<Vec<u8>>)
        ensures
            match r {
                Some(v) => spec_lookup(self@, key@) == Some(v@),
                None => spec_lookup(self@, key@) is None,
            },
    {
        match self.find_index(key) {
            Some(i) => {
                proof {
                    lemma_lookup_first(self@, i as int, key@);
                }
                Some(copy_bytes(&self.entries[i].1))
            },
            None => {
                proof {
                    lemma_lookup_absent(self@, key@);
                }
                None
            },
        }
    }

    /// Binds a key that is not yet bound; the new pair goes to the end.
    pub fn insert_new(&mut self, key: Vec<u8>, val: Vec<u8>)
        requires
            old(self).wf(),
            spec_lookup(old(self)@, key@) is None,
        ensures
            final(self).wf(),
            final(self)@ == old(self)@.push((key@, val@)),
    {
        proof {
            lemma_lookup_absent(self@, key@);
        }
        let ghost pre = self@;
        self.entries.push((key, val));
        proof {
            assert(self@ =~= pre.push((key@, val@)));
        }
    }

    /// Rewrites the value of a key that is already bound.
    pub fn replace(&mut self, key: &Vec<u8>, val: Vec<u8>)
        requires
            old(self).wf(),
            spec_lookup(old(self)@, key@) is Some,
        ensures
            final(self).wf(),
            final(self)@ == spec_replace(old(self)@, key@, val@),
    {
        let ghost pre = self@;
        match self.find_index(key) {
            Some(i) => {
                proof {
                    lemma_replace_is_update(pre, i as int, key@, val@);
                }
                let k = copy_bytes(key);
                self.entries.set(i, (k, val));
                proof {
                    assert(self@ =~= pre.update(i as int, (key@, val@)));
                    lemma_replace_shape(pre, key@, val@);
                }
            },
            None => {
                proof {
                    lemma_lookup_absent(pre, key@);
                }
            },
        }
    }

    /// A copy of every pair, in order, for a host that persists the state.
    pub fn export(&self) -> (r: Vec<(Vec<u8>, Vec<u8>)>)
        ensures
            r@.len() == self@.len(),
            forall|i: int|
                0 <= i < self@.len() ==> #[trigger] r@[i].0@ == self@[i].0 && r@[i].1@
                    == self@[i].1,
    {
        let mut r: Vec<(Vec<u8>, Vec<u8>)> = Vec::new();
        let mut i: usize = 0;
        while i < self.entries.len()
            invariant
                i <= self@.len(),
                self@.len() == self.entries@.len(),
                r@.len() == i,
                forall|j: int|
                    0 <= j < i ==> #[trigger] r@[j].0@ == self@[j].0 && r@[j].1@ == self@[j].1,
            decreases self@.len() - i,
        {
            let k = copy_bytes(&self.entries[i].0);
            let v = copy_bytes(&self.entries[i].1);
            r.push((k, v));
            i += 1;
        }
        r
    }

    /// Rebuilds a table from exported pairs, checking key uniqueness anew:
    /// `None` exactly when two pairs share a key.
    pub fn from_entries(entries: &Vec<(Vec<u8>, Vec<u8>)>) -> (r: Option<Table>)
        ensures
            r matches Some(t) ==> t.wf() && t@.len() == entries@.len() && (forall|i: int|
                0 <= i < entries@.len() ==> #[trigger] t@[i] == (entries@[i].0@, entries@[i].1@)),
            r is None ==> exists|i: int, j: int|
                0 <= i < j < entries@.len() && entries@[i].0@ == entries@[j].0@,
    {
        let mut t = Table::new();
        let mut i: usize = 0;
        while i < entries.len()
            invariant
                i <= entries@.len(),
                t.wf(),
                t@.len() == i,
                forall|j: int| 0 <= j < i ==> #[trigger] t@[j] == (entries@[j].0@, entries@[j].1@),
            decreases entries@.len() - i,
        {
            if t.contains(&entries[i].0) {
                proof {
                    lemma_lookup_absent(t@, entries@[i as int].0@);
                    assert(exists|k: int| 0 <= k < t@.len() && t@[k].0 == entries@[i as int].0@);
                    let k = choose|k: int| 0 <= k < t@.len() && t@[k].0 == entries@[i as int].0@;
                    assert(entries@[k].0@ == entries@[i as int].0@);
                }
                return None;
            }
            let k = copy_bytes(&entries[i].0);
            let v = copy_bytes(&entries[i].1);
            t.insert_new(k, v);
            i += 1;
        }
        Some(t)
    }
}

} // verus!
