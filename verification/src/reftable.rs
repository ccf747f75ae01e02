//! The reference table: the key-to-label mapping built by the block pass
//! across all documents and read by the inline pass. A key inserted twice
//! keeps the last label (last-writer-wins), which is what makes
//! re-processing idempotent; defining one key twice with different
//! meanings in a single source is a caller error.

use vstd::map::*;
use vstd::prelude::*;

verus! {

/// The label the table holds for a key: the first entry with that key,
/// scanned front to back.
pub open spec fn assoc_lookup(entries: Seq<(String, String)>, k: Seq<char>) -> Option<Seq<char>>
    decreases entries.len(),
{
    if entries.len() == 0 {
        None
    } else if entries[0].0@ == k {
        Some(entries[0].1@)
    } else {
        assoc_lookup(entries.drop_first(), k)
    }
}

/// Mapping from reference key to rendered label text.
pub struct RefTable {
    entries: Vec<(String, String)>,
}

impl View for RefTable {
    type V = Map<Seq<char>, Seq<char>>;

    closed spec fn view(&self) -> Map<Seq<char>, Seq<char>> {
        Map::new(
            |k: Seq<char>| assoc_lookup(self.entries@, k) is Some,
            |k: Seq<char>| assoc_lookup(self.entries@, k)->0,
        )
    }
}

proof fn lemma_lookup_no_match_skip(e: Seq<(String, String)>, k: Seq<char>, i: int)
    requires
        0 <= i <= e.len(),
        forall|j: int| 0 <= j < i ==> (#[trigger] e[j]).0@ != k,
    ensures
        assoc_lookup(e, k) == assoc_lookup(e.skip(i), k),
    decreases i,
{
    if i > 0 {
        assert(e[0].0@ != k);
        lemma_lookup_no_match_skip(e.drop_first(), k, i - 1);
        assert(e.drop_first().skip(i - 1) =~= e.skip(i));
    } else {
        assert(e.skip(0) =~= e);
    }
}

proof fn lemma_lookup_update(e: Seq<(String, String)>, i: int, kv: (String, String), k: Seq<char>)
    requires
        0 <= i < e.len(),
        forall|j: int| 0 <= j < i ==> (#[trigger] e[j]).0@ != kv.0@,
        e[i].0@ == kv.0@,
    ensures
        k == kv.0@ ==> assoc_lookup(e.update(i, kv), k) == Some(kv.1@),
        k != kv.0@ ==> assoc_lookup(e.update(i, kv), k) == assoc_lookup(e, k),
    decreases i,
{
    let u = e.update(i, kv);
    if i == 0 {
        assert(u[0] == kv);
        if k != kv.0@ {
            assert(u.drop_first() =~= e.drop_first());
            assert(e[0].0@ == kv.0@);
        }
    } else {
        assert(u[0] == e[0]);
        assert(u.drop_first() =~= e.drop_first().update(i - 1, kv));
        assert(forall|j: int|
            0 <= j < i - 1 ==> (#[trigger] e.drop_first()[j]).0@ != kv.0@ && e.drop_first()[j]
                == e[j + 1]);
        lemma_lookup_update(e.drop_first(), i - 1, kv, k);
        assert(e[0].0@ != kv.0@);
    }
}

proof fn lemma_lookup_push(e: Seq<(String, String)>, kv: (String, String), k: Seq<char>)
    ensures
        k == kv.0@ && assoc_lookup(e, k) is None ==> assoc_lookup(e.push(kv), k) == Some(kv.1@),
        assoc_lookup(e, k) is Some ==> assoc_lookup(e.push(kv), k) == assoc_lookup(e, k),
        k != kv.0@ ==> assoc_lookup(e.push(kv), k) == assoc_lookup(e, k),
    decreases e.len(),
{
    let p = e.push(kv);
    if e.len() == 0 {
        assert(p[0] == kv);
        assert(p.drop_first() =~= Seq::<(String, String)>::empty());
        assert(assoc_lookup(Seq::<(String, String)>::empty(), k) is None);
    } else {
        assert(p[0] == e[0]);
        assert(p.drop_first() =~= e.drop_first().push(kv));
        lemma_lookup_push(e.drop_first(), kv, k);
    }
}

impl RefTable {
    /// The empty table a full build starts from.
    pub fn new() -> (r: RefTable)
        ensures
            r@ == Map::<Seq<char>, Seq<char>>::empty(),
    {
        let r = RefTable { entries: Vec::new() };
        proof {
            assert(r@ =~= Map::<Seq<char>, Seq<char>>::empty());
        }
        r
    }

    /// The label recorded for a key, if any.
    pub fn get(&self, key: &str) -> (r: Option<String>)
        ensures
            r matches Some(v) ==> self@.contains_key(key@) && v@ == self@[key@],
            r is None ==> !self@.contains_key(key@),
    {
        let n = self.entries.len();
        let mut i: usize = 0;
        while i < n
            invariant
                0 <= i <= n,
                n == self.entries.len(),
                forall|j: int| 0 <= j < i ==> (#[trigger] self.entries@[j]).0@ != key@,
            decreases n - i,
        {
            if crate::strutil::str_eq_str(self.entries[i].0.as_str(), key) {
                let v = self.entries[i].1.clone();
                proof {
                    lemma_lookup_no_match_skip(self.entries@, key@, i as int);
                    assert(self.entries@.skip(i as int)[0] == self.entries@[i as int]);
                    assert(assoc_lookup(self.entries@.skip(i as int), key@) == Some(
                        self.entries@[i as int].1@,
                    ));
                }
                return Some(v);
            }
            i = i + 1;
        }
        proof {
            lemma_lookup_no_match_skip(self.entries@, key@, n as int);
            assert(self.entries@.skip(n as int) =~= Seq::<(String, String)>::empty());
        }
        None
    }

    /// Record a label for a key; an existing entry is overwritten.
    pub fn insert(&mut self, key: String, value: String)
        ensures
            final(self)@ == old(self)@.insert(key@, value@),
    {
        let ghost e0 = self.entries@;
        let n = self.entries.len();
        let mut i: usize = 0;
        while i < n
            invariant
                0 <= i <= n,
                n == self.entries.len(),
                self.entries@ == e0,
                e0 == old(self).entries@,
                forall|j: int| 0 <= j < i ==> (#[trigger] e0[j]).0@ != key@,
            decreases n - i,
        {
            if crate::strutil::str_eq_str(self.entries[i].0.as_str(), key.as_str()) {
                let ghost kv = (key, value);
                self.entries.remove(i);
                self.entries.insert(i, (key, value));
                proof {
                    assert(self.entries@ =~= e0.update(i as int, kv));
                    assert(kv.0@ == e0[i as int].0@);
                    assert_maps_equal!(self@, old(self)@.insert(kv.0@, kv.1@), k => {
                        lemma_lookup_update(e0, i as int, kv, k);
                        assert(assoc_lookup(self.entries@, k) == assoc_lookup(
                            e0.update(i as int, kv),
                            k,
                        ));
                    });
                }
                return ;
            }
            i = i + 1;
        }
        let ghost kv = (key, value);
        self.entries.push((key, value));
        proof {
            assert(self.entries@ =~= e0.push(kv));
            lemma_lookup_no_match_skip(e0, kv.0@, n as int);
            assert(e0.skip(n as int) =~= Seq::<(String, String)>::empty());
            assert(assoc_lookup(e0, kv.0@) is None);
            assert_maps_equal!(self@, old(self)@.insert(kv.0@, kv.1@), k => {
                lemma_lookup_push(e0, kv, k);
                assert(assoc_lookup(self.entries@, k) == assoc_lookup(e0.push(kv), k));
            });
        }
    }
}

} // verus!
