//! String interning: one long-lived copy of each distinct string.
use std::collections::HashMap;

use vstd::prelude::*;

use crate::text::{chars_of, leak, str_eq};

verus! {

broadcast use vstd::std_specs::hash::group_hash_axioms;

/// The modulus of `string_hash`, a prime.
pub const HASH_MODULUS: u64 = 1_000_003;

/// The hash that places a string in the interner's index: its characters
/// folded left to right by `h * 31 + c`, modulo `HASH_MODULUS`.
pub open spec fn string_hash(s: Seq<char>) -> u64
    decreases s.len(),
{
    if s.len() == 0 {
        0
    } else {
        ((string_hash(s.drop_last()) as int * 31 + s.last() as u32 as int)
            % HASH_MODULUS as int) as u64
    }
}

/// The hash of `s` (see `string_hash`).
pub fn hash_str(s: &str) -> (r: u64)
    ensures
        r == string_hash(s@),
        r < HASH_MODULUS,
{
    let chars = chars_of(s);
    let mut h: u64 = 0;
    let mut i: usize = 0;
    assert(chars@.take(0) =~= Seq::<char>::empty());
    while i < chars.len()
        invariant
            i <= chars@.len(),
            chars@ == s@,
            h == string_hash(chars@.take(i as int)),
            h < HASH_MODULUS,
        decreases chars@.len() - i,
    {
        let c = chars[i];
        let code = c as u32;
        assert(chars@.take(i + 1).drop_last() =~= chars@.take(i as int));
        assert(chars@.take(i + 1).last() == c);
        h = (h * 31 + code as u64) % HASH_MODULUS;
        i = i + 1;
    }
    assert(chars@.take(chars@.len() as int) =~= chars@);
    h
}

/// The interned strings, each held once, with an index from the hash of a
/// string to the positions of the entries with that hash, so that a lookup
/// compares the string with those entries alone.
pub struct Interner {
    items: Vec<&'static str>,
    index: HashMap<u64, Vec<usize>>,
}

/// No two entries hold the same characters.
pub open spec fn distinct_strings(items: Seq<&'static str>) -> bool {
    forall|i: int, j: int| 0 <= i < j < items.len() ==> (#[trigger] items[i])@ != (
    #[trigger] items[j])@
}

/// Whether the index lists position `i` under hash `h`.
pub open spec fn indexed(index: Map<u64, Vec<usize>>, h: u64, i: int) -> bool {
    index.contains_key(h) && index[h]@.contains(i as usize)
}

impl Interner {
    #[verifier::type_invariant]
    spec fn well_formed(self) -> bool {
        &&& distinct_strings(self.items@)
        &&& forall|i: int|
            0 <= i < self.items@.len() ==> #[trigger] indexed(
                self.index@,
                string_hash(self.items@[i]@),
                i,
            )
        &&& forall|h: u64, k: int|
            self.index@.contains_key(h) && 0 <= k < self.index@[h]@.len() ==> #[trigger] self.index@[h]@[k]
                < self.items@.len()
    }

    /// The interned strings, in the order they were first interned.
    pub closed spec fn entries(self) -> Seq<&'static str> {
        self.items@
    }

    pub fn new() -> (r: Self)
        ensures
            r.entries() == Seq::<&'static str>::empty(),
            distinct_strings(r.entries()),
    {
        Interner { items: Vec::new(), index: HashMap::new() }
    }

    /// The entry that holds `s`, if there is one.
    fn find(&self, s: &str, h: u64) -> (r: Option<&'static str>)
        requires
            h == string_hash(s@),
        ensures
            r matches Some(e) ==> e@ == s@ && self.items@.contains(e),
            r is None ==> forall|i: int| 0 <= i < self.items@.len() ==> (#[trigger] self.items@[i])@ != s@,
    {
        proof {
            use_type_invariant(self);
        }
        match self.index.get(&h) {
            Some(bucket) => {
                let mut k: usize = 0;
                while k < bucket.len()
                    invariant
                        k <= bucket@.len(),
                        self.index@.contains_key(h),
                        self.index@[h] == *bucket,
                        forall|j: int| 0 <= j < bucket@.len() ==> #[trigger] bucket@[j] < self.items@.len(),
                        forall|j: int| 0 <= j < k ==> self.items@[#[trigger] bucket@[j] as int]@ != s@,
                        h == string_hash(s@),
                        forall|i: int|
                            0 <= i < self.items@.len() ==> #[trigger] indexed(
                                self.index@,
                                string_hash(self.items@[i]@),
                                i,
                            ),
                    decreases bucket@.len() - k,
                {
                    let j = bucket[k];
                    if str_eq(self.items[j], s) {
                        return Some(self.items[j]);
                    }
                    k = k + 1;
                }
                let total = self.items.len();
                assert forall|i: int| 0 <= i < self.items@.len() implies (
                #[trigger] self.items@[i])@ != s@ by {
                    if self.items@[i]@ == s@ {
                        assert(indexed(self.index@, string_hash(self.items@[i]@), i));
                        assert(bucket@.contains(i as usize));
                        let j = choose|j: int| 0 <= j < bucket@.len() && bucket@[j] == i as usize;
                        assert(i < total);
                        assert((i as usize) as int == i);
                        assert(self.items@[bucket@[j] as int]@ != s@);
                    }
                }
                None
            },
            None => {
                assert forall|i: int| 0 <= i < self.items@.len() implies (
                #[trigger] self.items@[i])@ != s@ by {
                    if self.items@[i]@ == s@ {
                        assert(indexed(self.index@, string_hash(self.items@[i]@), i));
                    }
                }
                None
            },
        }
    }

    /// The interned copy of `s`: the entry that holds `s` if there is one,
    /// else a new entry, appended.
    pub fn intern(&mut self, s: &str) -> (r: &'static str)
        ensures
            intern_post(old(self).entries(), final(self).entries(), s@, r),
            distinct_strings(final(self).entries()),
    {
        proof {
            use_type_invariant(&*self);
        }
        let h = hash_str(s);
        if let Some(e) = self.find(s, h) {
            return e;
        }
        let leaked = leak(s.to_owned());
        let mut whole = Interner::new();
        std::mem::swap(self, &mut whole);
        proof {
            use_type_invariant(&whole);
        }
        let Interner { mut items, mut index } = whole;
        let ghost old_items = items@;
        let ghost old_index = index@;
        let n = items.len();
        items.push(leaked);
        let mut bucket = match index.remove(&h) {
            Some(b) => b,
            None => Vec::new(),
        };
        let ghost old_bucket = bucket@;
        bucket.push(n);
        index.insert(h, bucket);
        proof {
            assert(items@ == old_items.push(leaked));
            assert forall|i: int| 0 <= i < items@.len() implies #[trigger] indexed(
                index@,
                string_hash(items@[i]@),
                i,
            ) by {
                if i < n {
                    assert(items@[i] == old_items[i]);
                    assert(indexed(old_index, string_hash(old_items[i]@), i));
                    if string_hash(old_items[i]@) == h {
                        let j = choose|j: int| 0 <= j < old_index[h]@.len() && old_index[h]@[j] == i as usize;
                        assert(index@[h]@[j] == i as usize);
                    }
                } else {
                    assert(index@[h]@[old_bucket.len() as int] == n);
                }
            }
            assert forall|g: u64, k: int|
                index@.contains_key(g) && 0 <= k < index@[g]@.len() implies #[trigger] index@[g]@[k]
                < items@.len() by {
                if g == h && k < old_bucket.len() {
                    assert(old_index[h]@[k] == index@[g]@[k]);
                }
            }
            assert forall|i: int, j: int| 0 <= i < j < items@.len() implies (
            #[trigger] items@[i])@ != (#[trigger] items@[j])@ by {
                if j == n {
                    assert(old_items[i]@ != s@);
                } else {
                    assert(old_items[i]@ != old_items[j]@);
                }
            }
        }
        *self = Interner { items, index };
        leaked
    }
}

impl Default for Interner {
    fn default() -> (r: Self)
        ensures
            r.entries() == Seq::<&'static str>::empty(),
    {
        Self::new()
    }
}

/// Whether `s` is held by some entry.
pub open spec fn is_interned(entries: Seq<&'static str>, s: Seq<char>) -> bool {
    exists|i: int| 0 <= i < entries.len() && entries[i]@ == s
}

/// What interning `s` does: it returns an entry holding `s`; the entries stay
/// as they were when one held `s` already, and otherwise gain that entry last.
pub open spec fn intern_post(
    before: Seq<&'static str>,
    after: Seq<&'static str>,
    s: Seq<char>,
    r: &'static str,
) -> bool {
    &&& r@ == s
    &&& is_interned(before, s) ==> after == before && before.contains(r)
    &&& !is_interned(before, s) ==> after == before.push(r)
}

/// Interning a string twice: the second time adds no entry, and both calls
/// return strings holding the same characters.
pub proof fn law_intern_idempotent(
    e0: Seq<&'static str>,
    e1: Seq<&'static str>,
    e2: Seq<&'static str>,
    s: Seq<char>,
    r1: &'static str,
    r2: &'static str,
)
    requires
        intern_post(e0, e1, s, r1),
        intern_post(e1, e2, s, r2),
    ensures
        e2 == e1,
        r2@ == r1@,
        e1.contains(r2),
{
    if is_interned(e0, s) {
    } else {
        assert(e1[e0.len() as int]@ == s);
    }
}

} // verus!
