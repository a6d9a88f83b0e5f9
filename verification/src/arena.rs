//! A typed arena: a growing table of slots addressed by stable ids.
//!
//! A slot is either filled or reserved (empty). Ids are never reused: an id
//! handed out by `add` or `reserve` names the same slot for the arena's whole
//! life.
use std::marker::PhantomData;

use vstd::prelude::*;

verus! {

/// The table of slots, in the order they were handed out.
#[derive(Clone, Debug)]
pub struct Arena<T> {
    items: Vec<Option<T>>,
}

/// The address of a slot in an `Arena<T>`.
#[derive(Debug)]
pub struct Id<T> {
    index: usize,
    marker: PhantomData<T>,
}

impl<T> Id<T> {
    /// The position of the slot in its arena.
    pub closed spec fn idx(self) -> nat {
        self.index as nat
    }

    /// The position of the slot in its arena.
    pub fn index(&self) -> (r: usize)
        ensures
            r == self.idx(),
    {
        self.index
    }
}

impl<T> Clone for Id<T> {
    fn clone(&self) -> (r: Self)
        ensures
            r == *self,
    {
        Id { index: self.index, marker: PhantomData }
    }
}

impl<T> Copy for Id<T> {

}

impl<T> PartialEq for Id<T> {
    fn eq(&self, other: &Self) -> (r: bool) {
        self.index == other.index
    }
}

impl<T> vstd::std_specs::cmp::PartialEqSpecImpl for Id<T> {
    open spec fn obeys_eq_spec() -> bool {
        true
    }

    open spec fn eq_spec(&self, other: &Self) -> bool {
        self.idx() == other.idx()
    }
}

impl<T> Eq for Id<T> {

}

impl<T> View for Arena<T> {
    type V = Seq<Option<T>>;

    closed spec fn view(&self) -> Seq<Option<T>> {
        self.items@
    }
}

/// What the slot at `index` of a table holds: `None` where the slot is
/// reserved or where no such slot exists.
pub open spec fn slot<T>(items: Seq<Option<T>>, index: nat) -> Option<T> {
    if index < items.len() {
        items[index as int]
    } else {
        None
    }
}

/// The positions of the filled slots of a table, in increasing order.
pub open spec fn filled_positions<T>(items: Seq<Option<T>>, ids: Seq<Id<T>>) -> bool {
    &&& forall|k: int| 0 <= k < ids.len() ==> #[trigger] ids[k].idx() < items.len()
        && items[ids[k].idx() as int] is Some
    &&& forall|k1: int, k2: int|
        0 <= k1 < k2 < ids.len() ==> #[trigger] ids[k1].idx() < #[trigger] ids[k2].idx()
    &&& forall|i: int|
        0 <= i < items.len() && items[i] is Some ==> exists|k: int|
            0 <= k < ids.len() && #[trigger] ids[k].idx() == i
}

impl<T> Default for Arena<T> {
    fn default() -> (r: Self)
        ensures
            r@ == Seq::<Option<T>>::empty(),
    {
        Self::new()
    }
}

impl<T> Arena<T> {
    /// An arena with no slots.
    pub fn new() -> (r: Self)
        ensures
            r@ == Seq::<Option<T>>::empty(),
    {
        Self { items: Vec::new() }
    }

    /// Appends a filled slot holding `item` and returns its id.
    pub fn add(&mut self, item: T) -> (id: Id<T>)
        ensures
            id.idx() == old(self)@.len(),
            final(self)@ == old(self)@.push(Some(item)),
    {
        let index = self.items.len();
        self.items.push(Some(item));
        Id { index, marker: PhantomData }
    }

    /// Appends an empty (reserved) slot and returns its id.
    pub fn reserve(&mut self) -> (id: Id<T>)
        ensures
            id.idx() == old(self)@.len(),
            final(self)@ == old(self)@.push(None),
    {
        let index = self.items.len();
        self.items.push(None);
        Id { index, marker: PhantomData }
    }

    /// Fills the slot `id` with `item`; an id past the end leaves the arena
    /// unchanged.
    pub fn insert(&mut self, id: Id<T>, item: T)
        ensures
            id.idx() < old(self)@.len() ==> final(self)@ == old(self)@.update(
                id.idx() as int,
                Some(item),
            ),
            id.idx() >= old(self)@.len() ==> final(self)@ == old(self)@,
    {
        if id.index < self.items.len() {
            self.items.set(id.index, Some(item));
        }
    }

    /// The item in slot `id`, if that slot exists and is filled.
    pub fn get(&self, id: Id<T>) -> (r: Option<&T>)
        ensures
            r == (match slot(self@, id.idx()) {
                Some(v) => Some(&v),
                None => None,
            }),
    {
        if id.index < self.items.len() {
            self.items[id.index].as_ref()
        } else {
            None
        }
    }

    /// A mutable borrow of the item in slot `id`, if that slot exists and is
    /// filled. Whatever is written through it lands in that slot alone.
    pub fn get_mut(&mut self, id: Id<T>) -> (r: Option<&mut T>)
        ensures
            r is Some <==> slot(old(self)@, id.idx()) is Some,
            r is Some ==> *r->0 == slot(old(self)@, id.idx())->0 && final(self)@ == old(
                self,
            )@.update(id.idx() as int, Some(*final(r->0))),
            r is None ==> final(self)@ == old(self)@,
    {
        if id.index < self.items.len() {
            self.items[id.index].as_mut()
        } else {
            None
        }
    }

    /// The ids of the filled slots, in the order the slots were handed out.
    pub fn keys(&self) -> (r: Vec<Id<T>>)
        ensures
            filled_positions(self@, r@),
    {
        let mut ids: Vec<Id<T>> = Vec::new();
        let mut i: usize = 0;
        while i < self.items.len()
            invariant
                i <= self.items@.len(),
                forall|k: int| 0 <= k < ids@.len() ==> #[trigger] ids@[k].idx() < i
                    && self.items@[ids@[k].idx() as int] is Some,
                forall|k1: int, k2: int|
                    0 <= k1 < k2 < ids@.len() ==> #[trigger] ids@[k1].idx()
                        < #[trigger] ids@[k2].idx(),
                forall|j: int|
                    0 <= j < i && self.items@[j] is Some ==> exists|k: int|
                        0 <= k < ids@.len() && #[trigger] ids@[k].idx() == j,
            decreases self.items@.len() - i,
        {
            let ghost before = ids@;
            if self.items[i].is_some() {
                ids.push(Id { index: i, marker: PhantomData });
                assert(ids@[ids@.len() - 1].idx() == i);
            }
            assert forall|j: int|
                0 <= j < i + 1 && self.items@[j] is Some implies exists|k: int|
                    0 <= k < ids@.len() && #[trigger] ids@[k].idx() == j by {
                if j < i {
                    let k = choose|k: int| 0 <= k < before.len() && #[trigger] before[k].idx() == j;
                    assert(ids@[k] == before[k]);
                } else {
                    assert(ids@[ids@.len() - 1].idx() == j);
                }
            }
            i = i + 1;
        }
        ids
    }

    /// The filled slots with their ids, in the order the slots were handed out.
    pub fn iter(&self) -> (r: Vec<(Id<T>, &T)>)
        ensures
            filled_positions(self@, r@.map_values(|p: (Id<T>, &T)| p.0)),
            forall|k: int|
                0 <= k < r@.len() ==> Some(*(#[trigger] r@[k]).1) == self@[r@[k].0.idx() as int],
    {
        let mut out: Vec<(Id<T>, &T)> = Vec::new();
        let mut i: usize = 0;
        while i < self.items.len()
            invariant
                i <= self.items@.len(),
                forall|k: int| 0 <= k < out@.len() ==> (#[trigger] out@[k]).0.idx() < i
                    && self.items@[out@[k].0.idx() as int] == Some(*out@[k].1),
                forall|k1: int, k2: int|
                    0 <= k1 < k2 < out@.len() ==> (#[trigger] out@[k1]).0.idx() < (
                    #[trigger] out@[k2]).0.idx(),
                forall|j: int|
                    0 <= j < i && self.items@[j] is Some ==> exists|k: int|
                        0 <= k < out@.len() && (#[trigger] out@[k]).0.idx() == j,
            decreases self.items@.len() - i,
        {
            let ghost before = out@;
            if let Some(item) = self.items[i].as_ref() {
                out.push((Id { index: i, marker: PhantomData }, item));
                assert(out@[out@.len() - 1].0.idx() == i);
            }
            assert forall|j: int|
                0 <= j < i + 1 && self.items@[j] is Some implies exists|k: int|
                    0 <= k < out@.len() && (#[trigger] out@[k]).0.idx() == j by {
                if j < i {
                    let k = choose|k: int| 0 <= k < before.len() && (#[trigger] before[k]).0.idx() == j;
                    assert(out@[k] == before[k]);
                } else {
                    assert(out@[out@.len() - 1].0.idx() == j);
                }
            }
            i = i + 1;
        }
        let ghost ids = out@.map_values(|p: (Id<T>, &T)| p.0);
        assert forall|i: int|
            0 <= i < self@.len() && self@[i] is Some implies exists|k: int|
                0 <= k < ids.len() && #[trigger] ids[k].idx() == i by {
            let k = choose|k: int| 0 <= k < out@.len() && (#[trigger] out@[k]).0.idx() == i;
            assert(ids[k].idx() == i);
        }
        assert forall|k1: int, k2: int|
            0 <= k1 < k2 < ids.len() implies #[trigger] ids[k1].idx()
                < #[trigger] ids[k2].idx() by {
            assert(out@[k1].0.idx() < out@[k2].0.idx());
        }
        out
    }
}

/// Adding an item makes it readable under the returned id, and leaves every
/// slot that existed before as it was.
pub proof fn law_get_after_add<T>(items: Seq<Option<T>>, item: T, other: nat)
    ensures
        slot(items.push(Some(item)), items.len()) == Some(item),
        other < items.len() ==> slot(items.push(Some(item)), other) == slot(items, other),
{
}

/// A reserved slot reads as empty until it is filled; filling it makes the
/// item readable, and touches no other slot.
pub proof fn law_reserve_then_insert<T>(items: Seq<Option<T>>, item: T, other: nat)
    ensures
        slot(items.push(None), items.len()) is None,
        slot(items.push(None).update(items.len() as int, Some(item)), items.len()) == Some(
            item,
        ),
        other != items.len() ==> slot(
            items.push(None).update(items.len() as int, Some(item)),
            other,
        ) == slot(items, other),
{
}

/// Filling a slot that exists overwrites it and leaves the others alone.
pub proof fn law_insert_overwrites<T>(items: Seq<Option<T>>, index: nat, item: T, other: nat)
    requires
        index < items.len(),
    ensures
        slot(items.update(index as int, Some(item)), index) == Some(item),
        other != index ==> slot(items.update(index as int, Some(item)), other) == slot(
            items,
            other,
        ),
{
}

proof fn lemma_filled_prefix<T>(items: Seq<Option<T>>, a: Seq<Id<T>>, b: Seq<Id<T>>, n: int)
    requires
        filled_positions(items, a),
        filled_positions(items, b),
        0 <= n <= a.len(),
        n <= b.len(),
    ensures
        forall|k: int| 0 <= k < n ==> #[trigger] a[k].idx() == b[k].idx(),
    decreases n,
{
    if n > 0 {
        let k = n - 1;
        lemma_filled_prefix(items, a, b, k);
        if a[k].idx() < b[k].idx() {
            let i = a[k].idx() as int;
            let k2 = choose|k2: int| 0 <= k2 < b.len() && #[trigger] b[k2].idx() == i;
            if k2 < k {
                assert(a[k2].idx() == b[k2].idx());
                assert(a[k2].idx() < a[k].idx());
            } else if k2 > k {
                assert(b[k].idx() < b[k2].idx());
            }
        } else if b[k].idx() < a[k].idx() {
            let i = b[k].idx() as int;
            let k2 = choose|k2: int| 0 <= k2 < a.len() && #[trigger] a[k2].idx() == i;
            if k2 < k {
                assert(a[k2].idx() == b[k2].idx());
                assert(b[k2].idx() < b[k].idx());
            } else if k2 > k {
                assert(a[k].idx() < a[k2].idx());
            }
        }
    }
}

/// The ids of an arena's filled slots are determined by the arena: any two
/// lists of them, such as what `keys` gives and the ids of what `iter`
/// gives, name the same slots in the same order.
pub proof fn law_filled_ids_unique<T>(items: Seq<Option<T>>, a: Seq<Id<T>>, b: Seq<Id<T>>)
    requires
        filled_positions(items, a),
        filled_positions(items, b),
    ensures
        a.len() == b.len(),
        forall|k: int| 0 <= k < a.len() ==> #[trigger] a[k].idx() == b[k].idx(),
{
    if a.len() < b.len() {
        lemma_filled_prefix(items, a, b, a.len() as int);
        let i = b[a.len() as int].idx() as int;
        let k = choose|k: int| 0 <= k < a.len() && #[trigger] a[k].idx() == i;
        assert(b[k].idx() == a[k].idx());
        assert(b[k].idx() < b[a.len() as int].idx());
    } else if b.len() < a.len() {
        lemma_filled_prefix(items, b, a, b.len() as int);
        let i = a[b.len() as int].idx() as int;
        let k = choose|k: int| 0 <= k < b.len() && #[trigger] b[k].idx() == i;
        assert(a[k].idx() == b[k].idx());
        assert(a[k].idx() < a[b.len() as int].idx());
    }
    lemma_filled_prefix(items, a, b, a.len() as int);
}

} // verus!
