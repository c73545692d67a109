//! Generational ids: an index into a table and the generation of the entry it was issued for.
//! Freed indexes are reused, and each reuse bumps the entry's generation.

use vstd::prelude::*;

verus! {

/// An id issued by an `IdGenerator`.
#[derive(Copy, Clone, Debug, Default, PartialEq, Eq, Structural, PartialOrd)]
pub struct Id {
    index: usize,
    generation: u32,
}

impl Id {
    /// The index of the id's entry.
    pub closed spec fn slot(&self) -> nat {
        self.index as nat
    }

    /// The generation the id was issued with.
    pub closed spec fn gen(&self) -> nat {
        self.generation as nat
    }

    /// The index of the id's entry.
    pub fn index(self) -> (r: usize)
        ensures
            r == self.slot(),
    {
        self.index
    }
}

/// A type that wraps an `Id`.
pub trait IsId: Copy + Clone {
    fn new(_id: Id) -> Self;

    fn id(self) -> Id;
}

/// One entry of the generator's table.
#[derive(Copy, Clone, Debug)]
struct IdGeneratorEntry {
    is_live: bool,
    generation: u32,
}

/// A call on a generator: `next` that issued the id, or `free` of the id.
#[derive(Copy, Clone, Debug, PartialEq, Eq, Structural)]
pub enum IdCall {
    Next(Id),
    Free(Id),
}

/// The number of `next` calls less the number of `free` calls.
pub open spec fn issued_less_freed(calls: Seq<IdCall>) -> int
    decreases calls.len(),
{
    if calls.len() == 0 {
        0
    } else {
        issued_less_freed(calls.drop_last()) + match calls.last() {
            IdCall::Next(_) => 1int,
            IdCall::Free(_) => -1int,
        }
    }
}

/// Whether `id` is freed by one of `calls`.
pub open spec fn freed_in(calls: Seq<IdCall>, id: Id) -> bool {
    exists|i: int| 0 <= i < calls.len() && #[trigger] calls[i] == IdCall::Free(id)
}

/// Issues ids, reusing the indexes of freed ones.
#[derive(Clone, Debug)]
pub struct IdGenerator {
    ids: Vec<IdGeneratorEntry>,
    free_indexes: Vec<usize>,
}

/// The number of live entries.
pub open spec fn count_live(entries: Seq<(bool, nat)>) -> nat
    decreases entries.len(),
{
    if entries.len() == 0 {
        0
    } else {
        count_live(entries.drop_last()) + if entries.last().0 {
            1nat
        } else {
            0nat
        }
    }
}

/// Setting one entry's liveness changes the count by one at most.
pub proof fn lemma_count_live_update(entries: Seq<(bool, nat)>, i: int, e: (bool, nat))
    requires
        0 <= i < entries.len(),
    ensures
        count_live(entries.update(i, e)) + (if entries[i].0 { 1nat } else { 0nat }) == count_live(
            entries,
        ) + (if e.0 { 1nat } else { 0nat }),
    decreases entries.len(),
{
    if i < entries.len() - 1 {
        lemma_count_live_update(entries.drop_last(), i, e);
        assert(entries.update(i, e).drop_last() =~= entries.drop_last().update(i, e));
    } else {
        assert(entries.update(i, e).drop_last() =~= entries.drop_last());
    }
}

/// There are no more live entries than entries.
pub proof fn lemma_count_live_bound(entries: Seq<(bool, nat)>)
    ensures
        count_live(entries) <= entries.len(),
    decreases entries.len(),
{
    if entries.len() > 0 {
        lemma_count_live_bound(entries.drop_last());
    }
}

impl IdGenerator {
    /// Each entry: whether it is live, and its current generation.
    pub closed spec fn entries(&self) -> Seq<(bool, nat)> {
        self.ids@.map_values(|e: IdGeneratorEntry| (e.is_live, e.generation as nat))
    }

    /// The indexes of freed entries, the next to be reused last.
    pub closed spec fn free_list(&self) -> Seq<usize> {
        self.free_indexes@
    }

    /// Whether `id` is an id of this generator's current generation for its entry.
    pub open spec fn is_current(&self, id: Id) -> bool {
        &&& id.slot() < self.entries().len()
        &&& self.entries()[id.slot() as int].1 == id.gen()
    }

    /// The generator's invariant: the free list holds each non-live entry exactly once.
    pub closed spec fn wf(&self) -> bool {
        &&& forall|j: int|
            0 <= j < self.free_indexes@.len() ==> (#[trigger] self.free_indexes@[j]) < self.ids@.len()
                && !self.ids@[self.free_indexes@[j] as int].is_live
        &&& self.free_indexes@.no_duplicates()
        &&& count_live(self.entries()) + self.free_indexes@.len() == self.ids@.len()
    }

    /// An entry is on the free list exactly when it is not live.
    pub proof fn lemma_free_list(&self)
        requires
            self.wf(),
        ensures
            forall|j: int|
                0 <= j < self.free_list().len() ==> (#[trigger] self.free_list()[j]) < self.entries().len()
                    && !self.entries()[self.free_list()[j] as int].0,
            self.free_list().no_duplicates(),
            count_live(self.entries()) + self.free_list().len() == self.entries().len(),
    {
    }

    /// A generator with no entries.
    pub fn new() -> (r: Self)
        ensures
            r.wf(),
            r.entries() == Seq::<(bool, nat)>::empty(),
            r.free_list() == Seq::<usize>::empty(),
    {
        let r = Self { ids: Vec::new(), free_indexes: Vec::new() };
        proof {
            assert(r.entries() =~= Seq::<(bool, nat)>::empty());
        }
        r
    }

    /// Issues an id: the last freed index with its generation bumped, or a new entry of
    /// generation 0 when none is free. The id's entry is live afterwards, an id of the
    /// entry's earlier generation is no longer current, and every live id stays live.
    ///
    /// The generation is a `u32` bumped by one, so `requires` leaves out an entry reused
    /// after generation `u32::MAX`.
    pub fn next(&mut self) -> (id: Id)
        requires
            old(self).wf(),
            old(self).free_list().len() > 0 ==> old(self).entries()[old(self).free_list().last() as int].1
                < u32::MAX,
        ensures
            final(self).wf(),
            old(self).free_list().len() > 0 ==> {
                let i = old(self).free_list().last() as int;
                &&& id.slot() == i
                &&& id.gen() == old(self).entries()[i].1 + 1
                &&& final(self).entries() == old(self).entries().update(i, (true, id.gen()))
                &&& final(self).free_list() == old(self).free_list().drop_last()
            },
            old(self).free_list().len() == 0 ==> {
                &&& id.slot() == old(self).entries().len()
                &&& id.gen() == 0
                &&& final(self).entries() == old(self).entries().push((true, 0))
                &&& final(self).free_list() == old(self).free_list()
            },
            final(self).is_current(id),
            final(self).entries()[id.slot() as int].0,
            count_live(final(self).entries()) == count_live(old(self).entries()) + 1,
            forall|stale: Id| #[trigger] old(self).is_current(stale) && stale.slot() == id.slot()
                ==> !final(self).is_current(stale) && stale != id,
            final(self).entries().len() >= old(self).entries().len(),
            forall|x: Id| #[trigger] old(self).is_current(x) && old(self).entries()[x.slot() as int].0
                ==> final(self).is_current(x) && final(self).entries()[x.slot() as int].0,
            old(self).called(*final(self), IdCall::Next(id)),
    {
        let ghost old_entries = self.entries();
        let ghost old_free = self.free_indexes@;
        if let Some(index) = self.free_indexes.pop() {
            proof {
                assert(old_free[old_free.len() - 1] == index);
                assert(old_free.drop_last() =~= self.free_indexes@);
            }
            let mut e = self.ids[index];
            e.is_live = true;
            e.generation = e.generation + 1;
            self.ids.set(index, e);
            proof {
                assert(self.entries() =~= old_entries.update(index as int, (true, e.generation as nat)));
                lemma_count_live_update(old_entries, index as int, (true, e.generation as nat));
                assert forall|j: int| 0 <= j < self.free_indexes@.len() implies (#[trigger] self.free_indexes@[j])
                    < self.ids@.len() && !self.ids@[self.free_indexes@[j] as int].is_live by {
                    assert(self.free_indexes@[j] == old_free[j]);
                    assert(old_free[j] != old_free[old_free.len() - 1]);
                }
            }
            return Id { index, generation: e.generation };
        }
        let index = self.ids.len();
        self.ids.push(IdGeneratorEntry { is_live: true, generation: 0 });
        proof {
            assert(self.entries() =~= old_entries.push((true, 0)));
            assert(self.entries().drop_last() =~= old_entries);
        }
        Id { index, generation: 0 }
    }

    /// Frees a live id of the current generation: its entry is no longer live and its index
    /// goes on the free list; every other live id stays live. `requires` asks for both.
    pub fn free(&mut self, id: Id)
        requires
            old(self).wf(),
            old(self).is_current(id),
            old(self).entries()[id.slot() as int].0,
        ensures
            final(self).wf(),
            final(self).entries() == old(self).entries().update(
                id.slot() as int,
                (false, old(self).entries()[id.slot() as int].1),
            ),
            final(self).free_list() == old(self).free_list().push(id.slot() as usize),
            count_live(final(self).entries()) + 1 == count_live(old(self).entries()),
            forall|x: Id| #[trigger] old(self).is_current(x) && old(self).entries()[x.slot() as int].0 && x != id
                ==> final(self).is_current(x) && final(self).entries()[x.slot() as int].0,
            old(self).called(*final(self), IdCall::Free(id)),
    {
        let ghost old_entries = self.entries();
        let ghost old_free = self.free_indexes@;
        let mut e = self.ids[id.index];
        e.is_live = false;
        self.ids.set(id.index, e);
        self.free_indexes.push(id.index);
        proof {
            assert(self.entries() =~= old_entries.update(id.index as int, (false, e.generation as nat)));
            lemma_count_live_update(old_entries, id.index as int, (false, e.generation as nat));
            assert forall|j: int| 0 <= j < old_free.len() implies old_free[j] != id.index by {
                assert(!old_entries[old_free[j] as int].0);
            }
            assert forall|a: int, b: int| 0 <= a < b < self.free_indexes@.len() implies
                self.free_indexes@[a] != self.free_indexes@[b] by {
                if b == old_free.len() {
                    assert(self.free_indexes@[a] == old_free[a]);
                }
            }
        }
    }

    /// Whether the entry of `id` is live, whatever its generation. `requires` keeps the index
    /// within the table.
    pub fn is_live(&self, id: Id) -> (r: bool)
        requires
            id.slot() < self.entries().len(),
        ensures
            r == self.entries()[id.slot() as int].0,
    {
        self.ids[id.index].is_live
    }

    /// What `call` does, as `next` and `free` state it: `next` issues a current, live id,
    /// counts one more live entry and keeps every live id live; `free` of a current, live id
    /// makes it not live, counts one fewer and keeps every other live id live.
    pub open spec fn called(&self, after: IdGenerator, call: IdCall) -> bool {
        &&& after.entries().len() >= self.entries().len()
        &&& match call {
            IdCall::Next(id) => {
                &&& after.is_current(id)
                &&& after.entries()[id.slot() as int].0
                &&& count_live(after.entries()) == count_live(self.entries()) + 1
                &&& forall|x: Id| #[trigger] self.is_current(x) && self.entries()[x.slot() as int].0
                    ==> after.is_current(x) && after.entries()[x.slot() as int].0
            },
            IdCall::Free(id) => {
                &&& self.is_current(id)
                &&& self.entries()[id.slot() as int].0
                &&& !after.entries()[id.slot() as int].0
                &&& count_live(after.entries()) + 1 == count_live(self.entries())
                &&& forall|x: Id| #[trigger] self.is_current(x) && self.entries()[x.slot() as int].0 && x != id
                    ==> after.is_current(x) && after.entries()[x.slot() as int].0
            },
        }
    }

    /// Over any run of calls from `gens[0]`, the live count moves by the number of ids issued
    /// less the number freed (so from a new generator it is exactly that), and an id issued by
    /// one of the calls stays live until a later call frees it.
    pub proof fn lemma_calls(gens: Seq<IdGenerator>, calls: Seq<IdCall>)
        requires
            gens.len() == calls.len() + 1,
            forall|i: int| 0 <= i < calls.len() ==> #[trigger] gens[i].called(gens[i + 1], calls[i]),
        ensures
            count_live(gens.last().entries()) == count_live(gens[0].entries()) + issued_less_freed(calls),
            forall|i: int| 0 <= i < calls.len() && (#[trigger] calls[i]) is Next
                && !freed_in(calls.subrange(i + 1, calls.len() as int), calls[i]->Next_0)
                ==> gens.last().is_current(calls[i]->Next_0) && gens.last().entries()[calls[i]->Next_0.slot() as int].0,
        decreases calls.len(),
    {
        if calls.len() > 0 {
            let n = calls.len() - 1;
            let g2 = gens.drop_last();
            let c2 = calls.drop_last();
            assert forall|i: int| 0 <= i < c2.len() implies #[trigger] g2[i].called(g2[i + 1], c2[i]) by {
                assert(gens[i].called(gens[i + 1], calls[i]));
            }
            Self::lemma_calls(g2, c2);
            assert(gens[n].called(gens[n + 1], calls[n]));
            assert forall|i: int| 0 <= i < calls.len() && (#[trigger] calls[i]) is Next
                && !freed_in(calls.subrange(i + 1, calls.len() as int), calls[i]->Next_0)
                implies gens.last().is_current(calls[i]->Next_0) && gens.last().entries()[calls[i]->Next_0.slot() as int].0 by {
                let id = calls[i]->Next_0;
                if i < n {
                    assert(c2[i] == IdCall::Next(id));
                    if freed_in(c2.subrange(i + 1, c2.len() as int), id) {
                        let sub = c2.subrange(i + 1, c2.len() as int);
                        let k = choose|k: int| 0 <= k < sub.len() && #[trigger] sub[k] == IdCall::Free(id);
                        assert(calls.subrange(i + 1, calls.len() as int)[k] == IdCall::Free(id));
                    }
                    assert(g2.last() == gens[n]);
                    if calls[n] == IdCall::Free(id) {
                        assert(calls.subrange(i + 1, calls.len() as int)[n - i - 1] == IdCall::Free(id));
                    }
                }
            }
        }
    }

    /// The number of live entries.
    pub fn len(&self) -> (r: usize)
        requires
            self.wf(),
        ensures
            r == count_live(self.entries()),
    {
        self.ids.len() - self.free_indexes.len()
    }
}

} // verus!
