//! A container of entities, each with a transform and a sprite, kept partitioned by state:
//! first the visible entities, then the hidden (active but not drawn) ones, then the inactive.

use vstd::prelude::*;
use crate::id_manager::{Id, IdGenerator};

verus! {

/// Swaps two elements of a vector with std's `<[T]>::swap`, which the contract takes to
/// exchange the elements at `a` and `b` and leave the others; it panics when either index is
/// out of bounds, which `requires` rules out.
#[verifier::external_body]
fn vec_swap<T>(v: &mut Vec<T>, a: usize, b: usize)
    requires
        a < old(v).len(),
        b < old(v).len(),
    ensures
        final(v)@ == old(v)@.update(a as int, old(v)@[b as int]).update(b as int, old(v)@[a as int]),
{
    v.swap(a, b);
}

/// The state of an entity.
#[derive(Clone, Copy, Debug, PartialEq, Eq, Structural)]
pub enum EntityState {
    Visible,
    Hidden,
    Inactive,
}

/// A handle to an entity of a container.
#[derive(Clone, Copy, Debug, PartialEq, Eq, Structural)]
pub struct Entity {
    pub id: Id,
}

/// A range of positions of a container.
#[derive(Clone, Copy, Debug, PartialEq, Eq, Structural)]
pub struct EntityRange {
    pub start: usize,
    pub end: usize,
}

impl EntityRange {
    /// The number of positions.
    pub fn len(&self) -> (r: usize)
        requires
            self.start <= self.end,
        ensures
            r == self.end - self.start,
    {
        self.end - self.start
    }
}

/// Entities with their transforms (`T`) and sprites (`S`).
pub struct EntityContainer<T, S> {
    active_count: usize,
    visible_count: usize,
    entities: Vec<Id>,
    transforms: Vec<T>,
    sprites: Vec<S>,
    mapping: Vec<usize>,
    id_manager: IdGenerator,
}

/// The state of the entity at position `p` of a container with these counts.
pub open spec fn state_at(visible: nat, active: nat, p: int) -> EntityState {
    if p < visible {
        EntityState::Visible
    } else if p < active {
        EntityState::Hidden
    } else {
        EntityState::Inactive
    }
}

/// `s` with the elements at `i` and `j` exchanged.
pub open spec fn swap_at<A>(s: Seq<A>, i: int, j: int) -> Seq<A> {
    s.update(i, s[j]).update(j, s[i])
}

/// The order that removing the entity at position `p` leaves, for a container with `visible`
/// visible and `active` active entities: the entity moves to the end through the last position
/// of each region after its own, each move exchanging it with the entity there, and is dropped
/// from the end.
pub open spec fn destroy_order<A>(s: Seq<A>, p: int, visible: int, active: int) -> Seq<A> {
    let last = s.len() - 1;
    if p < visible {
        swap_at(swap_at(swap_at(s, p, visible - 1), visible - 1, active - 1), active - 1, last).drop_last()
    } else if p < active {
        swap_at(swap_at(s, p, active - 1), active - 1, last).drop_last()
    } else {
        swap_at(s, p, last).drop_last()
    }
}

/// Every entity but `e` of `old` is still in `new`, in the same state, with the same transform
/// and sprite.
pub open spec fn others_kept<T, S>(old: EntityContainer<T, S>, new: EntityContainer<T, S>, e: Id) -> bool {
    forall|x: Id|
        x != e && #[trigger] old.ids().contains(x) ==> {
            &&& new.ids().contains(x)
            &&& new.state_of(x) == old.state_of(x)
            &&& new.transform_of(x) == old.transform_of(x)
            &&& new.sprite_of(x) == old.sprite_of(x)
        }
}

impl<T, S> EntityContainer<T, S> {
    /// The ids of the entities, by position.
    pub closed spec fn ids(&self) -> Seq<Id> {
        self.entities@
    }

    /// The transforms, by position.
    pub closed spec fn transforms(&self) -> Seq<T> {
        self.transforms@
    }

    /// The sprites, by position.
    pub closed spec fn sprites(&self) -> Seq<S> {
        self.sprites@
    }

    /// The number of visible entities (the first ones).
    pub closed spec fn visible_count(&self) -> nat {
        self.visible_count as nat
    }

    /// The number of active entities, visible or hidden (the first ones).
    pub closed spec fn active_count(&self) -> nat {
        self.active_count as nat
    }

    /// The position of an entity.
    pub closed spec fn position(&self, e: Id) -> int {
        self.mapping@[e.slot() as int] as int
    }

    /// The state of an entity.
    pub open spec fn state_of(&self, e: Id) -> EntityState {
        state_at(self.visible_count(), self.active_count(), self.position(e))
    }

    /// The transform of an entity.
    pub open spec fn transform_of(&self, e: Id) -> T {
        self.transforms()[self.position(e)]
    }

    /// The sprite of an entity.
    pub open spec fn sprite_of(&self, e: Id) -> S {
        self.sprites()[self.position(e)]
    }

    /// The container's invariant.
    pub closed spec fn wf(&self) -> bool {
        &&& self.visible_count <= self.active_count <= self.entities@.len()
        &&& self.transforms@.len() == self.entities@.len()
        &&& self.sprites@.len() == self.entities@.len()
        &&& self.id_manager.wf()
        &&& self.mapping@.len() == self.id_manager.entries().len()
        &&& forall|p: int|
            0 <= p < self.entities@.len() ==> {
                let id = #[trigger] self.entities@[p];
                &&& self.id_manager.is_current(id)
                &&& self.id_manager.entries()[id.slot() as int].0
                &&& self.mapping@[id.slot() as int] == p
            }
    }

    /// An entity of the container stands at its position.
    pub proof fn lemma_position(&self, e: Id)
        requires
            self.wf(),
            self.ids().contains(e),
        ensures
            0 <= self.position(e) < self.ids().len(),
            self.ids()[self.position(e)] == e,
            self.visible_count() <= self.active_count() <= self.ids().len(),
            self.transforms().len() == self.ids().len(),
            self.sprites().len() == self.ids().len(),
    {
        let p = choose|p: int| 0 <= p < self.entities@.len() && self.entities@[p] == e;
        assert(self.entities@[p] == e);
    }

    /// Positions hold distinct entities.
    pub proof fn lemma_distinct(&self, p: int, q: int)
        requires
            self.wf(),
            0 <= p < self.ids().len(),
            0 <= q < self.ids().len(),
            p != q,
        ensures
            self.ids()[p] != self.ids()[q],
    {
        let a = self.entities@[p];
        let b = self.entities@[q];
        assert(self.mapping@[a.slot() as int] == p);
        assert(self.mapping@[b.slot() as int] == q);
    }

    /// An empty container.
    pub fn new() -> (r: Self)
        ensures
            r.wf(),
            r.ids() == Seq::<Id>::empty(),
            r.visible_count() == 0,
            r.active_count() == 0,
    {
        EntityContainer {
            active_count: 0,
            visible_count: 0,
            entities: Vec::new(),
            transforms: Vec::new(),
            sprites: Vec::new(),
            mapping: Vec::new(),
            id_manager: IdGenerator::new(),
        }
    }

    /// The number of entities.
    pub fn len(&self) -> (r: usize)
        requires
            self.wf(),
        ensures
            r == self.ids().len(),
    {
        self.transforms.len()
    }

    /// Adds an inactive entity with its transform and sprite, at the end.
    ///
    /// The id's entry of the position table is set, or added for a new index.
    pub fn create_entity(&mut self, transform: T, sprite: S) -> (e: Entity)
        requires
            old(self).wf(),
            old(self).id_manager_can_issue(),
        ensures
            final(self).wf(),
            !old(self).ids().contains(e.id),
            final(self).ids() == old(self).ids().push(e.id),
            final(self).transforms() == old(self).transforms().push(transform),
            final(self).sprites() == old(self).sprites().push(sprite),
            final(self).visible_count() == old(self).visible_count(),
            final(self).active_count() == old(self).active_count(),
            final(self).state_of(e.id) == EntityState::Inactive,
            others_kept(*old(self), *final(self), e.id),
    {
        let ghost old_self = *self;
        let ghost old_ids = self.entities@;
        proof {
            old_self.id_manager.lemma_free_list();
        }
        let id = self.id_manager.next();
        let index = self.entities.len();
        proof {
            if old_self.id_manager.free_list().len() > 0 {
                let j = old_self.id_manager.free_list().len() - 1;
                assert(old_self.id_manager.free_list()[j] == old_self.id_manager.free_list().last());
                assert(!old_self.id_manager.entries()[id.slot() as int].0);
            }
            assert forall|p: int| 0 <= p < old_ids.len() implies old_ids[p].slot() != id.slot() by {
                let x = old_ids[p];
                assert(old_self.id_manager.entries()[x.slot() as int].0);
            }
        }
        self.entities.push(id);
        self.transforms.push(transform);
        self.sprites.push(sprite);
        if id.index() < self.mapping.len() {
            self.mapping.set(id.index(), index);
        } else {
            self.mapping.push(index);
        }
        proof {
            assert forall|p: int| 0 <= p < self.entities@.len() implies {
                let x = #[trigger] self.entities@[p];
                &&& self.id_manager.is_current(x)
                &&& self.id_manager.entries()[x.slot() as int].0
                &&& self.mapping@[x.slot() as int] == p
            } by {
                if p < old_ids.len() {
                    let x = old_ids[p];
                    assert(self.entities@[p] == x);
                    assert(old_ids[p].slot() != id.slot());
                }
            }
            assert(!old_ids.contains(id)) by {
                if old_ids.contains(id) {
                    let p = choose|p: int| 0 <= p < old_ids.len() && old_ids[p] == id;
                    assert(old_ids[p].slot() != id.slot());
                }
            }
            assert forall|x: Id| x != id && #[trigger] old_self.ids().contains(x) implies {
                &&& self.ids().contains(x)
                &&& self.state_of(x) == old_self.state_of(x)
                &&& self.transform_of(x) == old_self.transform_of(x)
                &&& self.sprite_of(x) == old_self.sprite_of(x)
            } by {
                old_self.lemma_position(x);
                let p = old_self.position(x);
                assert(self.ids()[p] == x);
                assert(old_ids[p].slot() != id.slot());
            }
        }
        Entity { id }
    }


    /// Removes an entity, keeping the others in their states, and frees its id.
    ///
    /// The entity is moved to the end, through the last position of each region before it,
    /// and dropped from there.
    pub fn destroy_entity(&mut self, entity: &Entity)
        requires
            old(self).wf(),
            old(self).ids().contains(entity.id),
        ensures
            final(self).wf(),
            final(self).ids().len() + 1 == old(self).ids().len(),
            final(self).ids() == destroy_order(
                old(self).ids(), old(self).position(entity.id), old(self).visible_count() as int, old(self).active_count() as int),
            final(self).transforms() == destroy_order(
                old(self).transforms(), old(self).position(entity.id), old(self).visible_count() as int, old(self).active_count() as int),
            final(self).sprites() == destroy_order(
                old(self).sprites(), old(self).position(entity.id), old(self).visible_count() as int, old(self).active_count() as int),
            !final(self).ids().contains(entity.id),
            others_kept(*old(self), *final(self), entity.id),
            forall|x: Id| #[trigger] final(self).ids().contains(x) ==> old(self).ids().contains(x),
            final(self).visible_count() == old(self).visible_count() - if old(self).state_of(entity.id)
                == EntityState::Visible {
                1int
            } else {
                0int
            },
            final(self).active_count() == old(self).active_count() - if old(self).state_of(entity.id)
                != EntityState::Inactive {
                1int
            } else {
                0int
            },
    {
        let ghost s0 = *self;
        let ghost e = entity.id;
        proof {
            s0.lemma_position(e);
        }
        let index = self.mapping[entity.id.index()];
        let visible_count = self.visible_count;
        let active_count = self.active_count;
        let last = self.entities.len() - 1;
        if index < visible_count {
            self.swap_and_update(index, visible_count - 1);
            let ghost s1 = *self;
            self.swap_and_update(visible_count - 1, active_count - 1);
            let ghost s2 = *self;
            self.swap_and_update(active_count - 1, last);
            self.visible_count = visible_count - 1;
            self.active_count = active_count - 1;
            proof {
                assert(s1.ids().contains(e));
                assert(s2.ids().contains(e));
                assert(self.position(e) == last);
                assert forall|x: Id| x != e && #[trigger] s0.ids().contains(x) implies self.state_of(x)
                    == s0.state_of(x) by {
                    s0.lemma_position(x);
                    assert(s1.ids().contains(x));
                    assert(s2.ids().contains(x));
                    let p = s0.position(x);
                    assert(s0.ids()[p] == x);
                    assert(p != index);
                }
            }
        } else if index < active_count {
            self.swap_and_update(index, active_count - 1);
            let ghost s1 = *self;
            self.swap_and_update(active_count - 1, last);
            self.active_count = active_count - 1;
            proof {
                assert(s1.ids().contains(e));
                assert(self.position(e) == last);
                assert forall|x: Id| x != e && #[trigger] s0.ids().contains(x) implies self.state_of(x)
                    == s0.state_of(x) by {
                    s0.lemma_position(x);
                    assert(s1.ids().contains(x));
                    let p = s0.position(x);
                    assert(s0.ids()[p] == x);
                    assert(p != index);
                }
            }
        } else {
            self.swap_and_update(index, last);
            proof {
                assert(self.position(e) == last);
                assert forall|x: Id| x != e && #[trigger] s0.ids().contains(x) implies self.state_of(x)
                    == s0.state_of(x) by {
                    s0.lemma_position(x);
                    let p = s0.position(x);
                    assert(s0.ids()[p] == x);
                    assert(p != index);
                }
            }
        }
        let ghost s3 = *self;
        proof {
            s3.lemma_position(e);
        }
        self.transforms.pop();
        self.sprites.pop();
        let id = self.entities.pop().unwrap();
        proof {
            assert(id == e);
            assert(s3.id_manager.entries()[e.slot() as int].0);
        }
        self.id_manager.free(id);
        proof {
            assert(self.entities@ =~= s3.entities@.drop_last());
            assert forall|p: int| 0 <= p < self.entities@.len() implies {
                let x = #[trigger] self.entities@[p];
                &&& self.id_manager.is_current(x)
                &&& self.id_manager.entries()[x.slot() as int].0
                &&& self.mapping@[x.slot() as int] == p
            } by {
                let x = self.entities@[p];
                assert(s3.entities@[p] == x);
                s3.lemma_distinct(p, last as int);
                assert(x.slot() != e.slot()) by {
                    assert(s3.mapping@[x.slot() as int] == p);
                    assert(s3.mapping@[e.slot() as int] == last);
                }
            }
            assert(!self.ids().contains(e)) by {
                if self.ids().contains(e) {
                    let p = choose|p: int| 0 <= p < self.ids().len() && self.ids()[p] == e;
                    assert(s3.ids()[p] == e);
                    s3.lemma_distinct(p, last as int);
                }
            }
            assert forall|x: Id| x != e && #[trigger] s0.ids().contains(x) implies {
                &&& self.ids().contains(x)
                &&& self.state_of(x) == s0.state_of(x)
                &&& self.transform_of(x) == s0.transform_of(x)
                &&& self.sprite_of(x) == s0.sprite_of(x)
            } by {
                assert(s3.ids().contains(x));
                s3.lemma_position(x);
                let p = s3.position(x);
                assert(p != last) by {
                    assert(s3.ids()[last as int] == e);
                }
                assert(self.ids()[p] == x);
            }
            assert forall|x: Id| #[trigger] self.ids().contains(x) implies s0.ids().contains(x) by {
                let p = choose|p: int| 0 <= p < self.ids().len() && self.ids()[p] == x;
                assert(s3.ids()[p] == x);
                assert(s3.ids().contains(x));
            }
        }
    }


    /// Moves an entity from one region to the next one: `first` must be its position and
    /// `second` the position at the boundary the entity crosses.
    proof fn lemma_swap_states(s0: Self, s1: Self, e: Id, first: int, second: int)
        requires
            s0.wf(),
            s0.ids().contains(e),
            s0.position(e) == first,
            0 <= second < s0.ids().len(),
            forall|x: Id| #[trigger] s0.ids().contains(x) ==> {
                &&& s1.ids().contains(x)
                &&& s1.transform_of(x) == s0.transform_of(x)
                &&& s1.sprite_of(x) == s0.sprite_of(x)
                &&& s1.position(x) == if x == s0.ids()[first] {
                    second
                } else if x == s0.ids()[second] {
                    first
                } else {
                    s0.position(x)
                }
            },
        ensures
            s1.position(e) == second,
            forall|x: Id| x != e && #[trigger] s0.ids().contains(x) ==> s1.position(x) == if s0.position(x) == second {
                first
            } else {
                s0.position(x)
            },
    {
        s0.lemma_position(e);
        assert forall|x: Id| x != e && #[trigger] s0.ids().contains(x) implies s1.position(x) == if s0.position(x) == second {
            first
        } else {
            s0.position(x)
        } by {
            s0.lemma_position(x);
            if s0.position(x) == second {
                assert(s0.ids()[second] == x);
            } else {
                assert(x != s0.ids()[second]);
            }
        }
    }

    /// Makes an inactive entity active: it becomes hidden. `requires` rules out an active
    /// entity.
    pub fn activate_entity(&mut self, entity: &Entity)
        requires
            old(self).wf(),
            old(self).ids().contains(entity.id),
            old(self).state_of(entity.id) == EntityState::Inactive,
        ensures
            final(self).wf(),
            final(self).ids().len() == old(self).ids().len(),
            final(self).state_of(entity.id) == EntityState::Hidden,
            final(self).ids() == swap_at(old(self).ids(), old(self).position(entity.id), old(self).active_count() as int),
            final(self).transforms() == swap_at(old(self).transforms(), old(self).position(entity.id), old(self).active_count() as int),
            final(self).sprites() == swap_at(old(self).sprites(), old(self).position(entity.id), old(self).active_count() as int),
            final(self).ids().contains(entity.id),
            final(self).transform_of(entity.id) == old(self).transform_of(entity.id),
            final(self).sprite_of(entity.id) == old(self).sprite_of(entity.id),
            others_kept(*old(self), *final(self), entity.id),
            forall|x: Id| #[trigger] final(self).ids().contains(x) ==> old(self).ids().contains(x),
            final(self).visible_count() == old(self).visible_count(),
            final(self).active_count() == old(self).active_count() + 1,
    {
        let ghost s0 = *self;
        let ghost e = entity.id;
        proof { s0.lemma_position(e); }
        let index = self.mapping[entity.id.index()];
        let active_count = self.active_count;
        let len = self.entities.len();
        proof {
            assert(active_count < len);
            assert(index as int == s0.position(e));
            assert(s0.position(e) >= s0.active_count());
        }
        self.swap_and_update(index, active_count);
        self.active_count = active_count + 1;
        proof {
            Self::lemma_swap_states(s0, *self, e, index as int, active_count as int);
        }
    }

    /// Makes a hidden entity inactive. `requires` asks for a hidden entity: an
    /// inactive one has nothing to do, and moving a visible one would break the partition.
    pub fn deactivate_entity(&mut self, entity: &Entity)
        requires
            old(self).wf(),
            old(self).ids().contains(entity.id),
            old(self).state_of(entity.id) == EntityState::Hidden,
        ensures
            final(self).wf(),
            final(self).ids().len() == old(self).ids().len(),
            final(self).state_of(entity.id) == EntityState::Inactive,
            final(self).ids() == swap_at(old(self).ids(), old(self).position(entity.id), old(self).active_count() - 1),
            final(self).transforms() == swap_at(old(self).transforms(), old(self).position(entity.id), old(self).active_count() - 1),
            final(self).sprites() == swap_at(old(self).sprites(), old(self).position(entity.id), old(self).active_count() - 1),
            final(self).ids().contains(entity.id),
            final(self).transform_of(entity.id) == old(self).transform_of(entity.id),
            final(self).sprite_of(entity.id) == old(self).sprite_of(entity.id),
            others_kept(*old(self), *final(self), entity.id),
            forall|x: Id| #[trigger] final(self).ids().contains(x) ==> old(self).ids().contains(x),
            final(self).visible_count() == old(self).visible_count(),
            final(self).active_count() + 1 == old(self).active_count(),
    {
        let ghost s0 = *self;
        let ghost e = entity.id;
        proof { s0.lemma_position(e); }
        let index = self.mapping[entity.id.index()];
        let active_count = self.active_count;
        self.swap_and_update(index, active_count - 1);
        self.active_count = active_count - 1;
        proof {
            Self::lemma_swap_states(s0, *self, e, index as int, active_count - 1);
        }
    }

    /// Sets whether an entity is active: `activate_entity` or `deactivate_entity`.
    pub fn set_entity_active(&mut self, entity: &Entity, active: bool)
        requires
            old(self).wf(),
            old(self).ids().contains(entity.id),
            old(self).state_of(entity.id) == if active { EntityState::Inactive } else { EntityState::Hidden },
        ensures
            final(self).wf(),
            final(self).ids().len() == old(self).ids().len(),
            final(self).state_of(entity.id) == if active { EntityState::Hidden } else { EntityState::Inactive },
            ({
                let q = if active { old(self).active_count() as int } else { old(self).active_count() - 1 };
                &&& final(self).ids() == swap_at(old(self).ids(), old(self).position(entity.id), q)
                &&& final(self).transforms() == swap_at(old(self).transforms(), old(self).position(entity.id), q)
                &&& final(self).sprites() == swap_at(old(self).sprites(), old(self).position(entity.id), q)
            }),
            final(self).ids().contains(entity.id),
            others_kept(*old(self), *final(self), entity.id),
            forall|x: Id| #[trigger] final(self).ids().contains(x) ==> old(self).ids().contains(x),
    {
        if active {
            self.activate_entity(entity);
        } else {
            self.deactivate_entity(entity);
        }
    }

    /// Makes a hidden entity visible, or a visible entity hidden. `requires` rules out the
    /// other cases.
    pub fn set_entity_visible(&mut self, entity: &Entity, visible: bool)
        requires
            old(self).wf(),
            old(self).ids().contains(entity.id),
            old(self).state_of(entity.id) == if visible { EntityState::Hidden } else { EntityState::Visible },
        ensures
            final(self).wf(),
            final(self).ids().len() == old(self).ids().len(),
            final(self).state_of(entity.id) == if visible { EntityState::Visible } else { EntityState::Hidden },
            ({
                let q = if visible { old(self).visible_count() as int } else { old(self).visible_count() - 1 };
                &&& final(self).ids() == swap_at(old(self).ids(), old(self).position(entity.id), q)
                &&& final(self).transforms() == swap_at(old(self).transforms(), old(self).position(entity.id), q)
                &&& final(self).sprites() == swap_at(old(self).sprites(), old(self).position(entity.id), q)
            }),
            final(self).ids().contains(entity.id),
            final(self).transform_of(entity.id) == old(self).transform_of(entity.id),
            final(self).sprite_of(entity.id) == old(self).sprite_of(entity.id),
            others_kept(*old(self), *final(self), entity.id),
            forall|x: Id| #[trigger] final(self).ids().contains(x) ==> old(self).ids().contains(x),
            final(self).active_count() == old(self).active_count(),
            final(self).visible_count() == if visible { old(self).visible_count() + 1int } else { old(self).visible_count() - 1int },
    {
        let ghost s0 = *self;
        let ghost e = entity.id;
        proof { s0.lemma_position(e); }
        let index = self.mapping[entity.id.index()];
        let visible_count = self.visible_count;
        if visible {
            self.swap_and_update(index, visible_count);
            self.visible_count = visible_count + 1;
            proof {
                Self::lemma_swap_states(s0, *self, e, index as int, visible_count as int);
            }
        } else {
            self.swap_and_update(index, visible_count - 1);
            self.visible_count = visible_count - 1;
            proof {
                Self::lemma_swap_states(s0, *self, e, index as int, visible_count - 1);
            }
        }
    }

    /// The state of an entity.
    pub fn get_entity_state_by_id(&self, entity: &Entity) -> (r: EntityState)
        requires
            self.wf(),
            self.ids().contains(entity.id),
        ensures
            r == self.state_of(entity.id),
    {
        proof { self.lemma_position(entity.id); }
        let index = self.mapping[entity.id.index()];
        self.get_entity_state_by_index(index)
    }

    /// The state of the entity at a position. `requires` keeps it before the end.
    pub fn get_entity_state_by_index(&self, index: usize) -> (r: EntityState)
        requires
            self.wf(),
            index < self.ids().len(),
        ensures
            r == state_at(self.visible_count(), self.active_count(), index as int),
    {
        if index < self.visible_count {
            return EntityState::Visible;
        }
        if index < self.active_count {
            return EntityState::Hidden;
        }
        EntityState::Inactive
    }

    /// All positions.
    pub fn all(&self) -> (r: EntityRange)
        requires
            self.wf(),
        ensures
            r.start == 0,
            r.end == self.ids().len(),
    {
        EntityRange { start: 0, end: self.transforms.len() }
    }

    /// The positions of the active entities, visible then hidden.
    pub fn active(&self) -> (r: EntityRange)
        requires
            self.wf(),
        ensures
            r.start == 0,
            r.end == self.active_count(),
    {
        EntityRange { start: 0, end: self.active_count }
    }

    /// The positions of the inactive entities.
    pub fn inactive(&self) -> (r: EntityRange)
        requires
            self.wf(),
        ensures
            r.start == self.active_count(),
            r.end == self.ids().len(),
    {
        EntityRange { start: self.active_count, end: self.transforms.len() }
    }

    /// The positions of the visible entities.
    pub fn visible(&self) -> (r: EntityRange)
        requires
            self.wf(),
        ensures
            r.start == 0,
            r.end == self.visible_count(),
    {
        EntityRange { start: 0, end: self.visible_count }
    }

    /// The positions of the hidden entities.
    pub fn hidden(&self) -> (r: EntityRange)
        requires
            self.wf(),
        ensures
            r.start == self.visible_count(),
            r.end == self.active_count(),
    {
        EntityRange { start: self.visible_count, end: self.active_count }
    }

    /// The transforms of a range of positions.
    pub fn transforms_in(&self, range: &EntityRange) -> (r: &[T])
        requires
            self.wf(),
            range.start <= range.end <= self.ids().len(),
        ensures
            r@ == self.transforms().subrange(range.start as int, range.end as int),
    {
        vstd::slice::slice_subrange(self.transforms.as_slice(), range.start, range.end)
    }

    /// The sprites of a range of positions.
    pub fn sprites_in(&self, range: &EntityRange) -> (r: &[S])
        requires
            self.wf(),
            range.start <= range.end <= self.ids().len(),
        ensures
            r@ == self.sprites().subrange(range.start as int, range.end as int),
    {
        vstd::slice::slice_subrange(self.sprites.as_slice(), range.start, range.end)
    }

    /// Replaces the transform at a position.
    pub fn set_transform(&mut self, position: usize, transform: T)
        requires
            old(self).wf(),
            position < old(self).ids().len(),
        ensures
            final(self).wf(),
            final(self).ids() == old(self).ids(),
            final(self).transforms() == old(self).transforms().update(position as int, transform),
            final(self).sprites() == old(self).sprites(),
            final(self).visible_count() == old(self).visible_count(),
            final(self).active_count() == old(self).active_count(),
            forall|x: Id| #[trigger] old(self).ids().contains(x) ==> final(self).position(x) == old(self).position(x),
    {
        self.transforms.set(position, transform);
    }

    /// Replaces the sprite at a position.
    pub fn set_sprite(&mut self, position: usize, sprite: S)
        requires
            old(self).wf(),
            position < old(self).ids().len(),
        ensures
            final(self).wf(),
            final(self).ids() == old(self).ids(),
            final(self).transforms() == old(self).transforms(),
            final(self).sprites() == old(self).sprites().update(position as int, sprite),
            final(self).visible_count() == old(self).visible_count(),
            final(self).active_count() == old(self).active_count(),
            forall|x: Id| #[trigger] old(self).ids().contains(x) ==> final(self).position(x) == old(self).position(x),
    {
        self.sprites.set(position, sprite);
    }

    /// Whether the id generator can issue another id (its next reused entry has not reached
    /// the last generation).
    pub open spec fn id_manager_can_issue(&self) -> bool {
        self.generator().free_list().len() > 0 ==> self.generator().entries()[self.generator().free_list().last() as int].1
            < u32::MAX
    }

    /// The container's id generator.
    pub closed spec fn generator(&self) -> IdGenerator {
        self.id_manager
    }

    /// Swaps the entities at two positions, with their transforms and sprites, and updates
    /// their positions.
    fn swap_and_update(&mut self, first: usize, second: usize)
        requires
            old(self).wf(),
            first < old(self).ids().len(),
            second < old(self).ids().len(),
        ensures
            final(self).wf(),
            final(self).ids() == swap_at(old(self).ids(), first as int, second as int),
            final(self).transforms() == swap_at(old(self).transforms(), first as int, second as int),
            final(self).sprites() == swap_at(old(self).sprites(), first as int, second as int),
            final(self).visible_count() == old(self).visible_count(),
            final(self).active_count() == old(self).active_count(),
            final(self).generator() == old(self).generator(),
            forall|x: Id| #[trigger] old(self).ids().contains(x) ==> {
                &&& final(self).ids().contains(x)
                &&& final(self).transform_of(x) == old(self).transform_of(x)
                &&& final(self).sprite_of(x) == old(self).sprite_of(x)
                &&& final(self).position(x) == if x == old(self).ids()[first as int] {
                    second as int
                } else if x == old(self).ids()[second as int] {
                    first as int
                } else {
                    old(self).position(x)
                }
            },
            forall|x: Id| #[trigger] final(self).ids().contains(x) ==> old(self).ids().contains(x),
    {
        let ghost old_self = *self;
        if first == second {
            proof {
                assert(swap_at(old_self.ids(), first as int, second as int) =~= old_self.ids());
                assert(swap_at(old_self.transforms(), first as int, second as int) =~= old_self.transforms());
                assert(swap_at(old_self.sprites(), first as int, second as int) =~= old_self.sprites());
            }
            return;
        }
        proof {
            old_self.lemma_distinct(first as int, second as int);
        }
        vec_swap(&mut self.entities, first, second);
        vec_swap(&mut self.transforms, first, second);
        vec_swap(&mut self.sprites, first, second);
        let id = self.entities[first];
        self.mapping.set(id.index(), first);
        let id2 = self.entities[second];
        self.mapping.set(id2.index(), second);
        proof {
            let a = old_self.entities@[first as int];
            let b = old_self.entities@[second as int];
            assert(a.slot() != b.slot()) by {
                assert(old_self.mapping@[a.slot() as int] == first);
                assert(old_self.mapping@[b.slot() as int] == second);
            }
            assert forall|p: int| 0 <= p < self.entities@.len() implies {
                let x = #[trigger] self.entities@[p];
                &&& self.id_manager.is_current(x)
                &&& self.id_manager.entries()[x.slot() as int].0
                &&& self.mapping@[x.slot() as int] == p
            } by {
                if p != first && p != second {
                    let x = old_self.entities@[p];
                    assert(self.entities@[p] == x);
                    old_self.lemma_distinct(p, first as int);
                    old_self.lemma_distinct(p, second as int);
                    assert(x.slot() != a.slot());
                    assert(x.slot() != b.slot());
                }
            }
            assert forall|x: Id| #[trigger] old_self.ids().contains(x) implies {
                &&& self.ids().contains(x)
                &&& self.transform_of(x) == old_self.transform_of(x)
                &&& self.sprite_of(x) == old_self.sprite_of(x)
                &&& self.position(x) == if x == a {
                    second as int
                } else if x == b {
                    first as int
                } else {
                    old_self.position(x)
                }
            } by {
                old_self.lemma_position(x);
                let p = old_self.position(x);
                if x != a && x != b {
                    assert(p != first && p != second);
                    assert(x.slot() != a.slot());
                    assert(x.slot() != b.slot());
                    assert(self.ids()[p] == x);
                } else if x == a {
                    assert(self.ids()[second as int] == x);
                } else {
                    assert(self.ids()[first as int] == x);
                }
            }
            assert forall|x: Id| #[trigger] self.ids().contains(x) implies old_self.ids().contains(x) by {
                let p = choose|p: int| 0 <= p < self.ids().len() && self.ids()[p] == x;
                if p == first {
                    assert(old_self.ids()[second as int] == x);
                } else if p == second {
                    assert(old_self.ids()[first as int] == x);
                } else {
                    assert(old_self.ids()[p] == x);
                }
            }
        }
    }
}


impl Entity {
    /// Removes the entity from its container.
    pub fn destroy<T, S>(&self, container: &mut EntityContainer<T, S>)
        requires
            old(container).wf(),
            old(container).ids().contains(self.id),
        ensures
            final(container).wf(),
            !final(container).ids().contains(self.id),
            final(container).ids().len() + 1 == old(container).ids().len(),
            final(container).ids() == destroy_order(
                old(container).ids(), old(container).position(self.id), old(container).visible_count() as int,
                old(container).active_count() as int),
            final(container).transforms() == destroy_order(
                old(container).transforms(), old(container).position(self.id), old(container).visible_count() as int,
                old(container).active_count() as int),
            final(container).sprites() == destroy_order(
                old(container).sprites(), old(container).position(self.id), old(container).visible_count() as int,
                old(container).active_count() as int),
            others_kept(*old(container), *final(container), self.id),
    {
        container.destroy_entity(self);
    }

    /// Whether the entity is active (visible or hidden).
    pub fn is_active<T, S>(&self, container: &EntityContainer<T, S>) -> (r: bool)
        requires
            container.wf(),
            container.ids().contains(self.id),
        ensures
            r == (container.state_of(self.id) != EntityState::Inactive),
    {
        match container.get_entity_state_by_id(self) {
            EntityState::Visible | EntityState::Hidden => true,
            _ => false,
        }
    }

    /// Activates an inactive entity or deactivates a hidden one.
    pub fn set_active<T, S>(&self, container: &mut EntityContainer<T, S>, active: bool)
        requires
            old(container).wf(),
            old(container).ids().contains(self.id),
            old(container).state_of(self.id) == if active { EntityState::Inactive } else { EntityState::Hidden },
        ensures
            final(container).wf(),
            final(container).state_of(self.id) == if active { EntityState::Hidden } else { EntityState::Inactive },
            ({
                let q = if active { old(container).active_count() as int } else { old(container).active_count() - 1 };
                &&& final(container).ids() == swap_at(old(container).ids(), old(container).position(self.id), q)
                &&& final(container).transforms() == swap_at(old(container).transforms(), old(container).position(self.id), q)
                &&& final(container).sprites() == swap_at(old(container).sprites(), old(container).position(self.id), q)
            }),
            final(container).ids().contains(self.id),
            others_kept(*old(container), *final(container), self.id),
    {
        container.set_entity_active(self, active);
    }

    /// Shows a hidden entity or hides a visible one.
    pub fn set_visible<T, S>(&self, container: &mut EntityContainer<T, S>, visible: bool)
        requires
            old(container).wf(),
            old(container).ids().contains(self.id),
            old(container).state_of(self.id) == if visible { EntityState::Hidden } else { EntityState::Visible },
        ensures
            final(container).wf(),
            final(container).state_of(self.id) == if visible { EntityState::Visible } else { EntityState::Hidden },
            ({
                let q = if visible { old(container).visible_count() as int } else { old(container).visible_count() - 1 };
                &&& final(container).ids() == swap_at(old(container).ids(), old(container).position(self.id), q)
                &&& final(container).transforms() == swap_at(old(container).transforms(), old(container).position(self.id), q)
                &&& final(container).sprites() == swap_at(old(container).sprites(), old(container).position(self.id), q)
            }),
            final(container).ids().contains(self.id),
            others_kept(*old(container), *final(container), self.id),
    {
        container.set_entity_visible(self, visible);
    }
}

} // verus!
