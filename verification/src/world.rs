//! The store of entities: a growing list of slots, each with what the
//! entity is, which entity it hangs under, and whether it still exists.
//!
//! An entity is named by the index of its slot, which never changes. An
//! entity is created under a parent that already exists, so a parent's
//! index is always below its children's. Taking an entity out of the world
//! takes out everything that hangs under it.

use vstd::prelude::*;
use crate::button::{Button, Node};
use crate::card::Card;
use crate::label::Label;
use crate::timer::TimerUnit;

verus! {

/// A camera.
#[derive(Clone, Copy, Debug, PartialEq, Eq, Structural)]
pub struct Camera {
    /// Whether the camera smooths edges by multisampling.
    pub antialiased: bool,
}

/// What an entity is.
#[derive(Clone, Copy, Debug, PartialEq, Eq, Structural)]
pub enum Body {
    Camera(Camera),
    /// The box that fills the screen and holds the menu.
    Menu(Node),
    Button(Button),
    Label(Label),
    Timer(TimerUnit),
    /// The entity under which the cards hang.
    Deck,
    Card(Card),
}

/// One entity of the world.
#[derive(Clone, Copy, Debug, PartialEq, Eq, Structural)]
pub struct Slot {
    /// Whether the entity still exists.
    pub alive: bool,
    /// The entity this one hangs under.
    pub parent: Option<usize>,
    /// Whether the entity is taken away when the menu is left.
    pub destruct_menu: bool,
    pub body: Body,
}

/// Whether the slots form a forest in which parents come before their
/// children and nothing that exists hangs under something that does not.
pub open spec fn well_formed(slots: Seq<Slot>) -> bool {
    forall|i: int|
        0 <= i < slots.len() ==> match (#[trigger] slots[i]).parent {
            Some(p) => p < i && (slots[i].alive ==> slots[p as int].alive),
            None => true,
        }
}

/// Whether the entity `i` is `root` or hangs, directly or through others,
/// under `root`.
pub open spec fn descends(slots: Seq<Slot>, i: int, root: int) -> bool
    decreases i,
{
    if i < 0 || i >= slots.len() {
        false
    } else if i == root {
        true
    } else {
        match slots[i].parent {
            Some(p) => p < i && descends(slots, p as int, root),
            None => false,
        }
    }
}

/// The slot with its entity taken out of the world.
pub open spec fn removed(slot: Slot) -> Slot {
    Slot { alive: false, ..slot }
}

/// The slots after `root` and all that hangs under it have been taken out.
pub open spec fn despawned(slots: Seq<Slot>, root: int) -> Seq<Slot> {
    Seq::new(
        slots.len(),
        |i: int|
            if descends(slots, i, root) {
                removed(slots[i])
            } else {
                slots[i]
            },
    )
}

/// Whether the entity `i` is tagged to leave with the menu or hangs,
/// directly or through others, under an entity that is.
pub open spec fn under_tagged(slots: Seq<Slot>, i: int) -> bool
    decreases i,
{
    if i < 0 || i >= slots.len() {
        false
    } else if slots[i].destruct_menu {
        true
    } else {
        match slots[i].parent {
            Some(p) => p < i && under_tagged(slots, p as int),
            None => false,
        }
    }
}

/// The slots after every tagged entity and all that hangs under one have
/// been taken out.
pub open spec fn without_tagged(slots: Seq<Slot>) -> Seq<Slot> {
    Seq::new(
        slots.len(),
        |i: int|
            if under_tagged(slots, i) {
                removed(slots[i])
            } else {
                slots[i]
            },
    )
}

/// The slot of an entity newly created under `parent`.
pub open spec fn fresh(parent: Option<usize>, body: Body, destruct_menu: bool) -> Slot {
    Slot { alive: true, parent, destruct_menu, body }
}

/// What hangs under what does not depend on what exists or on what the
/// entities are: two lists of slots with the same parents have the same
/// descendants.
pub proof fn lemma_descends_by_parents(a: Seq<Slot>, b: Seq<Slot>, i: int, root: int)
    requires
        a.len() == b.len(),
        forall|j: int| 0 <= j < a.len() ==> (#[trigger] a[j]).parent == b[j].parent,
    ensures
        descends(a, i, root) == descends(b, i, root),
    decreases i,
{
    if 0 <= i < a.len() && i != root {
        assert(a[i].parent == b[i].parent);
        match a[i].parent {
            Some(p) => {
                if p < i {
                    lemma_descends_by_parents(a, b, p as int, root);
                }
            },
            None => {},
        }
    }
}

/// What hangs under an entity hangs under everything that the entity
/// hangs under.
pub proof fn lemma_descends_is_transitive(slots: Seq<Slot>, i: int, middle: int, root: int)
    requires
        descends(slots, i, middle),
        descends(slots, middle, root),
    ensures
        descends(slots, i, root),
    decreases i,
{
    if i != middle && i != root {
        lemma_descends_is_transitive(slots, slots[i].parent->Some_0 as int, middle, root);
    }
}

/// In a well-formed world nothing exists under an entity that does not.
pub proof fn lemma_nothing_exists_under_the_gone(slots: Seq<Slot>, i: int, root: int)
    requires
        well_formed(slots),
        descends(slots, i, root),
        0 <= root < slots.len(),
        !slots[root].alive,
    ensures
        !slots[i].alive,
    decreases i,
{
    if i != root {
        let _ = slots[i];
        lemma_nothing_exists_under_the_gone(slots, slots[i].parent->Some_0 as int, root);
    }
}

/// Slots that keep their parents and whether they exist stay well formed,
/// whatever else changes in them.
pub proof fn lemma_same_shape_is_well_formed(before: Seq<Slot>, after: Seq<Slot>)
    requires
        well_formed(before),
        before.len() == after.len(),
        forall|j: int|
            0 <= j < before.len() ==> (#[trigger] after[j]).parent == before[j].parent
                && after[j].alive == before[j].alive,
    ensures
        well_formed(after),
{
    assert forall|i: int| 0 <= i < after.len() implies match (#[trigger] after[i]).parent {
        Some(p) => p < i && (after[i].alive ==> after[p as int].alive),
        None => true,
    } by {
        assert(after[i].parent == before[i].parent);
        let _ = before[i];
        match before[i].parent {
            Some(p) => {
                assert(after[p as int].alive == before[p as int].alive);
            },
            None => {},
        }
    }
}

/// An entity that is tagged or hangs under a tagged one has a tagged
/// entity that it descends from; the lemma names it.
pub proof fn lemma_tagged_ancestor(slots: Seq<Slot>, i: int) -> (root: int)
    requires
        under_tagged(slots, i),
    ensures
        0 <= root < slots.len(),
        slots[root].destruct_menu,
        descends(slots, i, root),
    decreases i,
{
    if slots[i].destruct_menu {
        i
    } else {
        lemma_tagged_ancestor(slots, slots[i].parent->Some_0 as int)
    }
}

/// Whatever descends from a tagged entity is tagged or hangs under a
/// tagged one.
pub proof fn lemma_below_tagged(slots: Seq<Slot>, i: int, root: int)
    requires
        0 <= root < slots.len(),
        slots[root].destruct_menu,
        descends(slots, i, root),
    ensures
        under_tagged(slots, i),
    decreases i,
{
    if i != root && !slots[i].destruct_menu {
        lemma_below_tagged(slots, slots[i].parent->Some_0 as int, root);
    }
}

/// Taking out the tagged entities takes out exactly what taking out each
/// tagged entity with all that hangs under it would: an entity goes if and
/// only if it descends from a tagged one.
pub proof fn lemma_tagged_go_with_descendants(slots: Seq<Slot>, i: int)
    ensures
        under_tagged(slots, i) <==> exists|root: int|
            0 <= root < slots.len() && slots[root].destruct_menu && #[trigger] descends(
                slots,
                i,
                root,
            ),
{
    if under_tagged(slots, i) {
        let root = lemma_tagged_ancestor(slots, i);
        assert(descends(slots, i, root));
    }
    if exists|root: int|
        0 <= root < slots.len() && slots[root].destruct_menu && #[trigger] descends(slots, i, root) {
        let root = choose|root: int|
            0 <= root < slots.len() && slots[root].destruct_menu && #[trigger] descends(
                slots,
                i,
                root,
            );
        lemma_below_tagged(slots, i, root);
    }
}

/// The world: all entities ever created, in the order of their creation.
pub struct World {
    slots: Vec<Slot>,
}

impl View for World {
    type V = Seq<Slot>;

    closed spec fn view(&self) -> Seq<Slot> {
        self.slots@
    }
}

impl World {
    /// The invariant of the world: its slots are well formed.
    pub open spec fn wf(&self) -> bool {
        well_formed(self@)
    }

    /// The world without entities.
    pub fn new() -> (world: World)
        ensures
            world@ == Seq::<Slot>::empty(),
            world.wf(),
    {
        World { slots: Vec::new() }
    }

    /// The number of entities ever created, which is the index that the
    /// next one will get.
    pub fn len(&self) -> (len: usize)
        ensures
            len == self@.len(),
    {
        self.slots.len()
    }

    /// Whether `entity` exists.
    pub fn contains(&self, entity: usize) -> (found: bool)
        ensures
            found == (entity < self@.len() && self@[entity as int].alive),
    {
        entity < self.slots.len() && self.slots[entity].alive
    }

    /// The slot of `entity`, if the entity exists.
    pub fn get(&self, entity: usize) -> (slot: Option<Slot>)
        ensures
            slot is Some == (entity < self@.len() && self@[entity as int].alive),
            slot is Some ==> slot->Some_0 == self@[entity as int],
    {
        if entity < self.slots.len() && self.slots[entity].alive {
            Some(self.slots[entity])
        } else {
            None
        }
    }

    /// The slot with index `index`, whether its entity still exists or not.
    pub fn slot(&self, index: usize) -> (slot: Slot)
        requires
            index < self@.len(),
        ensures
            slot == self@[index as int],
    {
        self.slots[index]
    }

    /// Creates an entity that hangs under nothing, and returns it.
    pub fn spawn(&mut self, body: Body, destruct_menu: bool) -> (entity: usize)
        requires
            old(self).wf(),
        ensures
            entity == old(self)@.len(),
            final(self)@ == old(self)@.push(fresh(None, body, destruct_menu)),
            final(self).wf(),
    {
        let entity = self.slots.len();
        self.slots.push(Slot { alive: true, parent: None, destruct_menu, body });
        entity
    }

    /// Creates an entity that hangs under `parent`, and returns it.
    pub fn spawn_child(&mut self, parent: usize, body: Body, destruct_menu: bool) -> (entity: usize)
        requires
            old(self).wf(),
            parent < old(self)@.len(),
            old(self)@[parent as int].alive,
        ensures
            entity == old(self)@.len(),
            final(self)@ == old(self)@.push(fresh(Some(parent), body, destruct_menu)),
            final(self).wf(),
    {
        let entity = self.slots.len();
        self.slots.push(Slot { alive: true, parent: Some(parent), destruct_menu, body });
        entity
    }

    /// Gives the entity `entity` a new body. Where it hangs, whether it
    /// exists and how it is tagged stay as they are.
    pub fn insert(&mut self, entity: usize, body: Body)
        requires
            old(self).wf(),
            entity < old(self)@.len(),
        ensures
            final(self)@ == old(self)@.update(
                entity as int,
                Slot { body, ..old(self)@[entity as int] },
            ),
            final(self).wf(),
    {
        let slot = self.slots[entity];
        self.slots[entity] = Slot { body, ..slot };
        proof {
            lemma_same_shape_is_well_formed(old(self)@, self@);
        }
    }

    /// Takes `entity` out of the world together with everything that hangs
    /// under it. Entities that are not below it stay as they are; one that
    /// was taken out before stays out.
    pub fn despawn_recursive(&mut self, entity: usize)
        requires
            old(self).wf(),
        ensures
            final(self)@ == despawned(old(self)@, entity as int),
            final(self).wf(),
    {
        let n = self.slots.len();
        let mut i: usize = 0;
        while i < n
            invariant
                n == self.slots@.len(),
                n == old(self)@.len(),
                i <= n,
                well_formed(old(self)@),
                forall|j: int| 0 <= j < i ==> #[trigger] self.slots@[j] == despawned(old(self)@, entity as int)[j],
                forall|j: int| i <= j < n ==> #[trigger] self.slots@[j] == old(self)@[j],
            decreases n - i,
        {
            let slot = self.slots[i];
            let ghost before = old(self)@;
            assert(slot == before[i as int]);
            let mut doomed = i == entity;
            if !doomed && slot.alive {
                match slot.parent {
                    Some(p) => {
                        assert(p < i && before[p as int].alive);
                        assert(self.slots@[p as int] == despawned(before, entity as int)[p as int]);
                        doomed = !self.slots[p].alive;
                    },
                    None => {},
                }
            }
            assert(slot.alive ==> doomed == descends(before, i as int, entity as int));
            if doomed {
                self.slots[i] = Slot { alive: false, ..slot };
            }
            assert(self.slots@[i as int] == despawned(before, entity as int)[i as int]);
            i += 1;
        }
        proof {
            let before = old(self)@;
            let after = despawned(before, entity as int);
            assert(self.slots@ =~= after);
            assert forall|k: int| 0 <= k < after.len() implies match (#[trigger] after[k]).parent {
                Some(p) => p < k && (after[k].alive ==> after[p as int].alive),
                None => true,
            } by {
                let _ = before[k];
            }
        }
    }
}

} // verus!
