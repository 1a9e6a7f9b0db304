//! Storage of one kind of component: at most one value for each entity.
use vstd::prelude::*;

verus! {

/// An opaque identifier that groups zero or more components. It carries no
/// data of its own.
#[derive(Clone, Copy, Debug, PartialEq, Eq, Structural, Hash)]
pub struct Entity {
    pub id: u32,
}

/// The values of one component kind, keyed by entity. The storage is dense:
/// it keeps a slot for every entity number up to the largest it has held.
pub struct Storage<T> {
    slots: Vec<Option<T>>,
}

impl<T> View for Storage<T> {
    type V = Map<Entity, T>;

    closed spec fn view(&self) -> Map<Entity, T> {
        Map::new(
            |e: Entity| e.id < self.slots@.len() && self.slots@[e.id as int].is_some(),
            |e: Entity| self.slots@[e.id as int].unwrap(),
        )
    }
}

impl<T> Storage<T> {
    /// A storage that holds nothing.
    pub fn new() -> (s: Storage<T>)
        ensures
            s@ == Map::<Entity, T>::empty(),
    {
        let s = Storage { slots: Vec::new() };
        assert(s@ =~= Map::<Entity, T>::empty());
        s
    }

    /// Whether an entity holds a value here.
    pub fn contains(&self, e: Entity) -> (b: bool)
        ensures
            b == self@.dom().contains(e),
    {
        let i = e.id as usize;
        i < self.slots.len() && self.slots[i].is_some()
    }

    /// The value that an entity holds here, if any.
    pub fn get(&self, e: Entity) -> (r: Option<&T>)
        ensures
            r.is_some() == self@.dom().contains(e),
            r.is_some() ==> *r.unwrap() == self@[e],
    {
        let i = e.id as usize;
        if i < self.slots.len() {
            self.slots[i].as_ref()
        } else {
            None
        }
    }

    /// A handle to change the value that an entity holds here, if any.
    pub fn get_mut(&mut self, e: Entity) -> (r: Option<&mut T>)
        ensures
            r.is_some() == old(self)@.dom().contains(e),
            r.is_some() ==> *r.unwrap() == old(self)@[e] && final(self)@ == old(self)@.insert(
                e,
                *final(r.unwrap()),
            ),
            r.is_none() ==> final(self)@ == old(self)@,
            final(self)@.dom() == old(self)@.dom(),
    {
        let i = e.id as usize;
        if i < self.slots.len() {
            match &mut self.slots[i] {
                Some(value) => Some(value),
                None => None,
            }
        } else {
            None
        }
    }

    /// Gives an entity a value, in place of the one it held. Returns the
    /// value it held. No other entity's value changes.
    pub fn insert(&mut self, e: Entity, value: T) -> (held: Option<T>)
        ensures
            final(self)@ == old(self)@.insert(e, value),
            held.is_some() == old(self)@.dom().contains(e),
            held.is_some() ==> held.unwrap() == old(self)@[e],
    {
        let i = e.id as usize;
        while self.slots.len() <= i
            invariant
                self@ == old(self)@,
                i == e.id,
            decreases i + 1 - self.slots.len(),
        {
            let ghost before = self@;
            self.slots.push(None);
            assert(self@ =~= before);
        }
        let ghost before = self@;
        let mut slot = Some(value);
        let place = &mut self.slots[i];
        core::mem::swap(place, &mut slot);
        assert(self@ =~= before.insert(e, value));
        slot
    }

    /// Takes an entity's value away and returns it. No other entity's value
    /// changes.
    pub fn remove(&mut self, e: Entity) -> (held: Option<T>)
        ensures
            final(self)@ == old(self)@.remove(e),
            held.is_some() == old(self)@.dom().contains(e),
            held.is_some() ==> held.unwrap() == old(self)@[e],
    {
        let i = e.id as usize;
        if i < self.slots.len() {
            let ghost before = self@;
            let mut slot = None;
            let place = &mut self.slots[i];
            core::mem::swap(place, &mut slot);
            assert(self@ =~= before.remove(e));
            slot
        } else {
            assert(self@ =~= self@.remove(e));
            None
        }
    }
}

} // verus!
