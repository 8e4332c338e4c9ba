//! Ordered, per-context storage for state cells, addressed by call order
//! within a render pass.

use vstd::prelude::*;
use crate::value::{StateValue, StateValueV};

verus! {

/// The view of a slot list: each stored value as its mathematical value.
pub open spec fn spec_slots_view(s: Seq<StateValue>) -> Seq<StateValueV> {
    s.map_values(|v: StateValue| v@)
}

/// The hook state store of one context: slots by call order, a cursor reset
/// at the start of each render, and a dirty flag raised by a changing write.
pub struct StateRegistry {
    slots: Vec<StateValue>,
    order: usize,
    dirty: bool,
}

impl StateRegistry {
    /// The slot values.
    pub closed spec fn slots(&self) -> Seq<StateValueV> {
        spec_slots_view(self.slots@)
    }

    /// The next call ordinal.
    pub closed spec fn order(&self) -> int {
        self.order as int
    }

    /// Whether a changing write happened since the last `mark_clean`.
    pub closed spec fn dirty(&self) -> bool {
        self.dirty
    }

    /// An empty store.
    pub fn new() -> (r: StateRegistry)
        ensures
            r.slots() =~= Seq::<StateValueV>::empty(),
            r.order() == 0,
            !r.dirty(),
    {
        StateRegistry { slots: Vec::new(), order: 0, dirty: false }
    }

    /// How many slots are allocated.
    pub fn len(&self) -> (r: usize)
        ensures
            r == self.slots().len(),
    {
        self.slots.len()
    }

    /// Restarts the per-render call ordinal at zero.
    pub fn reset_order(&mut self)
        ensures
            final(self).slots() == old(self).slots(),
            final(self).order() == 0,
            final(self).dirty() == old(self).dirty(),
    {
        self.order = 0;
    }

    /// Hands out the current call ordinal and advances it.
    pub fn get_order(&mut self) -> (r: usize)
        requires
            old(self).order() < usize::MAX,
        ensures
            r == old(self).order(),
            final(self).order() == old(self).order() + 1,
            final(self).slots() == old(self).slots(),
            final(self).dirty() == old(self).dirty(),
    {
        let r = self.order;
        self.order = self.order + 1;
        r
    }

    /// Allocates the next slot, holding `value`.
    pub fn register(&mut self, value: StateValue)
        ensures
            final(self).slots() =~= old(self).slots().push(value@),
            final(self).order() == old(self).order(),
            final(self).dirty() == old(self).dirty(),
    {
        self.slots.push(value);
    }

    /// The value stored at a slot, or `None` beyond the allocated slots.
    pub fn get(&self, idx: usize) -> (r: Option<StateValue>)
        ensures
            idx < self.slots().len() ==> (r matches Some(v) && v@ == self.slots()[idx as int]),
            idx >= self.slots().len() ==> r is None,
    {
        if idx < self.slots.len() {
            Some(self.slots[idx].clone())
        } else {
            None
        }
    }

    /// Replaces the slot only when the new value differs by value equality;
    /// an equal value changes nothing at all. Returns whether it differed.
    pub fn update(&mut self, idx: usize, value: StateValue) -> (r: bool)
        requires
            idx < old(self).slots().len(),
        ensures
            r == (old(self).slots()[idx as int] != value@),
            !r ==> final(self).slots() == old(self).slots() && final(self).dirty() == old(self).dirty(),
            r ==> final(self).slots() =~= old(self).slots().update(idx as int, value@),
            r ==> final(self).dirty(),
            final(self).order() == old(self).order(),
    {
        if self.slots[idx].value_eq(&value) {
            return false;
        }
        self.slots[idx] = value;
        self.dirty = true;
        true
    }

    /// Lowers the dirty flag at the start of a render pass.
    pub fn mark_clean(&mut self)
        ensures
            final(self).slots() == old(self).slots(),
            final(self).order() == old(self).order(),
            !final(self).dirty(),
    {
        self.dirty = false;
    }

    /// Whether a changing write happened since the last `mark_clean`.
    pub fn is_dirty(&self) -> (r: bool)
        ensures
            r == self.dirty(),
    {
        self.dirty
    }

    /// Drops all slots, as teardown does.
    pub fn clear(&mut self)
        ensures
            final(self).slots() =~= Seq::<StateValueV>::empty(),
            final(self).order() == old(self).order(),
            final(self).dirty() == old(self).dirty(),
    {
        self.slots.clear();
    }
}

} // verus!
