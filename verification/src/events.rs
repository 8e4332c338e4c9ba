//! The event registry of one context: the mapping from (node identity, event
//! name) to the handler action the owning view interprets.

use vstd::prelude::*;
use crate::node::string_eq;

verus! {

/// An event address: the identity of the element it was registered on and
/// the event name.
pub struct Event {
    pub node_id: u128,
    pub event: String,
}

impl Event {
    /// The mathematical value of the address.
    pub open spec fn key(&self) -> (u128, Seq<char>) {
        (self.node_id, self.event@)
    }
}

impl Clone for Event {
    fn clone(&self) -> (r: Self)
        ensures
            r.key() == self.key(),
    {
        Event { node_id: self.node_id, event: self.event.clone() }
    }
}

/// The view of the registry: keys with their actions, in registration order.
pub open spec fn spec_entries_view(s: Seq<(Event, u64)>) -> Seq<((u128, Seq<char>), u64)> {
    s.map_values(|p: (Event, u64)| (p.0.key(), p.1))
}

/// Replaces the action at the first occurrence of the key, or appends the
/// entry when the key is absent.
pub open spec fn spec_set_entry(
    s: Seq<((u128, Seq<char>), u64)>,
    k: (u128, Seq<char>),
    a: u64,
) -> Seq<((u128, Seq<char>), u64)>
    decreases s.len(),
{
    if s.len() == 0 {
        seq![(k, a)]
    } else if s.first().0 == k {
        seq![(k, a)] + s.drop_first()
    } else {
        seq![s.first()] + spec_set_entry(s.drop_first(), k, a)
    }
}

proof fn lemma_set_entry_found(
    s: Seq<((u128, Seq<char>), u64)>,
    k: (u128, Seq<char>),
    a: u64,
    i: int,
)
    requires
        0 <= i < s.len(),
        s[i].0 == k,
        forall|j: int| 0 <= j < i ==> s[j].0 != k,
    ensures
        spec_set_entry(s, k, a) =~= s.update(i, (k, a)),
    decreases i,
{
    if i > 0 {
        lemma_set_entry_found(s.drop_first(), k, a, i - 1);
    }
}

proof fn lemma_set_entry_missing(s: Seq<((u128, Seq<char>), u64)>, k: (u128, Seq<char>), a: u64)
    requires
        forall|j: int| 0 <= j < s.len() ==> s[j].0 != k,
    ensures
        spec_set_entry(s, k, a) =~= s.push((k, a)),
    decreases s.len(),
{
    if s.len() > 0 {
        lemma_set_entry_missing(s.drop_first(), k, a);
    }
}

/// The registry without the first occurrence of the key.
pub open spec fn spec_remove_entry(
    s: Seq<((u128, Seq<char>), u64)>,
    k: (u128, Seq<char>),
) -> Seq<((u128, Seq<char>), u64)>
    decreases s.len(),
{
    if s.len() == 0 {
        Seq::empty()
    } else if s.first().0 == k {
        s.drop_first()
    } else {
        seq![s.first()] + spec_remove_entry(s.drop_first(), k)
    }
}

proof fn lemma_remove_entry_found(s: Seq<((u128, Seq<char>), u64)>, k: (u128, Seq<char>), i: int)
    requires
        0 <= i < s.len(),
        s[i].0 == k,
        forall|j: int| 0 <= j < i ==> s[j].0 != k,
    ensures
        spec_remove_entry(s, k) =~= s.remove(i),
    decreases i,
{
    if i > 0 {
        lemma_remove_entry_found(s.drop_first(), k, i - 1);
    }
}

proof fn lemma_remove_entry_missing(s: Seq<((u128, Seq<char>), u64)>, k: (u128, Seq<char>))
    requires
        forall|j: int| 0 <= j < s.len() ==> s[j].0 != k,
    ensures
        spec_remove_entry(s, k) =~= s,
    decreases s.len(),
{
    if s.len() > 0 {
        lemma_remove_entry_missing(s.drop_first(), k);
    }
}

/// The registry without any entry of the given node identity.
pub open spec fn spec_purge_node(
    s: Seq<((u128, Seq<char>), u64)>,
    node_id: u128,
) -> Seq<((u128, Seq<char>), u64)>
    decreases s.len(),
{
    if s.len() == 0 {
        Seq::empty()
    } else {
        spec_purge_node(s.drop_last(), node_id) + (if s.last().0.0 == node_id {
            Seq::empty()
        } else {
            seq![s.last()]
        })
    }
}

/// The action at the first occurrence of the key, if any.
pub open spec fn spec_entry_lookup(s: Seq<((u128, Seq<char>), u64)>, k: (u128, Seq<char>)) -> Option<
    u64,
>
    decreases s.len(),
{
    if s.len() == 0 {
        None
    } else if s.first().0 == k {
        Some(s.first().1)
    } else {
        spec_entry_lookup(s.drop_first(), k)
    }
}

proof fn lemma_entry_lookup_found(s: Seq<((u128, Seq<char>), u64)>, k: (u128, Seq<char>), i: int)
    requires
        0 <= i < s.len(),
        s[i].0 == k,
        forall|j: int| 0 <= j < i ==> s[j].0 != k,
    ensures
        spec_entry_lookup(s, k) == Some(s[i].1),
    decreases i,
{
    if i > 0 {
        lemma_entry_lookup_found(s.drop_first(), k, i - 1);
    }
}

proof fn lemma_entry_lookup_missing(s: Seq<((u128, Seq<char>), u64)>, k: (u128, Seq<char>))
    requires
        forall|j: int| 0 <= j < s.len() ==> s[j].0 != k,
    ensures
        spec_entry_lookup(s, k) is None,
    decreases s.len(),
{
    if s.len() > 0 {
        lemma_entry_lookup_missing(s.drop_first(), k);
    }
}

/// The per-context mapping from (node identity, event name) to the handler
/// action; at most one action per address, the last registration winning.
pub struct EventRegistry {
    entries: Vec<(Event, u64)>,
}

impl EventRegistry {
    /// The registered entries.
    pub closed spec fn entries(&self) -> Seq<((u128, Seq<char>), u64)> {
        spec_entries_view(self.entries@)
    }

    /// An empty registry.
    pub fn new() -> (r: EventRegistry)
        ensures
            r.entries() =~= Seq::<((u128, Seq<char>), u64)>::empty(),
    {
        EventRegistry { entries: Vec::new() }
    }

    /// Registers the handler action for an event address; a second
    /// registration for the same address replaces the first.
    pub fn register(&mut self, event: Event, action: u64)
        ensures
            final(self).entries() == spec_set_entry(old(self).entries(), event.key(), action),
    {
        let ghost pre = self.entries();
        let ghost k = event.key();
        let mut i: usize = 0;
        while i < self.entries.len()
            invariant
                i <= self.entries@.len(),
                pre == self.entries(),
                pre == old(self).entries(),
                k == event.key(),
                forall|j: int| 0 <= j < i ==> self.entries()[j].0 != k,
            decreases self.entries@.len() - i,
        {
            if self.entries[i].0.node_id == event.node_id && string_eq(
                &self.entries[i].0.event,
                &event.event,
            ) {
                self.entries[i] = (event, action);
                proof {
                    lemma_set_entry_found(pre, k, action, i as int);
                    assert(self.entries() =~= spec_set_entry(pre, k, action));
                }
                return;
            }
            i = i + 1;
        }
        self.entries.push((event, action));
        proof {
            lemma_set_entry_missing(pre, k, action);
            assert(self.entries() =~= spec_set_entry(pre, k, action));
        }
    }

    /// The handler action registered for an address, if any.
    pub fn get(&self, event: &Event) -> (r: Option<u64>)
        ensures
            r == spec_entry_lookup(self.entries(), event.key()),
    {
        let mut i: usize = 0;
        while i < self.entries.len()
            invariant
                i <= self.entries@.len(),
                forall|j: int| 0 <= j < i ==> self.entries()[j].0 != event.key(),
            decreases self.entries@.len() - i,
        {
            if self.entries[i].0.node_id == event.node_id && string_eq(
                &self.entries[i].0.event,
                &event.event,
            ) {
                proof {
                    lemma_entry_lookup_found(self.entries(), event.key(), i as int);
                }
                return Some(self.entries[i].1);
            }
            i = i + 1;
        }
        proof {
            lemma_entry_lookup_missing(self.entries(), event.key());
        }
        None
    }

    /// Forgets the registration at an address, if one exists.
    pub fn unregister(&mut self, event: &Event)
        ensures
            final(self).entries() == spec_remove_entry(old(self).entries(), event.key()),
    {
        let ghost pre = self.entries();
        let ghost k = event.key();
        let mut i: usize = 0;
        while i < self.entries.len()
            invariant
                i <= self.entries@.len(),
                pre == self.entries(),
                pre == old(self).entries(),
                k == event.key(),
                forall|j: int| 0 <= j < i ==> self.entries()[j].0 != k,
            decreases self.entries@.len() - i,
        {
            if self.entries[i].0.node_id == event.node_id && string_eq(
                &self.entries[i].0.event,
                &event.event,
            ) {
                let _ = self.entries.remove(i);
                proof {
                    lemma_remove_entry_found(pre, k, i as int);
                    assert(self.entries() =~= spec_remove_entry(pre, k));
                }
                return;
            }
            i = i + 1;
        }
        proof {
            lemma_remove_entry_missing(pre, k);
            assert(self.entries() =~= spec_remove_entry(pre, k));
        }
    }

    /// Forgets every registration made for one node's identity.
    pub fn unregister_for_node(&mut self, node_id: u128)
        ensures
            final(self).entries() == spec_purge_node(old(self).entries(), node_id),
    {
        let ghost pre = self.entries();
        let mut kept: Vec<(Event, u64)> = Vec::new();
        let mut i: usize = 0;
        while i < self.entries.len()
            invariant
                i <= self.entries@.len(),
                pre == self.entries(),
                pre == old(self).entries(),
                spec_entries_view(kept@) == spec_purge_node(pre.take(i as int), node_id),
            decreases self.entries@.len() - i,
        {
            proof {
                assert(pre.take(i + 1).drop_last() =~= pre.take(i as int));
                assert(pre.take(i + 1).last() == pre[i as int]);
            }
            if self.entries[i].0.node_id != node_id {
                kept.push((self.entries[i].0.clone(), self.entries[i].1));
            }
            proof {
                assert(spec_entries_view(kept@) =~= spec_purge_node(pre.take(i + 1), node_id));
            }
            i = i + 1;
        }
        proof {
            assert(pre.take(pre.len() as int) =~= pre);
        }
        self.entries = kept;
    }

    /// Forgets every registration, as each render pass and teardown do.
    pub fn clear(&mut self)
        ensures
            final(self).entries() =~= Seq::<((u128, Seq<char>), u64)>::empty(),
    {
        self.entries.clear();
    }
}

} // verus!
