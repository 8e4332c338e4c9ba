//! The execution context: one per live view instance. It owns the instance's
//! hook state, effect cells, event registry, child contexts and last rendered
//! tree, and orchestrates render, diff and event re-registration.

use vstd::prelude::*;
use crate::diff::{NodePatch, NodePatchV, diff, spec_diff, spec_patches_view};
use crate::effects::{Effect, EffectCmd, EffectRegistry, spec_effect_step, spec_fingerprint};
use crate::events::{Event, EventRegistry, spec_entry_lookup, spec_set_entry};
use crate::ident::fresh_id;
use crate::node::{
    Node, NodeV, ViewRef, clone_node, lemma_child_height_le, lemma_children_view_index,
    lemma_children_view_len, spec_children_view, spec_element_height, spec_node_height,
};
use crate::queue::RenderingQueue;
use crate::state::StateRegistry;
use crate::value::{StateValue, StateValueV};

verus! {

/// How deep a render pass will follow child view creation before it stops
/// creating or re-rendering children; a liveness bound, far above any
/// reasonable view nesting.
pub const MAX_RENDER_DEPTH: u64 = 64;

/// The hook surface a view renders against: its state slots, effect cells
/// and child ordinal, addressed strictly by call order.
pub struct ViewContext {
    id: u128,
    state: StateRegistry,
    effects: EffectRegistry,
    child_order: usize,
    pending: bool,
}

/// What one `use_state` call does: a fresh ordinal allocates a slot holding
/// the initial value; a known ordinal returns the stored value untouched.
pub open spec fn spec_use_state(slots: Seq<StateValueV>, cursor: int, init: StateValueV) -> (
    Seq<StateValueV>,
    StateValueV,
) {
    if 0 <= cursor < slots.len() {
        (slots, slots[cursor])
    } else {
        (slots.push(init), init)
    }
}

/// What one setter call does: a value equal to the stored one changes
/// nothing, not even the pending mark; a differing value replaces the slot
/// and raises the mark. An ordinal beyond the slots changes nothing.
pub open spec fn spec_set_state(
    slots: Seq<StateValueV>,
    order: int,
    v: StateValueV,
    pending: bool,
) -> (Seq<StateValueV>, bool) {
    if 0 <= order < slots.len() {
        if slots[order] == v {
            (slots, pending)
        } else {
            (slots.update(order, v), true)
        }
    } else {
        (slots, pending)
    }
}

/// A setter returned by `use_state`: a token for the slot it writes.
#[derive(Clone, Copy)]
pub struct Setter {
    order: usize,
}

impl Setter {
    /// The slot ordinal this setter writes.
    pub closed spec fn ordinal(&self) -> int {
        self.order as int
    }

    /// The setter for a given slot ordinal, as a handler that knows its
    /// slots recreates it.
    pub fn for_ordinal(order: usize) -> (r: Setter)
        ensures
            r.ordinal() == order,
    {
        Setter { order }
    }

    /// Writes the slot, equality-gated: an equal value is a no-op and queues
    /// nothing; a differing value replaces the slot and marks the context
    /// dirty. Returns whether the value differed. An ordinal beyond the
    /// allocated slots is a hook-order programming error; the write stays
    /// total and changes nothing, returning false.
    pub fn set(&self, cx: &mut ViewContext, value: StateValue) -> (r: bool)
        ensures
            (final(cx).slots(), final(cx).pending()) == spec_set_state(
                old(cx).slots(),
                self.ordinal(),
                value@,
                old(cx).pending(),
            ),
            r == (0 <= self.ordinal() < old(cx).slots().len() && old(cx).slots()[self.ordinal()]
                != value@),
            final(cx).id() == old(cx).id(),
            final(cx).hashes() == old(cx).hashes(),
            final(cx).child_order() == old(cx).child_order(),
            final(cx).state_order() == old(cx).state_order(),
            final(cx).effect_order() == old(cx).effect_order(),
    {
        if self.order < cx.state.len() {
            let changed = cx.state.update(self.order, value);
            if changed {
                cx.pending = true;
            }
            changed
        } else {
            false
        }
    }
}

impl ViewContext {
    /// The identity of the owning context.
    pub closed spec fn id(&self) -> u128 {
        self.id
    }

    /// The state slot values.
    pub closed spec fn slots(&self) -> Seq<StateValueV> {
        self.state.slots()
    }

    /// The effect fingerprints.
    pub closed spec fn hashes(&self) -> Seq<u64> {
        self.effects.hashes()
    }

    /// The next child ordinal.
    pub closed spec fn child_order(&self) -> int {
        self.child_order as int
    }

    /// The next state ordinal.
    pub closed spec fn state_order(&self) -> int {
        self.state.order()
    }

    /// The next effect ordinal.
    pub closed spec fn effect_order(&self) -> int {
        self.effects.order()
    }

    /// Whether a changing write is waiting to be turned into a queue mark.
    pub closed spec fn pending(&self) -> bool {
        self.pending
    }

    fn new(id: u128) -> (r: ViewContext)
        ensures
            r.id() == id,
            r.slots() =~= Seq::<StateValueV>::empty(),
            r.hashes() =~= Seq::<u64>::empty(),
            r.child_order() == 0,
            r.state_order() == 0,
            r.effect_order() == 0,
            !r.pending(),
    {
        ViewContext {
            id,
            state: StateRegistry::new(),
            effects: EffectRegistry::new(),
            child_order: 0,
            pending: false,
        }
    }

    /// The value stored at a state slot, as an event handler reads it before
    /// writing; `None` beyond the allocated slots.
    pub fn state_value(&self, order: usize) -> (r: Option<StateValue>)
        ensures
            order < self.slots().len() ==> (r matches Some(v) && v@ == self.slots()[
                order as int
            ]),
            order >= self.slots().len() ==> r is None,
    {
        self.state.get(order)
    }

    /// The identity of the owning context, as views read it.
    pub fn context_id(&self) -> (r: u128)
        ensures
            r == self.id(),
    {
        self.id
    }

    /// Resets every per-render call ordinal, as `forceRender` begins.
    fn prepare_render(&mut self)
        ensures
            final(self).id() == old(self).id(),
            final(self).slots() == old(self).slots(),
            final(self).hashes() == old(self).hashes(),
            final(self).child_order() == 0,
            final(self).state_order() == 0,
            final(self).effect_order() == 0,
            final(self).pending() == old(self).pending(),
    {
        self.child_order = 0;
        self.state.reset_order();
        self.effects.reset_order();
        self.state.mark_clean();
    }

    /// Takes the pending dirty mark, lowering it.
    fn take_pending(&mut self) -> (r: bool)
        ensures
            r == old(self).pending(),
            !final(self).pending(),
            final(self).id() == old(self).id(),
            final(self).slots() == old(self).slots(),
            final(self).hashes() == old(self).hashes(),
            final(self).child_order() == old(self).child_order(),
    {
        let r = self.pending;
        self.pending = false;
        r
    }

    /// The state hook. The first call at a given ordinal allocates a slot
    /// holding `initial_value`; a later render's call at the same ordinal
    /// returns the stored value. Returns the current value and the setter
    /// for this slot.
    pub fn use_state(&mut self, initial_value: StateValue) -> (r: (StateValue, Setter))
        requires
            old(self).state_order() < usize::MAX,
        ensures
            (final(self).slots(), r.0@) == spec_use_state(
                old(self).slots(),
                old(self).state_order(),
                initial_value@,
            ),
            r.1.ordinal() == old(self).state_order(),
            final(self).state_order() == old(self).state_order() + 1,
            final(self).id() == old(self).id(),
            final(self).hashes() == old(self).hashes(),
            final(self).child_order() == old(self).child_order(),
            final(self).effect_order() == old(self).effect_order(),
            final(self).pending() == old(self).pending(),
    {
        let order = self.state.get_order();
        let setter = Setter { order };
        match self.state.get(order) {
            Some(v) => (v, setter),
            None => {
                let v = initial_value.clone();
                self.state.register(initial_value);
                proof {
                    assert(final(self).slots() =~= old(self).slots().push(v@));
                }
                (v, setter)
            },
        }
    }

    /// The state hook with a lazily produced initial value: the factory runs
    /// only when the call allocates a fresh slot, never on a re-render that
    /// finds the slot already stored.
    pub fn use_state_factory<F: FnOnce() -> StateValue>(&mut self, factory: F) -> (r: (
        StateValue,
        Setter,
    ))
        requires
            old(self).state_order() < usize::MAX,
            call_requires(factory, ()),
        ensures
            old(self).state_order() < old(self).slots().len() ==> (final(self).slots(), r.0@)
                == (old(self).slots(), old(self).slots()[old(self).state_order()]),
            old(self).state_order() >= old(self).slots().len() ==> exists|x: StateValue|
                #[trigger] call_ensures(factory, (), x) && final(self).slots() == old(
                    self,
                ).slots().push(x@) && r.0@ == x@,
            r.1.ordinal() == old(self).state_order(),
            final(self).state_order() == old(self).state_order() + 1,
            final(self).id() == old(self).id(),
            final(self).hashes() == old(self).hashes(),
            final(self).child_order() == old(self).child_order(),
            final(self).effect_order() == old(self).effect_order(),
            final(self).pending() == old(self).pending(),
    {
        let order = self.state.get_order();
        let setter = Setter { order };
        match self.state.get(order) {
            Some(v) => (v, setter),
            None => {
                let initial = factory();
                let v = initial.clone();
                self.state.register(initial);
                (v, setter)
            },
        }
    }

    /// The effect hook. The first call at a given ordinal records the
    /// dependency fingerprint and asks for the body to run; a later call
    /// reruns it, after the retained cleanup, exactly when the fingerprint
    /// changed. The caller acts on the returned command.
    pub fn use_effect(&mut self, deps: &Vec<u64>) -> (r: EffectCmd)
        requires
            old(self).effect_order() < usize::MAX,
        ensures
            (final(self).hashes(), r) == spec_effect_step(
                old(self).hashes(),
                old(self).effect_order(),
                spec_fingerprint(deps@),
            ),
            final(self).effect_order() == old(self).effect_order() + 1,
            final(self).id() == old(self).id(),
            final(self).slots() == old(self).slots(),
            final(self).child_order() == old(self).child_order(),
            final(self).state_order() == old(self).state_order(),
            final(self).pending() == old(self).pending(),
    {
        let order = self.effects.get_order();
        match self.effects.get(order) {
            Some(_) => {
                if self.effects.update_deps(order, deps) {
                    EffectCmd::CleanupAndRun
                } else {
                    EffectCmd::Skip
                }
            },
            None => {
                self.effects.register(Effect::new(deps));
                proof {
                    assert(final(self).hashes() =~= old(self).hashes().push(
                        spec_fingerprint(deps@),
                    ));
                }
                EffectCmd::Run
            },
        }
    }

    /// The child hook: hands out the next child ordinal. The child context
    /// at that ordinal is created, from the view's `child` method, or reused
    /// and re-rendered when the render pass completes. Returns the reference
    /// token that requests the child's output inside the markup tree.
    pub fn create_view(&mut self) -> (r: ViewRef)
        requires
            old(self).child_order() < usize::MAX,
        ensures
            r.order == old(self).child_order(),
            final(self).child_order() == old(self).child_order() + 1,
            final(self).id() == old(self).id(),
            final(self).slots() == old(self).slots(),
            final(self).hashes() == old(self).hashes(),
            final(self).state_order() == old(self).state_order(),
            final(self).effect_order() == old(self).effect_order(),
            final(self).pending() == old(self).pending(),
    {
        let order = self.child_order;
        self.child_order = self.child_order + 1;
        ViewRef { order }
    }
}

/// A view: user logic producing a markup tree from the current hook state.
/// One session runs one view type; heterogeneous views multiplex through an
/// enum implementing this trait.
pub trait RenderableView: Sized {
    /// Produces this instance's markup tree, calling the hooks in a stable
    /// order.
    fn render(&self, cx: &mut ViewContext) -> Node;

    /// Produces the child view first requested at `ordinal` during a render
    /// pass; called exactly once per child creation, never to replace an
    /// existing child.
    fn child(&self, ordinal: usize, cx: &ViewContext) -> Self;

    /// Handles a dispatched event action, typically writing state through
    /// the setters of `use_state`.
    fn on_event(&self, action: u64, cx: &mut ViewContext);
}

/// Registering one element's own events, in order.
pub open spec fn spec_reg_own(
    acc: Seq<((u128, Seq<char>), u64)>,
    id: u128,
    evs: Seq<(Seq<char>, u64)>,
) -> Seq<((u128, Seq<char>), u64)>
    decreases evs.len(),
{
    if evs.len() == 0 {
        acc
    } else {
        spec_set_entry(spec_reg_own(acc, id, evs.drop_last()), (id, evs.last().0), evs.last().1)
    }
}

/// The event registrations a tree adds to a registry: each element's own
/// (identity, event name) pairs, then its children's, in tree order; text
/// and child references add nothing, a referenced child registering into its
/// own context.
pub open spec fn spec_reg_node(acc: Seq<((u128, Seq<char>), u64)>, n: NodeV) -> Seq<
    ((u128, Seq<char>), u64),
>
    decreases n, 0int,
    via spec_reg_node_decreases
{
    match n {
        NodeV::Element(e) => spec_reg_children(
            spec_reg_own(acc, e.id, e.events),
            e.children,
            e.children.len() as int,
        ),
        _ => acc,
    }
}

#[via_fn]
proof fn spec_reg_node_decreases(acc: Seq<((u128, Seq<char>), u64)>, n: NodeV) {
    if n is Element {
        let fe = n->Element_0;
        assert(decreases_to!(n => fe));
        assert(decreases_to!(fe => fe.children));
    }
}

/// The registrations of the first `k` children.
pub open spec fn spec_reg_children(
    acc: Seq<((u128, Seq<char>), u64)>,
    s: Seq<NodeV>,
    k: int,
) -> Seq<((u128, Seq<char>), u64)>
    decreases s, k,
    via spec_reg_children_decreases
{
    if k <= 0 || k > s.len() {
        acc
    } else {
        spec_reg_node(spec_reg_children(acc, s, k - 1), s[k - 1])
    }
}

#[via_fn]
proof fn spec_reg_children_decreases(acc: Seq<((u128, Seq<char>), u64)>, s: Seq<NodeV>, k: int) {
    broadcast use vstd::seq::axiom_seq_index_decreases;

    if 0 < k <= s.len() {
        assert(decreases_to!(s => s[k - 1]));
    }
}

/// Walks a rendered tree and registers every (node identity, event name)
/// pair it holds.
#[verifier::loop_isolation(false)]
fn register_node_events(reg: &mut EventRegistry, node: &Node)
    ensures
        final(reg).entries() == spec_reg_node(old(reg).entries(), node@),
    decreases spec_node_height(*node),
{
    match node {
        Node::Element(e) => {
            proof {
                broadcast use {lemma_children_view_len, lemma_children_view_index};

                assert(node@ == NodeV::Element(crate::node::spec_element_view(**e)));
            }
            let ghost elv = node@->Element_0;
            proof {
                assert(elv.events == crate::node::spec_events_view(e.events@));
                assert(elv.children == spec_children_view(e.children@));
                assert(elv.children.len() == e.children@.len());
                assert(elv.id == e.id);
            }
            let ghost acc0 = reg.entries();
            let mut i: usize = 0;
            while i < e.events.len()
                invariant
                    i <= e.events@.len(),
                    elv == node@->Element_0,
                    elv.events == crate::node::spec_events_view(e.events@),
                    reg.entries() == spec_reg_own(acc0, e.id, elv.events.take(i as int)),
                decreases e.events@.len() - i,
            {
                proof {
                    assert(elv.events.take(i + 1).drop_last() =~= elv.events.take(i as int));
                    assert(elv.events.take(i + 1).last() == elv.events[i as int]);
                }
                reg.register(
                    Event { node_id: e.id, event: e.events[i].0.clone() },
                    e.events[i].1,
                );
                i = i + 1;
            }
            proof {
                assert(elv.events.take(elv.events.len() as int) =~= elv.events);
            }
            let ghost acc1 = reg.entries();
            let mut k: usize = 0;
            while k < e.children.len()
                invariant
                    k <= e.children@.len(),
                    elv == node@->Element_0,
                    elv.children == spec_children_view(e.children@),
                    elv.children.len() == e.children@.len(),
                    elv.id == e.id,
                    acc1 == spec_reg_own(acc0, e.id, elv.events),
                    reg.entries() == spec_reg_children(acc1, elv.children, k as int),
                decreases e.children@.len() - k,
            {
                proof {
                    broadcast use {lemma_children_view_len, lemma_children_view_index};

                    lemma_child_height_le(e.children@, k as int);
                    assert(spec_node_height(*node) == 1 + spec_element_height(**e));
                }
                register_node_events(reg, &e.children[k]);
                proof {
                    broadcast use {lemma_children_view_len, lemma_children_view_index};

                    assert(elv.children[k as int] == e.children@[k as int]@);
                }
                k = k + 1;
            }
            proof {
                assert(spec_reg_node(acc0, node@) == spec_reg_children(
                    acc1,
                    elv.children,
                    elv.children.len() as int,
                ));
            }
        },
        _ => {},
    }
}

/// One live view instance: its identity, its view value, its hook surface,
/// its owned child contexts, its event registry and its last rendered tree.
pub struct Context<V: RenderableView> {
    id: u128,
    view: V,
    hooks: ViewContext,
    children: Vec<Context<V>>,
    events: EventRegistry,
    last_render: Option<Node>,
    has_rendered: bool,
}

/// One completed re-render of a context: the identity is kept, the new tree
/// is stored, its (node, event) pairs are exactly the registry's contents,
/// and the patches are the positional diff against the previous tree — the
/// full-tree replacement where no previous tree exists. Children are never
/// removed: existing ordinals keep their context identities, and every child
/// appended during the pass has itself been rendered.
pub open spec fn spec_render_step<V: RenderableView>(
    pre: Context<V>,
    post: Context<V>,
    ps: Seq<NodePatchV>,
) -> bool {
    &&& post.spec_id() == pre.spec_id()
    &&& post.spec_has_rendered()
    &&& post.spec_last_render() is Some
    &&& ps == (if pre.spec_has_rendered() && pre.spec_last_render() is Some {
        spec_diff(pre.spec_last_render()->0@, post.spec_last_render()->0@, pre.spec_id(), 0)
    } else {
        seq![
            NodePatchV::ReplaceViewChildren {
                view_id: pre.spec_id(),
                children: seq![post.spec_last_render()->0@],
            },
        ]
    })
    &&& post.spec_events() == spec_reg_node(
        Seq::<((u128, Seq<char>), u64)>::empty(),
        post.spec_last_render()->0@,
    )
    &&& post.spec_child_count() >= pre.spec_child_count()
    &&& forall|j: int|
        0 <= j < pre.spec_child_count() ==> post.spec_children()[j].spec_id()
            == pre.spec_children()[j].spec_id()
    &&& forall|j: int|
        pre.spec_child_count() <= j < post.spec_child_count()
            ==> post.spec_children()[j].spec_has_rendered()
}

impl<V: RenderableView> Context<V> {
    /// The context's identity.
    pub closed spec fn spec_id(&self) -> u128 {
        self.id
    }

    /// The last fully rendered tree, if any render completed.
    pub closed spec fn spec_last_render(&self) -> Option<Node> {
        self.last_render
    }

    /// Whether any render has completed.
    pub closed spec fn spec_has_rendered(&self) -> bool {
        self.has_rendered
    }

    /// The registered event entries.
    pub closed spec fn spec_events(&self) -> Seq<((u128, Seq<char>), u64)> {
        self.events.entries()
    }

    /// The state slot values.
    pub closed spec fn spec_slots(&self) -> Seq<StateValueV> {
        self.hooks.slots()
    }

    /// How many child contexts exist.
    pub closed spec fn spec_child_count(&self) -> int {
        self.children@.len() as int
    }

    /// The owned child contexts, in creation order.
    pub closed spec fn spec_children(&self) -> Seq<Context<V>> {
        self.children@
    }

    /// The view value this context renders; set at creation, never replaced.
    pub closed spec fn spec_view(&self) -> V {
        self.view
    }

    /// A fresh context for a view instance, with a newly drawn identity; no
    /// render has happened yet.
    pub fn new(view: V) -> (r: Context<V>)
        ensures
            r.spec_view() == view,
            !r.spec_has_rendered(),
            r.spec_last_render() is None,
            r.spec_events() =~= Seq::<((u128, Seq<char>), u64)>::empty(),
            r.spec_slots() =~= Seq::<StateValueV>::empty(),
            r.spec_child_count() == 0,
    {
        let id = fresh_id();
        Context {
            id,
            view,
            hooks: ViewContext::new(id),
            children: Vec::new(),
            events: EventRegistry::new(),
            last_render: None,
            has_rendered: false,
        }
    }

    /// The context's identity.
    pub fn id(&self) -> (r: u128)
        ensures
            r == self.spec_id(),
    {
        self.id
    }

    /// The child context at an ordinal, if one was created there.
    pub fn get_child(&self, idx: usize) -> (r: Option<&Context<V>>)
        ensures
            idx < self.spec_child_count() <==> r is Some,
            r matches Some(c) ==> *c == self.spec_children()[idx as int],
    {
        if idx < self.children.len() {
            Some(&self.children[idx])
        } else {
            None
        }
    }

    /// A fresh wrapper element for this context, carrying its identity, as
    /// the transport embeds it.
    pub fn view_node(&self) -> (r: crate::node::ElementNode)
        ensures
            r@.tag == "bv-view"@,
            r@.attrs == seq![("data-view"@, crate::ident::spec_id_chars(self.spec_id()))],
            r@.events.len() == 0,
            r@.children.len() == 0,
    {
        let idc = crate::ident::id_chars(self.id);
        let ids = crate::text::chars_to_string(&idc);
        let r = Node::new("bv-view").attr("data-view", ids.as_str());
        proof {
            assert(r@.attrs =~= seq![("data-view"@, crate::ident::spec_id_chars(self.spec_id()))]);
        }
        r
    }

    /// Renders only when no tree exists yet: with a tree from a prior pass
    /// the patch list is empty, else this is a full `force_render`.
    pub fn render(&mut self, queue: &mut RenderingQueue) -> (r: Vec<NodePatch>)
        ensures
            final(self).spec_id() == old(self).spec_id(),
            final(self).spec_last_render() is Some,
            old(self).spec_last_render() is Some ==> r@ == Seq::<NodePatch>::empty()
                && *final(self) == *old(self),
            old(self).spec_last_render() is None ==> ({
                let t = final(self).spec_last_render()->0;
                &&& final(self).spec_has_rendered()
                &&& spec_patches_view(r@) == seq![
                    NodePatchV::ReplaceViewChildren {
                        view_id: old(self).spec_id(),
                        children: seq![t@],
                    },
                ]
            }),
            old(queue)@.wf() ==> final(queue)@.wf(),
            old(queue)@.draining ==> final(queue)@.draining && final(queue)@.render == old(
                queue,
            )@.render,
    {
        if self.last_render.is_some() {
            return Vec::new();
        }
        self.force_render(queue)
    }

    /// Unconditionally re-renders: resets the hook ordinals, clears the
    /// event registry, obtains a fresh tree from the view, creates or
    /// re-renders the children it requested, computes the patch list — the
    /// full tree on the first-ever render, the positional diff against the
    /// previous tree afterwards — re-registers the new tree's events, and
    /// stores the tree as the last render.
    pub fn force_render(&mut self, queue: &mut RenderingQueue) -> (r: Vec<NodePatch>)
        ensures
            spec_render_step(*old(self), *final(self), spec_patches_view(r@)),
            old(queue)@.wf() ==> final(queue)@.wf(),
            old(queue)@.draining ==> final(queue)@.draining && final(queue)@.render == old(
                queue,
            )@.render,
    {
        self.force_render_depth(queue, MAX_RENDER_DEPTH)
    }

    /// `force_render`, following child creation at most `depth` levels deep.
    #[verifier::loop_isolation(false)]
    fn force_render_depth(&mut self, queue: &mut RenderingQueue, depth: u64) -> (r: Vec<
        NodePatch,
    >)
        ensures
            spec_render_step(*old(self), *final(self), spec_patches_view(r@)),
            old(queue)@.wf() ==> final(queue)@.wf(),
            old(queue)@.draining ==> final(queue)@.draining && final(queue)@.render == old(
                queue,
            )@.render,
        decreases depth, 0int,
    {
        let saved_id = self.id;
        let prev = self.last_render.take();
        let had = self.has_rendered;
        self.hooks.prepare_render();
        self.events.clear();
        let tree = self.view.render(&mut self.hooks);
        if self.hooks.take_pending() {
            queue.enqueue(saved_id);
        }
        let wanted = self.hooks.child_order_value();
        let mut ordinal: usize = 0;
        while ordinal < wanted
            invariant
                self.id == saved_id,
                old(queue)@.wf() ==> queue@.wf(),
                old(queue)@.draining ==> queue@.draining && queue@.render == old(queue)@.render,
                self.children@.len() >= old(self).children@.len(),
                forall|j: int|
                    ordinal <= j < old(self).children@.len() ==> self.children@[j] == old(
                        self,
                    ).children@[j],
                forall|j: int|
                    0 <= j < old(self).children@.len() ==> self.children@[j].spec_id() == old(
                        self,
                    ).children@[j].spec_id(),
                forall|j: int|
                    old(self).children@.len() <= j < self.children@.len()
                        ==> self.children@[j].spec_has_rendered(),
            decreases wanted - ordinal, 0int,
        {
            if depth > 0 {
                if ordinal < self.children.len() {
                    let _ = self.children[ordinal].force_render_depth(
                        queue,
                        (depth - 1) as u64,
                    );
                } else if ordinal == self.children.len() {
                    let child_view = self.view.child(ordinal, &self.hooks);
                    let mut child = Context::new(child_view);
                    let _ = child.force_render_depth(queue, (depth - 1) as u64);
                    self.children.push(child);
                }
            }
            ordinal = ordinal + 1;
        }
        let ghost treev = tree@;
        let patches = if let (true, Some(p)) = (had, prev) {
            diff(&p, &tree, saved_id, 0)
        } else {
            let cl = clone_node(&tree);
            let mut ch: Vec<Node> = Vec::new();
            ch.push(cl);
            proof {
                broadcast use {lemma_children_view_len, lemma_children_view_index};

                assert(spec_children_view(ch@) =~= seq![treev]);
            }
            let one = vec![NodePatch::ReplaceViewChildren { view_id: saved_id, children: ch }];
            proof {
                assert(spec_patches_view(one@) =~= seq![
                    NodePatchV::ReplaceViewChildren { view_id: saved_id, children: seq![treev] },
                ]);
            }
            one
        };
        self.events.clear();
        register_node_events(&mut self.events, &tree);
        self.last_render = Some(tree);
        self.has_rendered = true;
        self.id = saved_id;
        patches
    }

    /// Whether this context or any context below it has an action registered
    /// for the event address.
    pub open spec fn spec_tree_handles(&self, key: (u128, Seq<char>)) -> bool {
        spec_tree_handles_at(*self, key)
    }

    /// Looks the event up in this context's own registry and, when an action
    /// is registered, lets the view handle it; then forwards the same event
    /// to every child context — a tree-wide broadcast, identities freshly
    /// minted per render making at most one context answer. The tree
    /// structure, the event registry and the last render are untouched; only
    /// hook state and the queue can change, through the handler's setters.
    #[verifier::loop_isolation(false)]
    pub fn dispatch_event(&mut self, event: &Event, queue: &mut RenderingQueue)
        ensures
            final(self).spec_id() == old(self).spec_id(),
            final(self).spec_events() == old(self).spec_events(),
            final(self).spec_last_render() == old(self).spec_last_render(),
            final(self).spec_has_rendered() == old(self).spec_has_rendered(),
            final(self).spec_child_count() == old(self).spec_child_count(),
            !old(self).spec_tree_handles(event.key()) ==> final(self).spec_slots() == old(
                self,
            ).spec_slots() && final(queue)@ == old(queue)@,
            forall|x: u128|
                #![trigger final(queue)@.render.contains(x)]
                #![trigger final(queue)@.deferred.contains(x)]
                ((final(queue)@.render.contains(x) && !old(queue)@.render.contains(x))
                    || (final(queue)@.deferred.contains(x)
                    && !old(queue)@.deferred.contains(x))) ==> spec_tree_has_id(*old(self), x),
            old(queue)@.wf() ==> final(queue)@.wf(),
            old(queue)@.draining ==> final(queue)@.draining && final(queue)@.render == old(
                queue,
            )@.render,
        decreases *self,
    {
        let ghost key = event.key();
        let act = self.events.get(event);
        if let Some(action) = act {
            self.view.on_event(action, &mut self.hooks);
            if self.hooks.take_pending() {
                queue.enqueue(self.id);
            }
        }
        let mut i: usize = 0;
        while i < self.children.len()
            invariant
                i <= self.children@.len(),
                self.id == old(self).id,
                self.children@.len() == old(self).children@.len(),
                self.events.entries() == old(self).events.entries(),
                self.last_render == old(self).last_render,
                self.has_rendered == old(self).has_rendered,
                key == event.key(),
                !old(self).spec_tree_handles(key) ==> self.hooks.slots() == old(
                    self,
                ).hooks.slots() && queue@ == old(queue)@,
                forall|x: u128|
                    #![trigger queue@.render.contains(x)]
                    #![trigger queue@.deferred.contains(x)]
                    ((queue@.render.contains(x) && !old(queue)@.render.contains(x)) || (
                    queue@.deferred.contains(x) && !old(queue)@.deferred.contains(x)))
                        ==> spec_tree_has_id(*old(self), x),
                old(queue)@.wf() ==> queue@.wf(),
                old(queue)@.draining ==> queue@.draining && queue@.render == old(queue)@.render,
                forall|j: int|
                    i <= j < self.children@.len() ==> self.children@[j] == old(
                        self,
                    ).children@[j],
            decreases self.children@.len() - i,
        {
            proof {
                assert(self.children@[i as int] == old(self).children@[i as int]);
                if !old(self).spec_tree_handles(key) && old(self).children@[
                    i as int
                ].spec_tree_handles(key) {
                    lemma_forest_handles_mono(
                        old(self).children@,
                        key,
                        i as int,
                        old(self).children@.len() as int,
                    );
                    assert(false);
                }
            }
            let ghost q0 = queue@;
            self.children[i].dispatch_event(event, queue);
            proof {
                assert forall|x: u128|
                    ((queue@.render.contains(x) && !old(queue)@.render.contains(x))
                        || (queue@.deferred.contains(x)
                        && !old(queue)@.deferred.contains(x))) implies spec_tree_has_id(
                    *old(self),
                    x,
                ) by {
                    if (queue@.render.contains(x) && !q0.render.contains(x)) || (
                    queue@.deferred.contains(x) && !q0.deferred.contains(x)) {
                        lemma_tree_has_id_child(*old(self), x, i as int);
                    }
                }
            }
            i = i + 1;
        }
    }

    /// Releases this context's hook state, effect cells and event registry,
    /// and tears down its children; the view owner releases any retained
    /// effect cleanups.
    #[verifier::loop_isolation(false)]
    pub fn teardown(&mut self)
        ensures
            final(self).spec_events() =~= Seq::<((u128, Seq<char>), u64)>::empty(),
            final(self).spec_slots() =~= Seq::<StateValueV>::empty(),
            final(self).spec_child_count() == 0,
        decreases *self,
    {
        self.hooks.state.clear();
        self.hooks.effects.clear();
        self.events.clear();
        let mut i: usize = 0;
        while i < self.children.len()
            invariant
                self.children@.len() == old(self).children@.len(),
                self.hooks.slots() =~= Seq::<StateValueV>::empty(),
                self.events.entries() =~= Seq::<((u128, Seq<char>), u64)>::empty(),
                forall|j: int|
                    i <= j < self.children@.len() ==> self.children@[j] == old(
                        self,
                    ).children@[j],
            decreases self.children@.len() - i,
        {
            proof {
                assert(self.children@[i as int] == old(self).children@[i as int]);
            }
            self.children[i].teardown();
            i = i + 1;
        }
        self.children = Vec::new();
    }
}

impl ViewContext {
    /// The child ordinal the current render pass has reached.
    fn child_order_value(&self) -> (r: usize)
        ensures
            r == self.child_order(),
    {
        self.child_order
    }
}

/// State idempotence: a setter call with a value equal to the stored one
/// leaves the slots and the pending mark exactly as they were, so nothing is
/// queued and the stored value is untouched.
pub proof fn lemma_setter_idempotence(
    slots: Seq<StateValueV>,
    order: int,
    v: StateValueV,
    pending: bool,
)
    requires
        0 <= order < slots.len(),
        slots[order] == v,
    ensures
        spec_set_state(slots, order, v, pending) == (slots, pending),
{
}

/// One render pass's worth of `use_state` calls, made in the same order
/// every render: call `i` runs at ordinal `i` with initial value `inits[i]`.
/// Returns the slots after the pass and the values the calls returned.
pub open spec fn spec_state_pass(slots: Seq<StateValueV>, inits: Seq<StateValueV>) -> (
    Seq<StateValueV>,
    Seq<StateValueV>,
)
    decreases inits.len(),
{
    if inits.len() == 0 {
        (slots, Seq::empty())
    } else {
        let (s1, vs) = spec_state_pass(slots, inits.drop_last());
        let (s2, v) = spec_use_state(s1, inits.len() - 1, inits.last());
        (s2, vs.push(v))
    }
}

/// After a pass, the slots are the old ones extended by the initial values
/// of the calls beyond them, and each call returned the slot it addressed.
pub proof fn lemma_state_pass_shape(slots: Seq<StateValueV>, inits: Seq<StateValueV>)
    ensures
        ({
            let (s1, vs) = spec_state_pass(slots, inits);
            &&& s1.len() == if inits.len() <= slots.len() {
                slots.len() as int
            } else {
                inits.len() as int
            }
            &&& vs.len() == inits.len()
            &&& forall|i: int| 0 <= i < slots.len() ==> s1[i] == slots[i]
            &&& forall|i: int| slots.len() <= i < inits.len() ==> s1[i] == inits[i]
            &&& forall|i: int| 0 <= i < inits.len() ==> vs[i] == s1[i]
        }),
    decreases inits.len(),
{
    if inits.len() > 0 {
        lemma_state_pass_shape(slots, inits.drop_last());
    }
}

/// Hook order stability: a second render pass making the same `use_state`
/// calls in the same order returns exactly the values stored by the first
/// pass and leaves every slot unchanged, whatever the initial values.
pub proof fn lemma_hook_order_stability(slots: Seq<StateValueV>, inits: Seq<StateValueV>)
    ensures
        ({
            let (s1, _) = spec_state_pass(slots, inits);
            let (s2, vs2) = spec_state_pass(s1, inits);
            &&& s2 == s1
            &&& vs2 =~= s1.take(inits.len() as int)
        }),
{
    lemma_state_pass_shape(slots, inits);
    let (s1, _) = spec_state_pass(slots, inits);
    lemma_state_pass_shape(s1, inits);
    let (s2, vs2) = spec_state_pass(s1, inits);
    assert(s2 =~= s1);
}

/// The slots after `n` render passes, each making the same `use_state`
/// calls in the same order.
pub open spec fn spec_state_pass_n(
    slots: Seq<StateValueV>,
    inits: Seq<StateValueV>,
    n: nat,
) -> Seq<StateValueV>
    decreases n,
{
    if n == 0 {
        slots
    } else {
        spec_state_pass(spec_state_pass_n(slots, inits, (n - 1) as nat), inits).0
    }
}

/// Hook order stability over any number of renders: after the first pass the
/// slots never move again, however many identical passes follow.
pub proof fn lemma_hook_order_stability_n(
    slots: Seq<StateValueV>,
    inits: Seq<StateValueV>,
    n: nat,
)
    requires
        n >= 1,
    ensures
        spec_state_pass_n(slots, inits, n) == spec_state_pass(slots, inits).0,
    decreases n,
{
    let s1 = spec_state_pass(slots, inits).0;
    if n > 1 {
        lemma_hook_order_stability_n(slots, inits, (n - 1) as nat);
        assert(spec_state_pass_n(slots, inits, n) == spec_state_pass(s1, inits).0);
        lemma_hook_order_stability(slots, inits);
        assert(spec_state_pass(s1, inits).0 == s1);
    } else {
        assert(spec_state_pass_n(slots, inits, 0) == slots);
    }
}

/// One render pass's worth of `use_effect` calls: call `i` runs at ordinal
/// `i` with dependency fingerprint `fps[i]`. Returns the recorded
/// fingerprints after the pass and the commands the calls returned.
pub open spec fn spec_effect_pass(hashes: Seq<u64>, fps: Seq<u64>) -> (Seq<u64>, Seq<EffectCmd>)
    decreases fps.len(),
{
    if fps.len() == 0 {
        (hashes, Seq::empty())
    } else {
        let (h1, cs) = spec_effect_pass(hashes, fps.drop_last());
        let (h2, c) = spec_effect_step(h1, fps.len() - 1, fps.last());
        (h2, cs.push(c))
    }
}

/// After a pass, every addressed cell records the pass's fingerprint.
pub proof fn lemma_effect_pass_shape(hashes: Seq<u64>, fps: Seq<u64>)
    ensures
        ({
            let (h1, cs) = spec_effect_pass(hashes, fps);
            &&& h1.len() == if fps.len() <= hashes.len() {
                hashes.len() as int
            } else {
                fps.len() as int
            }
            &&& cs.len() == fps.len()
            &&& forall|i: int| 0 <= i < fps.len() ==> h1[i] == fps[i]
            &&& forall|i: int| fps.len() <= i < hashes.len() ==> h1[i] == hashes[i]
        }),
    decreases fps.len(),
{
    if fps.len() > 0 {
        lemma_effect_pass_shape(hashes, fps.drop_last());
    }
}

/// Effect order stability: a second render pass making the same `use_effect`
/// calls with the same dependencies reruns nothing — every call is skipped —
/// and the recorded fingerprints stay as the first pass left them.
pub proof fn lemma_effect_order_stability(hashes: Seq<u64>, fps: Seq<u64>)
    ensures
        ({
            let (h1, _) = spec_effect_pass(hashes, fps);
            let (h2, cs2) = spec_effect_pass(h1, fps);
            &&& h2 == h1
            &&& forall|i: int| 0 <= i < fps.len() ==> cs2[i] == EffectCmd::Skip
        }),
{
    lemma_effect_pass_shape(hashes, fps);
    let (h1, _) = spec_effect_pass(hashes, fps);
    lemma_effect_pass_skips(h1, fps, fps.len() as int);
    assert(fps.take(fps.len() as int) =~= fps);
}

proof fn lemma_effect_pass_skips(h1: Seq<u64>, fps: Seq<u64>, k: int)
    requires
        0 <= k <= fps.len(),
        fps.len() <= h1.len(),
        forall|i: int| 0 <= i < fps.len() ==> h1[i] == fps[i],
    ensures
        ({
            let (h2, cs2) = spec_effect_pass(h1, fps.take(k));
            &&& h2 == h1
            &&& cs2.len() == k
            &&& forall|i: int| 0 <= i < k ==> cs2[i] == EffectCmd::Skip
        }),
    decreases k,
{
    if k > 0 {
        lemma_effect_pass_skips(h1, fps, k - 1);
        assert(fps.take(k).drop_last() =~= fps.take(k - 1));
        assert(fps.take(k).last() == fps[k - 1]);
        assert(fps.take(k).len() == k);
    }
}

/// Whether an attribute key names a handler (starts with `on`): such keys
/// are not written into markup.
pub open spec fn spec_attr_is_handler(k: Seq<char>) -> bool {
    k.len() >= 2 && k[0] == 'o' && k[1] == 'n'
}

/// One attribute as written into an element tag.
pub open spec fn spec_attr_markup_one(kv: (Seq<char>, Seq<char>)) -> Seq<char> {
    if spec_attr_is_handler(kv.0) {
        Seq::empty()
    } else {
        seq![' '] + kv.0 + "=\""@ + crate::text::spec_escape_attr(kv.1) + seq!['"']
    }
}

/// All attributes of an element, in order.
pub open spec fn spec_attrs_markup(attrs: Seq<(Seq<char>, Seq<char>)>) -> Seq<char>
    decreases attrs.len(),
{
    if attrs.len() == 0 {
        Seq::empty()
    } else {
        spec_attrs_markup(attrs.drop_last()) + spec_attr_markup_one(attrs.last())
    }
}

/// The element's event names, comma-joined.
pub open spec fn spec_event_names_joined(evs: Seq<(Seq<char>, u64)>) -> Seq<char>
    decreases evs.len(),
{
    if evs.len() == 0 {
        Seq::empty()
    } else if evs.len() == 1 {
        evs.first().0
    } else {
        spec_event_names_joined(evs.drop_last()) + seq![','] + evs.last().0
    }
}

/// The identity and event-name attributes an element with handlers carries.
pub open spec fn spec_events_markup(id: u128, evs: Seq<(Seq<char>, u64)>) -> Seq<char> {
    if evs.len() == 0 {
        Seq::empty()
    } else {
        " data-id=\""@ + crate::ident::spec_id_chars(id) + "\" data-events=\""@
            + spec_event_names_joined(evs) + seq!['"']
    }
}

/// The markup text of one context: its wrapper element carrying the context
/// identity, around the markup of its last rendered tree.
pub open spec fn spec_view_markup<V: RenderableView>(cx: Context<V>) -> Seq<char>
    decreases cx, 1int, NodeV::Text(Seq::<char>::empty()), 0int,
{
    "<bv-view data-view=\""@ + crate::ident::spec_id_chars(cx.spec_id()) + "\">"@ + (
    match cx.spec_last_render() {
        Some(t) => spec_markup_node(cx, t@),
        None => Seq::empty(),
    }) + "</bv-view>"@
}

/// The markup text of one node: escaped text, an element with its attributes
/// and children, or the wrapped markup of the referenced child context; a
/// reference beyond the children renders nothing.
pub open spec fn spec_markup_node<V: RenderableView>(cx: Context<V>, n: NodeV) -> Seq<char>
    decreases cx, 0int, n, 1int,
    via spec_markup_node_decreases::<V>
{
    match n {
        NodeV::Text(t) => crate::text::spec_escape_text(t),
        NodeV::Element(e) => seq!['<'] + e.tag + spec_attrs_markup(e.attrs) + spec_events_markup(
            e.id,
            e.events,
        ) + seq!['>'] + spec_markup_children(cx, e.children, e.children.len() as int) + "</"@
            + e.tag + seq!['>'],
        NodeV::ViewRef(o) => if 0 <= o < cx.spec_children().len() {
            spec_view_markup(cx.spec_children()[o])
        } else {
            Seq::empty()
        },
    }
}

#[via_fn]
proof fn spec_markup_node_decreases<V: RenderableView>(cx: Context<V>, n: NodeV) {
    broadcast use vstd::seq::axiom_seq_index_decreases;
    broadcast use vstd::std_specs::vec::axiom_vec_decreases_to_view;

    if n is Element {
        let e = n->Element_0;
        assert(decreases_to!(n => e));
        assert(decreases_to!(e => e.children));
    }
    if n is ViewRef {
        let o = n->ViewRef_0;
        if 0 <= o < cx.spec_children().len() {
            assert(decreases_to!(cx => cx.children));
            assert(decreases_to!(cx.children => cx.children@));
            assert(decreases_to!(cx.children@ => cx.children@[o]));
        }
    }
}

/// The concatenated markup of the first `k` children.
pub open spec fn spec_markup_children<V: RenderableView>(
    cx: Context<V>,
    s: Seq<NodeV>,
    k: int,
) -> Seq<char>
    decreases cx, 0int, s, k,
    via spec_markup_children_decreases::<V>
{
    if k <= 0 || k > s.len() {
        Seq::empty()
    } else {
        spec_markup_children(cx, s, k - 1) + spec_markup_node(cx, s[k - 1])
    }
}

#[via_fn]
proof fn spec_markup_children_decreases<V: RenderableView>(cx: Context<V>, s: Seq<NodeV>, k: int) {
    broadcast use vstd::seq::axiom_seq_index_decreases;

    if 0 < k <= s.len() {
        assert(decreases_to!(s => s[k - 1]));
    }
}

impl<V: RenderableView> Context<V> {
    /// Appends this context's wrapped markup.
    fn append_view_markup(&self, out: &mut Vec<char>)
        ensures
            final(out)@ == old(out)@ + spec_view_markup(*self),
        decreases *self, 1int, NodeV::Text(Seq::<char>::empty()), 0int,
    {
        crate::text::append_str(out, "<bv-view data-view=\"");
        let idc = crate::ident::id_chars(self.id);
        crate::text::append_chars(out, &idc);
        crate::text::append_str(out, "\">");
        match &self.last_render {
            Some(t) => {
                self.append_node_markup(t, out);
            },
            None => {},
        }
        crate::text::append_str(out, "</bv-view>");
        proof {
            assert(final(out)@ =~= old(out)@ + spec_view_markup(*self));
        }
    }

    /// Appends one node's markup, resolving child references through this
    /// context's children.
    #[verifier::loop_isolation(false)]
    #[verifier::rlimit(60)]
    fn append_node_markup(&self, node: &Node, out: &mut Vec<char>)
        ensures
            final(out)@ == old(out)@ + spec_markup_node(*self, node@),
        decreases *self, 0int, node@, 1int,
    {
        match node {
            Node::Text(t) => {
                let tc = crate::text::str_to_chars(t.0.as_str());
                crate::text::append_escaped_text(out, &tc);
            },
            Node::ViewRef(r) => {
                if r.order < self.children.len() {
                    self.children[r.order].append_view_markup(out);
                }
            },
            Node::Element(e) => {
                proof {
                    assert(node@ == NodeV::Element(crate::node::spec_element_view(**e)));
                }
                let ghost elv = node@->Element_0;
                proof {
                    assert(elv.attrs == crate::node::spec_attrs_view(e.attrs@));
                    assert(elv.events == crate::node::spec_events_view(e.events@));
                    assert(elv.children == spec_children_view(e.children@));
                    assert(elv.tag == e.tag@);
                    assert(elv.id == e.id);
                }
                let ghost base = out@;
                out.push('<');
                let tagc = crate::text::str_to_chars(e.tag.as_str());
                crate::text::append_chars(out, &tagc);
                let ghost b1 = out@;
                proof {
                    assert(b1 =~= base + seq!['<'] + elv.tag);
                }
                let mut i: usize = 0;
                while i < e.attrs.len()
                    invariant
                        i <= e.attrs@.len(),
                        out@ == b1 + spec_attrs_markup(elv.attrs.take(i as int)),
                    decreases e.attrs@.len() - i,
                {
                    proof {
                        assert(elv.attrs.take(i + 1).drop_last() =~= elv.attrs.take(i as int));
                        assert(elv.attrs.take(i + 1).last() == elv.attrs[i as int]);
                    }
                    let kc = crate::text::str_to_chars(e.attrs[i].0.as_str());
                    let skip = kc.len() >= 2 && kc[0] == 'o' && kc[1] == 'n';
                    if !skip {
                        out.push(' ');
                        crate::text::append_chars(out, &kc);
                        crate::text::append_str(out, "=\"");
                        let vc = crate::text::str_to_chars(e.attrs[i].1.as_str());
                        crate::text::append_escaped_attr(out, &vc);
                        out.push('"');
                    }
                    proof {
                        assert(out@ =~= b1 + spec_attrs_markup(elv.attrs.take(i + 1)));
                    }
                    i = i + 1;
                }
                proof {
                    assert(elv.attrs.take(elv.attrs.len() as int) =~= elv.attrs);
                }
                let ghost b2 = out@;
                if e.events.len() > 0 {
                    crate::text::append_str(out, " data-id=\"");
                    let idc = crate::ident::id_chars(e.id);
                    crate::text::append_chars(out, &idc);
                    crate::text::append_str(out, "\" data-events=\"");
                    let ghost b3 = out@;
                    let mut i: usize = 0;
                    while i < e.events.len()
                        invariant
                            i <= e.events@.len(),
                            e.events@.len() > 0,
                            out@ == b3 + spec_event_names_joined(elv.events.take(i as int)),
                        decreases e.events@.len() - i,
                    {
                        proof {
                            assert(elv.events.take(i + 1).drop_last() =~= elv.events.take(
                                i as int,
                            ));
                            assert(elv.events.take(i + 1).last() == elv.events[i as int]);
                        }
                        if i > 0 {
                            out.push(',');
                        }
                        let nc = crate::text::str_to_chars(e.events[i].0.as_str());
                        crate::text::append_chars(out, &nc);
                        proof {
                            if i == 0 {
                                assert(elv.events.take(1).len() == 1);
                                assert(out@ =~= b3 + spec_event_names_joined(elv.events.take(1)));
                            } else {
                                assert(out@ =~= b3 + spec_event_names_joined(
                                    elv.events.take(i + 1),
                                ));
                            }
                        }
                        i = i + 1;
                    }
                    out.push('"');
                    proof {
                        assert(elv.events.take(elv.events.len() as int) =~= elv.events);
                        assert(out@ =~= b2 + spec_events_markup(elv.id, elv.events));
                    }
                } else {
                    proof {
                        assert(out@ =~= b2 + spec_events_markup(elv.id, elv.events));
                    }
                }
                out.push('>');
                let ghost b4 = out@;
                let mut k: usize = 0;
                while k < e.children.len()
                    invariant
                        k <= e.children@.len(),
                        out@ == b4 + spec_markup_children(*self, elv.children, k as int),
                    decreases e.children@.len() - k,
                {
                    proof {
                        broadcast use {lemma_children_view_len, lemma_children_view_index};
                        broadcast use vstd::seq::axiom_seq_index_decreases;

                        assert(elv.children[k as int] == e.children@[k as int]@);
                        assert(decreases_to!(node@ => elv));
                        assert(decreases_to!(elv => elv.children));
                        assert(decreases_to!(elv.children => elv.children[k as int]));
                    }
                    self.append_node_markup(&e.children[k], out);
                    proof {
                        broadcast use {lemma_children_view_len, lemma_children_view_index};

                        assert(out@ =~= b4 + spec_markup_children(*self, elv.children, k + 1));
                    }
                    k = k + 1;
                }
                proof {
                    broadcast use {lemma_children_view_len, lemma_children_view_index};

                    assert(elv.children.len() == e.children@.len());
                }
                crate::text::append_str(out, "</");
                crate::text::append_chars(out, &tagc);
                out.push('>');
                proof {
                    assert(out@ =~= old(out)@ + spec_markup_node(*self, node@));
                }
            },
        }
    }

    /// The markup text of this context's last rendered tree, without the
    /// context wrapper; `None` before the first render.
    pub fn last_render_to_string(&self) -> (r: Option<String>)
        ensures
            r is Some <==> self.spec_last_render() is Some,
            r matches Some(s) ==> s@ == spec_markup_node(*self, self.spec_last_render()->0@),
    {
        match &self.last_render {
            Some(t) => Some(self.render_node_to_string(t)),
            None => None,
        }
    }

    /// The markup text of one node of this context's tree, child references
    /// resolved through this context's children. A reference beyond the
    /// children is a hook-order programming error; rendering stays total and
    /// emits nothing for it, exactly as the markup spec states.
    pub fn render_node_to_string(&self, node: &Node) -> (r: String)
        ensures
            r@ == spec_markup_node(*self, node@),
    {
        let mut out: Vec<char> = Vec::new();
        self.append_node_markup(node, &mut out);
        crate::text::chars_to_string(&out)
    }

    /// The full wrapped markup of this context, rendering first if no tree
    /// exists yet: the first response a new client sees.
    pub fn render_to_string(&mut self, queue: &mut RenderingQueue) -> (r: String)
        ensures
            r@ == spec_view_markup(*final(self)),
            final(self).spec_id() == old(self).spec_id(),
            final(self).spec_last_render() is Some,
            old(queue)@.wf() ==> final(queue)@.wf(),
            old(queue)@.draining ==> final(queue)@.draining && final(queue)@.render == old(
                queue,
            )@.render,
    {
        let _ = self.render(queue);
        let mut out: Vec<char> = Vec::new();
        self.append_view_markup(&mut out);
        crate::text::chars_to_string(&out)
    }
}

/// Whether some context of the tree has an action registered for the event
/// address.
pub open spec fn spec_tree_handles_at<V: RenderableView>(
    cx: Context<V>,
    key: (u128, Seq<char>),
) -> bool
    decreases cx, 0int,
    via spec_tree_handles_at_decreases::<V>
{
    spec_entry_lookup(cx.spec_events(), key) is Some || spec_forest_handles(
        cx.spec_children(),
        key,
        cx.spec_children().len() as int,
    )
}

#[via_fn]
proof fn spec_tree_handles_at_decreases<V: RenderableView>(cx: Context<V>, key: (u128, Seq<char>)) {
    broadcast use vstd::std_specs::vec::axiom_vec_decreases_to_view;

    assert(decreases_to!(cx => cx.children));
    assert(decreases_to!(cx.children => cx.children@));
}

/// Whether any of the first `k` subtrees handles the event address.
pub open spec fn spec_forest_handles<V: RenderableView>(
    s: Seq<Context<V>>,
    key: (u128, Seq<char>),
    k: int,
) -> bool
    decreases s, k,
    via spec_forest_handles_decreases::<V>
{
    if k <= 0 || k > s.len() {
        false
    } else {
        spec_forest_handles(s, key, k - 1) || spec_tree_handles_at(s[k - 1], key)
    }
}

#[via_fn]
proof fn spec_forest_handles_decreases<V: RenderableView>(
    s: Seq<Context<V>>,
    key: (u128, Seq<char>),
    k: int,
) {
    broadcast use vstd::seq::axiom_seq_index_decreases;

    if 0 < k <= s.len() {
        assert(decreases_to!(s => s[k - 1]));
    }
}

/// A handler found at position `j` is found among any `k > j`.
proof fn lemma_forest_handles_mono<V: RenderableView>(
    s: Seq<Context<V>>,
    key: (u128, Seq<char>),
    j: int,
    k: int,
)
    requires
        0 <= j < k <= s.len(),
        spec_tree_handles_at(s[j], key),
    ensures
        spec_forest_handles(s, key, k),
    decreases k,
{
    if j < k - 1 {
        lemma_forest_handles_mono(s, key, j, k - 1);
    }
}

/// An identity held by the subtree at position `j` is held by the parent.
proof fn lemma_tree_has_id_child<V: RenderableView>(cx: Context<V>, id: u128, j: int)
    requires
        0 <= j < cx.spec_children().len(),
        spec_tree_has_id(cx.spec_children()[j], id),
    ensures
        spec_tree_has_id(cx, id),
{
    lemma_forest_has_id_mono(cx.spec_children(), id, j, cx.spec_children().len() as int);
}

/// Whether this context or any context below it has the identity.
pub open spec fn spec_tree_has_id<V: RenderableView>(cx: Context<V>, id: u128) -> bool
    decreases cx, 0int,
    via spec_tree_has_id_decreases::<V>
{
    cx.spec_id() == id || spec_forest_has_id(
        cx.spec_children(),
        id,
        cx.spec_children().len() as int,
    )
}

#[via_fn]
proof fn spec_tree_has_id_decreases<V: RenderableView>(cx: Context<V>, id: u128) {
    broadcast use vstd::std_specs::vec::axiom_vec_decreases_to_view;

    assert(decreases_to!(cx => cx.children));
    assert(decreases_to!(cx.children => cx.children@));
}

/// Whether any of the first `k` contexts' trees has the identity.
pub open spec fn spec_forest_has_id<V: RenderableView>(
    s: Seq<Context<V>>,
    id: u128,
    k: int,
) -> bool
    decreases s, k,
    via spec_forest_has_id_decreases::<V>
{
    if k <= 0 || k > s.len() {
        false
    } else {
        spec_forest_has_id(s, id, k - 1) || spec_tree_has_id(s[k - 1], id)
    }
}

#[via_fn]
proof fn spec_forest_has_id_decreases<V: RenderableView>(s: Seq<Context<V>>, id: u128, k: int) {
    broadcast use vstd::seq::axiom_seq_index_decreases;

    if 0 < k <= s.len() {
        assert(decreases_to!(s => s[k - 1]));
    }
}

/// A tree found among the first `j + 1` contexts is found among any more.
proof fn lemma_forest_has_id_mono<V: RenderableView>(s: Seq<Context<V>>, id: u128, j: int, k: int)
    requires
        0 <= j < k <= s.len(),
        spec_tree_has_id(s[j], id),
    ensures
        spec_forest_has_id(s, id, k),
    decreases k,
{
    if j < k - 1 {
        lemma_forest_has_id_mono(s, id, j, k - 1);
    }
}

/// The observable state of a context is untouched: identity, event registry,
/// last rendered tree, render flag, state slots and child count all kept.
pub open spec fn spec_ctx_frame<V: RenderableView>(pre: Context<V>, post: Context<V>) -> bool {
    &&& post.spec_id() == pre.spec_id()
    &&& post.spec_events() == pre.spec_events()
    &&& post.spec_last_render() == pre.spec_last_render()
    &&& post.spec_has_rendered() == pre.spec_has_rendered()
    &&& post.spec_slots() == pre.spec_slots()
    &&& post.spec_child_count() == pre.spec_child_count()
}

/// A re-render reached the context with the given identity somewhere in the
/// tree: on the addressed context itself it is one completed render step with
/// exactly these patches; above it, the ancestor's own identity, registries,
/// tree and child count are untouched and exactly one child subtree carries
/// the step.
pub open spec fn spec_rendered_at<V: RenderableView>(
    pre: Context<V>,
    post: Context<V>,
    id: u128,
    ps: Seq<NodePatchV>,
) -> bool
    decreases pre, 0int,
    via spec_rendered_at_decreases::<V>
{
    if pre.spec_id() == id {
        spec_render_step(pre, post, ps)
    } else {
        &&& spec_ctx_frame(pre, post)
        &&& spec_rendered_in(
            pre.spec_children(),
            post.spec_children(),
            id,
            ps,
            pre.spec_children().len() as int,
        )
    }
}

#[via_fn]
proof fn spec_rendered_at_decreases<V: RenderableView>(
    pre: Context<V>,
    post: Context<V>,
    id: u128,
    ps: Seq<NodePatchV>,
) {
    broadcast use vstd::std_specs::vec::axiom_vec_decreases_to_view;

    assert(decreases_to!(pre => pre.children));
    assert(decreases_to!(pre.children => pre.children@));
}

/// Some context among the first `k` subtrees carries the render step.
pub open spec fn spec_rendered_in<V: RenderableView>(
    pres: Seq<Context<V>>,
    posts: Seq<Context<V>>,
    id: u128,
    ps: Seq<NodePatchV>,
    k: int,
) -> bool
    decreases pres, k,
    via spec_rendered_in_decreases::<V>
{
    if k <= 0 || k > pres.len() || posts.len() < pres.len() {
        false
    } else {
        spec_rendered_in(pres, posts, id, ps, k - 1) || spec_rendered_at(
            pres[k - 1],
            posts[k - 1],
            id,
            ps,
        )
    }
}

#[via_fn]
proof fn spec_rendered_in_decreases<V: RenderableView>(
    pres: Seq<Context<V>>,
    posts: Seq<Context<V>>,
    id: u128,
    ps: Seq<NodePatchV>,
    k: int,
) {
    broadcast use vstd::seq::axiom_seq_index_decreases;

    if 0 < k <= pres.len() {
        assert(decreases_to!(pres => pres[k - 1]));
    }
}

/// A step found at position `j` is found among any `k > j`.
proof fn lemma_rendered_in_mono<V: RenderableView>(
    pres: Seq<Context<V>>,
    posts: Seq<Context<V>>,
    id: u128,
    ps: Seq<NodePatchV>,
    j: int,
    k: int,
)
    requires
        0 <= j < k <= pres.len(),
        posts.len() >= pres.len(),
        spec_rendered_at(pres[j], posts[j], id, ps),
    ensures
        spec_rendered_in(pres, posts, id, ps, k),
    decreases k,
{
    if j < k - 1 {
        lemma_rendered_in_mono(pres, posts, id, ps, j, k - 1);
    }
}

impl<V: RenderableView> Context<V> {
    /// The context with the given identity in this tree, if any.
    pub fn find_by_id(&self, id: u128) -> (r: Option<&Context<V>>)
        ensures
            r is Some <==> spec_tree_has_id(*self, id),
            r matches Some(c) ==> c.spec_id() == id,
        decreases *self,
    {
        if self.id == id {
            return Some(self);
        }
        let mut i: usize = 0;
        while i < self.children.len()
            invariant
                i <= self.children@.len(),
                !spec_forest_has_id(self.children@, id, i as int),
            decreases self.children@.len() - i,
        {
            let c = self.children[i].find_by_id(id);
            if c.is_some() {
                proof {
                    lemma_forest_has_id_mono(
                        self.children@,
                        id,
                        i as int,
                        self.children@.len() as int,
                    );
                }
                return c;
            }
            i = i + 1;
        }
        None
    }

    /// Re-renders the context with the given identity, wherever it stands in
    /// this tree, and returns its patches: the re-render and its patch list
    /// are pinned by `spec_rendered_at`. `None`, and the tree's observable
    /// state untouched, when no context in the tree has that identity.
    #[verifier::loop_isolation(false)]
    pub fn force_render_by_id(&mut self, id: u128, queue: &mut RenderingQueue) -> (r: Option<
        Vec<NodePatch>,
    >)
        ensures
            r is Some <==> spec_tree_has_id(*old(self), id),
            r matches Some(ps) ==> spec_rendered_at(
                *old(self),
                *final(self),
                id,
                spec_patches_view(ps@),
            ),
            r is None ==> spec_ctx_frame(*old(self), *final(self)),
            final(self).spec_id() == old(self).spec_id(),
            old(queue)@.draining ==> final(queue)@.draining && final(queue)@.render == old(
                queue,
            )@.render,
        decreases *self,
    {
        if self.id == id {
            let ps = self.force_render(queue);
            return Some(ps);
        }
        let mut i: usize = 0;
        while i < self.children.len()
            invariant
                i <= self.children@.len(),
                self.id == old(self).id,
                self.children@.len() == old(self).children@.len(),
                self.events.entries() == old(self).events.entries(),
                self.last_render == old(self).last_render,
                self.has_rendered == old(self).has_rendered,
                self.hooks.slots() == old(self).hooks.slots(),
                old(self).spec_id() != id,
                !spec_forest_has_id(old(self).children@, id, i as int),
                old(queue)@.draining ==> queue@.draining && queue@.render == old(queue)@.render,
                forall|j: int|
                    i <= j < self.children@.len() ==> self.children@[j] == old(
                        self,
                    ).children@[j],
            decreases self.children@.len() - i,
        {
            proof {
                assert(self.children@[i as int] == old(self).children@[i as int]);
            }
            let sub = self.children[i].force_render_by_id(id, queue);
            if sub.is_some() {
                proof {
                    lemma_forest_has_id_mono(
                        old(self).children@,
                        id,
                        i as int,
                        old(self).children@.len() as int,
                    );
                    let psv = spec_patches_view(sub->0@);
                    assert(spec_rendered_at(
                        old(self).spec_children()[i as int],
                        self.spec_children()[i as int],
                        id,
                        psv,
                    ));
                    lemma_rendered_in_mono(
                        old(self).spec_children(),
                        self.spec_children(),
                        id,
                        psv,
                        i as int,
                        old(self).spec_children().len() as int,
                    );
                    assert(spec_rendered_at(*old(self), *self, id, psv));
                }
                return sub;
            }
            i = i + 1;
        }
        None
    }
}

} // verus!
