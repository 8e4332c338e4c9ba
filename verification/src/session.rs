//! The live session: one per connected client. It couples the root context,
//! the render queue and the outbound patch channel, decodes inbound event
//! tokens, and reconciles dirty contexts into batched outbound patches.

use vstd::prelude::*;
use crate::context::{
    Context, RenderableView, spec_ctx_frame, spec_rendered_at, spec_tree_has_id,
};
use crate::diff::NodePatchV;
use crate::events::Event;
use crate::ident::{ID_WIDTH, parse_id, spec_parse_id};
use crate::queue::RenderingQueue;
use crate::text::{chars_to_string, str_to_chars};
use crate::wire::{Patch, translate_patches};

verus! {

#[verifier::external_type_specification]
#[verifier::external_body]
#[verifier::reject_recursive_types(T)]
pub struct ExSender<T>(flume::Sender<T>);

#[verifier::external_type_specification]
#[verifier::external_body]
#[verifier::reject_recursive_types(T)]
pub struct ExReceiver<T>(flume::Receiver<T>);

/// Relies on `flume::unbounded`: a fresh unbounded channel pair; a send on
/// the sender never blocks, and fails only once the receiver is dropped.
#[verifier::external_body]
fn new_patch_channel() -> (flume::Sender<Patch>, flume::Receiver<Patch>) {
    flume::unbounded()
}

/// Relies on `flume::Sender::send`: the message is queued for the receiver
/// and `Ok` returned, unless every receiver has been dropped, when the
/// message comes back as an error. Returns whether the send was accepted;
/// whether it was depends on the receiving side, so nothing more is promised.
#[verifier::external_body]
fn send_patch(tx: &flume::Sender<Patch>, p: Patch) -> bool {
    tx.send(p).is_ok()
}

/// Relies on `flume::Sender::is_disconnected`: whether every receiver for
/// the channel has been dropped; the answer depends on the receiving side,
/// so nothing more is promised.
#[verifier::external_body]
fn sender_disconnected(tx: &flume::Sender<Patch>) -> bool {
    tx.is_disconnected()
}

/// What an inbound event token decodes to: a fixed-width identity prefix
/// immediately followed by the event name; anything shorter, or a prefix
/// that is not exactly hexadecimal digits, is rejected.
pub open spec fn spec_decode_token(s: Seq<char>) -> Option<(u128, Seq<char>)> {
    if s.len() >= ID_WIDTH {
        match spec_parse_id(s.take(ID_WIDTH as int)) {
            Some(id) => Some((id, s.skip(ID_WIDTH as int))),
            None => None,
        }
    } else {
        None
    }
}

/// Decodes an inbound event token into its (node identity, event name)
/// address; a malformed token yields `None` and is dropped by the caller.
pub fn decode_event_token(token: &str) -> (r: Option<Event>)
    ensures
        r is Some <==> spec_decode_token(token@) is Some,
        r matches Some(ev) ==> spec_decode_token(token@) == Some((ev.node_id, ev.event@)),
{
    let chars = str_to_chars(token);
    if chars.len() < ID_WIDTH {
        return None;
    }
    let mut prefix: Vec<char> = Vec::new();
    let mut i: usize = 0;
    while i < ID_WIDTH
        invariant
            i <= ID_WIDTH,
            chars@.len() >= ID_WIDTH,
            chars@ == token@,
            prefix@ == chars@.take(ID_WIDTH as int).take(i as int),
        decreases ID_WIDTH - i,
    {
        proof {
            assert(chars@.take(ID_WIDTH as int).take(i + 1) =~= chars@.take(
                ID_WIDTH as int,
            ).take(i as int).push(chars@[i as int]));
        }
        prefix.push(chars[i]);
        i = i + 1;
    }
    proof {
        assert(chars@.take(ID_WIDTH as int).take(ID_WIDTH as int) =~= chars@.take(
            ID_WIDTH as int,
        ));
    }
    let id = match parse_id(&prefix) {
        Some(id) => id,
        None => {
            return None;
        },
    };
    let mut name: Vec<char> = Vec::new();
    let mut i: usize = ID_WIDTH;
    while i < chars.len()
        invariant
            ID_WIDTH <= i <= chars@.len(),
            chars@ == token@,
            name@ == chars@.skip(ID_WIDTH as int).take(i - ID_WIDTH),
        decreases chars@.len() - i,
    {
        proof {
            assert(chars@.skip(ID_WIDTH as int).take(i + 1 - ID_WIDTH) =~= chars@.skip(
                ID_WIDTH as int,
            ).take(i - ID_WIDTH).push(chars@[i as int]));
        }
        name.push(chars[i]);
        i = i + 1;
    }
    proof {
        assert(chars@.skip(ID_WIDTH as int).take(chars@.len() - ID_WIDTH) =~= chars@.skip(
            ID_WIDTH as int,
        ));
    }
    Some(Event { node_id: id, event: chars_to_string(&name) })
}

/// What processing one drained identity does to the root tree: a context
/// carrying that identity is re-rendered, its patch list pinned by
/// `spec_rendered_at`; an identity naming no context in the tree leaves the
/// tree's observable state untouched.
pub open spec fn spec_step_one<V: RenderableView>(
    pre: Context<V>,
    post: Context<V>,
    id: u128,
) -> bool {
    if spec_tree_has_id(pre, id) {
        exists|ps: Seq<NodePatchV>| #[trigger] spec_rendered_at(pre, post, id, ps)
    } else {
        spec_ctx_frame(pre, post)
    }
}

/// The identities of one reconciliation pass, processed in order, each
/// exactly once: the tree walks through one `spec_step_one` per identity.
pub open spec fn spec_pass_steps<V: RenderableView>(
    pre: Context<V>,
    post: Context<V>,
    ids: Seq<u128>,
) -> bool
    decreases ids.len(),
{
    if ids.len() == 0 {
        spec_ctx_frame(pre, post)
    } else {
        exists|mid: Context<V>|
            spec_pass_steps(pre, mid, ids.drop_last()) && #[trigger] spec_step_one(
                mid,
                post,
                ids.last(),
            )
    }
}

/// Taking one more step extends a pass.
proof fn lemma_pass_steps_snoc<V: RenderableView>(
    pre: Context<V>,
    mid: Context<V>,
    post: Context<V>,
    ids: Seq<u128>,
    x: u128,
)
    requires
        spec_pass_steps(pre, mid, ids),
        spec_step_one(mid, post, x),
    ensures
        spec_pass_steps(pre, post, ids.push(x)),
{
    assert(ids.push(x).drop_last() =~= ids);
    assert(ids.push(x).last() == x);
}

/// One client's runtime: the root context built from the session's view, the
/// dirty-set queue, and the sending half of the outbound patch channel.
pub struct LiveSession<V: RenderableView> {
    context: Context<V>,
    rendering_queue: RenderingQueue,
    patch_sender: flume::Sender<Patch>,
}

impl<V: RenderableView> LiveSession<V> {
    /// The root context.
    pub closed spec fn spec_root(&self) -> Context<V> {
        self.context
    }

    /// The render queue's value.
    pub closed spec fn spec_queue(&self) -> crate::queue::QueueV {
        self.rendering_queue@
    }

    /// A fresh session: a root context built from the factory's view, an
    /// empty queue, and a new outbound channel whose receiving half is
    /// handed back for the transport to drain.
    pub fn new<F: Fn() -> V>(factory: F) -> (r: (LiveSession<V>, flume::Receiver<Patch>))
        requires
            call_requires(factory, ()),
        ensures
            exists|v: V|
                #[trigger] call_ensures(factory, (), v) && r.0.spec_root().spec_view() == v,
            !r.0.spec_root().spec_has_rendered(),
            r.0.spec_root().spec_last_render() is None,
            r.0.spec_root().spec_child_count() == 0,
            r.0.spec_queue() =~= (crate::queue::QueueV {
                render: Seq::empty(),
                deferred: Seq::empty(),
                draining: false,
            }),
    {
        let view = factory();
        let (tx, rx) = new_patch_channel();
        (
            LiveSession {
                context: Context::new(view),
                rendering_queue: RenderingQueue::new(),
                patch_sender: tx,
            },
            rx,
        )
    }

    /// The root context's identity.
    pub fn root_id(&self) -> (r: u128)
        ensures
            r == self.spec_root().spec_id(),
    {
        self.context.id()
    }

    /// Decodes an inbound wire token and forwards the event to the root
    /// context, which broadcasts it through the whole tree; a malformed
    /// token is dropped and the session is untouched. An address no context
    /// handles leaves the hook state and the queue untouched, and any mark
    /// the handlers record names a context of this tree.
    pub fn dispatch_event(&mut self, event: String)
        ensures
            spec_decode_token(event@) is None ==> final(self).spec_root() == old(
                self,
            ).spec_root() && final(self).spec_queue() == old(self).spec_queue(),
            spec_decode_token(event@) matches Some(k)
                && !old(self).spec_root().spec_tree_handles(k) ==> ({
                &&& final(self).spec_root().spec_slots() == old(self).spec_root().spec_slots()
                &&& final(self).spec_queue() == old(self).spec_queue()
            }),
            forall|x: u128|
                #![trigger final(self).spec_queue().render.contains(x)]
                #![trigger final(self).spec_queue().deferred.contains(x)]
                ((final(self).spec_queue().render.contains(x) && !old(
                    self,
                ).spec_queue().render.contains(x)) || (final(self).spec_queue().deferred.contains(
                    x,
                ) && !old(self).spec_queue().deferred.contains(x))) ==> spec_tree_has_id(
                    old(self).spec_root(),
                    x,
                ),
            final(self).spec_root().spec_id() == old(self).spec_root().spec_id(),
            final(self).spec_root().spec_events() == old(self).spec_root().spec_events(),
            final(self).spec_root().spec_last_render() == old(self).spec_root().spec_last_render(),
            final(self).spec_root().spec_has_rendered() == old(
                self,
            ).spec_root().spec_has_rendered(),
            final(self).spec_root().spec_child_count() == old(
                self,
            ).spec_root().spec_child_count(),
    {
        match decode_event_token(event.as_str()) {
            Some(ev) => {
                self.context.dispatch_event(&ev, &mut self.rendering_queue);
            },
            None => {},
        }
    }

    /// The full markup of the root, rendering first if needed: the first
    /// response to a new client.
    pub fn dynamic_render(&mut self) -> (r: String)
        ensures
            r@ == crate::context::spec_view_markup(final(self).spec_root()),
            final(self).spec_root().spec_last_render() is Some,
    {
        self.context.render_to_string(&mut self.rendering_queue)
    }

    /// One reconciliation pass: drains both dirty sets, re-renders each
    /// listed context that still exists — each distinct identity exactly
    /// once, in drain order — and, per re-rendered context, translates its
    /// patches to wire form and hands them to the channel as one batch. Once
    /// the channel's receiver is gone, delivery for the rest of the pass is
    /// abandoned but the remaining dirty contexts are still re-rendered,
    /// their state advancing though undelivered. Marks recorded while the
    /// pass runs wait in the deferred set for the next pass.
    #[verifier::loop_isolation(false)]
    pub fn process_render_queue(&mut self)
        ensures
            final(self).spec_root().spec_id() == old(self).spec_root().spec_id(),
            final(self).spec_queue().render.len() == 0,
            !final(self).spec_queue().draining,
            exists|ids: Seq<u128>|
                {
                    &&& ids.no_duplicates()
                    &&& (forall|x: u128|
                        ids.contains(x) <==> (old(self).spec_queue().render.contains(x) || old(
                            self,
                        ).spec_queue().deferred.contains(x)))
                    &&& #[trigger] spec_pass_steps(
                        old(self).spec_root(),
                        final(self).spec_root(),
                        ids,
                    )
                },
    {
        let ghost pre_root = self.context;
        let ids = self.rendering_queue.drain();
        let mut i: usize = 0;
        while i < ids.len()
            invariant
                i <= ids@.len(),
                self.context.spec_id() == old(self).spec_root().spec_id(),
                self.rendering_queue@.draining,
                self.rendering_queue@.render.len() == 0,
                spec_pass_steps(pre_root, self.context, ids@.take(i as int)),
            decreases ids@.len() - i,
        {
            let ghost mid = self.context;
            let patches = self.context.force_render_by_id(ids[i], &mut self.rendering_queue);
            match patches {
                Some(ps) => {
                    proof {
                        assert(spec_step_one(mid, self.context, ids@[i as int]));
                    }
                    // Once the receiver is gone, delivery is abandoned for the
                    // rest of the pass, but the remaining dirty contexts are
                    // still reconciled: their state advances even if unsent.
                    if !sender_disconnected(&self.patch_sender) {
                        match self.context.find_by_id(ids[i]) {
                            Some(cx) => {
                                let wire = translate_patches(cx, &ps);
                                let _ = send_patch(
                                    &self.patch_sender,
                                    Patch::Batch { patches: wire },
                                );
                            },
                            None => {},
                        }
                    }
                },
                None => {
                    proof {
                        assert(spec_step_one(mid, self.context, ids@[i as int]));
                    }
                },
            }
            proof {
                lemma_pass_steps_snoc(pre_root, mid, self.context, ids@.take(i as int), ids@[i as int]);
                assert(ids@.take(i + 1) =~= ids@.take(i as int).push(ids@[i as int]));
            }
            i = i + 1;
        }
        proof {
            assert(ids@.take(ids@.len() as int) =~= ids@);
        }
        self.rendering_queue.end_drain();
        proof {
            assert(pre_root == old(self).spec_root());
            assert(spec_pass_steps(old(self).spec_root(), self.context, ids@));
            assert(self.context == final(self).spec_root());
        }
    }

    /// Ends the session: tears the context tree down and clears the queue.
    pub fn teardown(&mut self)
        ensures
            final(self).spec_root().spec_child_count() == 0,
    {
        self.context.teardown();
        self.rendering_queue.clear();
    }
}

} // verus!
