//! The diff engine: a pure function computing the ordered patch list that
//! turns one markup tree into another, positional over children.

use vstd::prelude::*;
use crate::node::{
    Node, NodeV, ElementV, spec_children_view, spec_attrs_view, spec_events_view,
    spec_node_height, spec_element_height, spec_children_height, lemma_child_height_le,
    lemma_children_view_len, lemma_children_view_index, clone_node, string_eq,
};

verus! {

/// One minimal instruction bringing the previous tree up to date, addressed
/// by node or context identity.
pub enum NodePatch {
    ReplaceChildren { node_id: u128, children: Vec<Node> },
    ReplaceViewChildren { view_id: u128, children: Vec<Node> },
    ReplaceChild { node_id: u128, child_idx: usize, node: Node },
    Replace { node_id: u128, node: Node },
    SetAttr { node_id: u128, attr: String, value: String },
    RemoveAttr { node_id: u128, attr: String },
    AttachEvent { node_id: u128, event: String },
    DetachEvent { node_id: u128, event: String },
}

/// The mathematical value of a patch.
#[verifier::ext_equal]
pub enum NodePatchV {
    ReplaceChildren { node_id: u128, children: Seq<NodeV> },
    ReplaceViewChildren { view_id: u128, children: Seq<NodeV> },
    ReplaceChild { node_id: u128, child_idx: int, node: NodeV },
    Replace { node_id: u128, node: NodeV },
    SetAttr { node_id: u128, attr: Seq<char>, value: Seq<char> },
    RemoveAttr { node_id: u128, attr: Seq<char> },
    AttachEvent { node_id: u128, event: Seq<char> },
    DetachEvent { node_id: u128, event: Seq<char> },
}

impl View for NodePatch {
    type V = NodePatchV;

    open spec fn view(&self) -> NodePatchV {
        match *self {
            NodePatch::ReplaceChildren { node_id, ref children } => NodePatchV::ReplaceChildren {
                node_id,
                children: spec_children_view(children@),
            },
            NodePatch::ReplaceViewChildren { view_id, ref children } => {
                NodePatchV::ReplaceViewChildren {
                    view_id,
                    children: spec_children_view(children@),
                }
            },
            NodePatch::ReplaceChild { node_id, child_idx, ref node } => NodePatchV::ReplaceChild {
                node_id,
                child_idx: child_idx as int,
                node: node@,
            },
            NodePatch::Replace { node_id, ref node } => NodePatchV::Replace {
                node_id,
                node: node@,
            },
            NodePatch::SetAttr { node_id, ref attr, ref value } => NodePatchV::SetAttr {
                node_id,
                attr: attr@,
                value: value@,
            },
            NodePatch::RemoveAttr { node_id, ref attr } => NodePatchV::RemoveAttr {
                node_id,
                attr: attr@,
            },
            NodePatch::AttachEvent { node_id, ref event } => NodePatchV::AttachEvent {
                node_id,
                event: event@,
            },
            NodePatch::DetachEvent { node_id, ref event } => NodePatchV::DetachEvent {
                node_id,
                event: event@,
            },
        }
    }
}

/// The views of a patch list, position by position.
pub open spec fn spec_patches_view(s: Seq<NodePatch>) -> Seq<NodePatchV> {
    s.map_values(|p: NodePatch| p@)
}

/// Appending one patch appends its view.
pub broadcast proof fn lemma_patches_view_push(s: Seq<NodePatch>, p: NodePatch)
    ensures
        #[trigger] spec_patches_view(s.push(p)) == spec_patches_view(s).push(p@),
{
    assert(spec_patches_view(s.push(p)) =~= spec_patches_view(s).push(p@));
}

/// Concatenating patch lists concatenates their views.
pub broadcast proof fn lemma_patches_view_concat(a: Seq<NodePatch>, b: Seq<NodePatch>)
    ensures
        #[trigger] spec_patches_view(a + b) == spec_patches_view(a) + spec_patches_view(b),
{
    assert(spec_patches_view(a + b) =~= spec_patches_view(a) + spec_patches_view(b));
}

/// The value at the first occurrence of key `k`, if any.
pub open spec fn spec_lookup<X>(s: Seq<(Seq<char>, X)>, k: Seq<char>) -> Option<X>
    decreases s.len(),
{
    if s.len() == 0 {
        None
    } else if s.first().0 == k {
        Some(s.first().1)
    } else {
        spec_lookup(s.drop_first(), k)
    }
}

/// A first match at position `i` settles the lookup.
pub proof fn lemma_lookup_found<X>(s: Seq<(Seq<char>, X)>, k: Seq<char>, i: int)
    requires
        0 <= i < s.len(),
        s[i].0 == k,
        forall|j: int| 0 <= j < i ==> s[j].0 != k,
    ensures
        spec_lookup(s, k) == Some(s[i].1),
    decreases i,
{
    if i > 0 {
        lemma_lookup_found(s.drop_first(), k, i - 1);
    }
}

/// An absent key settles the lookup to `None`.
pub proof fn lemma_lookup_missing<X>(s: Seq<(Seq<char>, X)>, k: Seq<char>)
    requires
        forall|j: int| 0 <= j < s.len() ==> s[j].0 != k,
    ensures
        spec_lookup(s, k) is None,
    decreases s.len(),
{
    if s.len() > 0 {
        lemma_lookup_missing(s.drop_first(), k);
    }
}

/// Patches for the attributes of the previous element, in order: a key whose
/// value changed is set to the new value, a key gone from the next element
/// is removed.
pub open spec fn spec_attr_updates(
    fa: Seq<(Seq<char>, Seq<char>)>,
    ta: Seq<(Seq<char>, Seq<char>)>,
    id: u128,
) -> Seq<NodePatchV>
    decreases fa.len(),
{
    if fa.len() == 0 {
        Seq::empty()
    } else {
        spec_attr_updates(fa.drop_last(), ta, id) + (match spec_lookup(ta, fa.last().0) {
            Some(tv) => if tv != fa.last().1 {
                seq![NodePatchV::SetAttr { node_id: id, attr: fa.last().0, value: tv }]
            } else {
                Seq::empty()
            },
            None => seq![NodePatchV::RemoveAttr { node_id: id, attr: fa.last().0 }],
        })
    }
}

/// Patches for the attributes only the next element has: each is set.
pub open spec fn spec_attr_additions(
    fa: Seq<(Seq<char>, Seq<char>)>,
    ta: Seq<(Seq<char>, Seq<char>)>,
    id: u128,
) -> Seq<NodePatchV>
    decreases ta.len(),
{
    if ta.len() == 0 {
        Seq::empty()
    } else {
        spec_attr_additions(fa, ta.drop_last(), id) + (if spec_lookup(fa, ta.last().0) is None {
            seq![NodePatchV::SetAttr { node_id: id, attr: ta.last().0, value: ta.last().1 }]
        } else {
            Seq::empty()
        })
    }
}

/// Detach patches for the events gone from the next element.
pub open spec fn spec_event_detaches(
    fe: Seq<(Seq<char>, u64)>,
    te: Seq<(Seq<char>, u64)>,
    id: u128,
) -> Seq<NodePatchV>
    decreases fe.len(),
{
    if fe.len() == 0 {
        Seq::empty()
    } else {
        spec_event_detaches(fe.drop_last(), te, id) + (if spec_lookup(te, fe.last().0) is None {
            seq![NodePatchV::DetachEvent { node_id: id, event: fe.last().0 }]
        } else {
            Seq::empty()
        })
    }
}

/// Attach patches for the events newly present on the next element.
pub open spec fn spec_event_attaches(
    fe: Seq<(Seq<char>, u64)>,
    te: Seq<(Seq<char>, u64)>,
    id: u128,
) -> Seq<NodePatchV>
    decreases te.len(),
{
    if te.len() == 0 {
        Seq::empty()
    } else {
        spec_event_attaches(fe, te.drop_last(), id) + (if spec_lookup(fe, te.last().0) is None {
            seq![NodePatchV::AttachEvent { node_id: id, event: te.last().0 }]
        } else {
            Seq::empty()
        })
    }
}

/// The patch list turning the previous node into the next one.
///
/// Same-tag elements are compared attribute by attribute and event by event,
/// then their children pairwise by position; a tag change or an element/text
/// mismatch replaces the whole previous subtree; differing text is replaced
/// through its parent; child references are never diffed here, their own
/// render produces their patches. Children beyond the shorter child list are
/// not visited.
pub open spec fn spec_diff(from: NodeV, to: NodeV, parent_id: u128, idx: int) -> Seq<NodePatchV>
    decreases from, 0int,
    via spec_diff_decreases
{
    match from {
        NodeV::Element(fe) => match to {
            NodeV::Element(te) => {
                if fe.tag != te.tag {
                    seq![NodePatchV::Replace { node_id: fe.id, node: to }]
                } else {
                    spec_attr_updates(fe.attrs, te.attrs, fe.id) + spec_attr_additions(
                        fe.attrs,
                        te.attrs,
                        fe.id,
                    ) + spec_event_detaches(fe.events, te.events, fe.id) + spec_event_attaches(
                        fe.events,
                        te.events,
                        fe.id,
                    ) + spec_diff_children(
                        fe.children,
                        te.children,
                        fe.id,
                        if fe.children.len() <= te.children.len() {
                            fe.children.len() as int
                        } else {
                            te.children.len() as int
                        },
                    )
                }
            },
            _ => seq![NodePatchV::Replace { node_id: fe.id, node: to }],
        },
        NodeV::Text(ft) => match to {
            NodeV::Element(_) => seq![
                NodePatchV::ReplaceChild { node_id: parent_id, child_idx: idx, node: to },
            ],
            NodeV::Text(tt) => if ft != tt {
                seq![NodePatchV::ReplaceChild { node_id: parent_id, child_idx: idx, node: to }]
            } else {
                Seq::empty()
            },
            NodeV::ViewRef(_) => Seq::empty(),
        },
        NodeV::ViewRef(_) => Seq::empty(),
    }
}

#[via_fn]
proof fn spec_diff_decreases(from: NodeV, to: NodeV, parent_id: u128, idx: int) {
    if from is Element {
        let fe = from->Element_0;
        assert(decreases_to!(from => fe));
        assert(decreases_to!(fe => fe.children));
    }
}

/// The concatenated diffs of the first `k` child pairs, zipped by position;
/// each pair is diffed at its own position, so a text replacement at child
/// `k` is keyed by the parent with index `k`.
pub open spec fn spec_diff_children(
    fc: Seq<NodeV>,
    tc: Seq<NodeV>,
    parent_id: u128,
    k: int,
) -> Seq<NodePatchV>
    decreases fc, k,
    via spec_diff_children_decreases
{
    if k <= 0 || k > fc.len() || k > tc.len() {
        Seq::empty()
    } else {
        spec_diff_children(fc, tc, parent_id, k - 1) + spec_diff(
            fc[k - 1],
            tc[k - 1],
            parent_id,
            k - 1,
        )
    }
}

#[via_fn]
proof fn spec_diff_children_decreases(
    fc: Seq<NodeV>,
    tc: Seq<NodeV>,
    parent_id: u128,
    k: int,
) {
    broadcast use vstd::seq::axiom_seq_index_decreases;

    if 0 < k <= fc.len() && k <= tc.len() {
        assert(decreases_to!(fc => fc[k - 1]));
    }
}

/// The value stored under the first occurrence of `key`, cloned.
fn lookup_attr_value(attrs: &Vec<(String, String)>, key: &String) -> (r: Option<String>)
    ensures
        r is Some <==> spec_lookup(spec_attrs_view(attrs@), key@) is Some,
        r matches Some(v) ==> spec_lookup(spec_attrs_view(attrs@), key@) == Some(v@),
{
    let mut i: usize = 0;
    while i < attrs.len()
        invariant
            i <= attrs@.len(),
            forall|j: int| 0 <= j < i ==> spec_attrs_view(attrs@)[j].0 != key@,
        decreases attrs@.len() - i,
    {
        if string_eq(&attrs[i].0, key) {
            proof {
                lemma_lookup_found(spec_attrs_view(attrs@), key@, i as int);
            }
            return Some(attrs[i].1.clone());
        }
        i = i + 1;
    }
    proof {
        lemma_lookup_missing(spec_attrs_view(attrs@), key@);
    }
    None
}

/// Whether an event name is registered in the list.
fn has_event(events: &Vec<(String, u64)>, key: &String) -> (r: bool)
    ensures
        r == (spec_lookup(spec_events_view(events@), key@) is Some),
{
    let mut i: usize = 0;
    while i < events.len()
        invariant
            i <= events@.len(),
            forall|j: int| 0 <= j < i ==> spec_events_view(events@)[j].0 != key@,
        decreases events@.len() - i,
    {
        if string_eq(&events[i].0, key) {
            proof {
                lemma_lookup_found(spec_events_view(events@), key@, i as int);
            }
            return true;
        }
        i = i + 1;
    }
    proof {
        lemma_lookup_missing(spec_events_view(events@), key@);
    }
    false
}

/// Computes the ordered patch list between the previous and the next node.
pub fn diff(from: &Node, to: &Node, parent_id: u128, idx: usize) -> (r: Vec<NodePatch>)
    ensures
        spec_patches_view(r@) == spec_diff(from@, to@, parent_id, idx as int),
    decreases spec_node_height(*from),
{
    match (from, to) {
        (Node::Element(fe), Node::Element(te)) => {
            if !string_eq(&fe.tag, &te.tag) {
                let r = vec![NodePatch::Replace { node_id: fe.id, node: clone_node(to) }];
                proof {
                    assert(spec_patches_view(r@) =~= spec_diff(
                        from@,
                        to@,
                        parent_id,
                        idx as int,
                    ));
                }
                return r;
            }
            let ghost fav = spec_attrs_view(fe.attrs@);
            let ghost tav = spec_attrs_view(te.attrs@);
            let ghost fev = spec_events_view(fe.events@);
            let ghost tev = spec_events_view(te.events@);
            let id: u128 = fe.id;
            let mut out: Vec<NodePatch> = Vec::new();
            let mut i: usize = 0;
            while i < fe.attrs.len()
                invariant
                    i <= fe.attrs@.len(),
                    fav == spec_attrs_view(fe.attrs@),
                    tav == spec_attrs_view(te.attrs@),
                    spec_patches_view(out@) =~= spec_attr_updates(fav.take(i as int), tav, id),
                decreases fe.attrs@.len() - i,
            {
                proof {
                    assert(fav.take(i + 1).drop_last() =~= fav.take(i as int));
                    assert(fav.take(i + 1).last() == fav[i as int]);
                }
                match lookup_attr_value(&te.attrs, &fe.attrs[i].0) {
                    Some(tv) => {
                        if !string_eq(&tv, &fe.attrs[i].1) {
                            out.push(NodePatch::SetAttr {
                                node_id: id,
                                attr: fe.attrs[i].0.clone(),
                                value: tv,
                            });
                        }
                    },
                    None => {
                        out.push(NodePatch::RemoveAttr { node_id: id, attr: fe.attrs[i].0.clone() });
                    },
                }
                proof {
                    broadcast use {lemma_patches_view_push, lemma_patches_view_concat};

                    assert(spec_patches_view(out@) =~= spec_attr_updates(
                        fav.take(i + 1),
                        tav,
                        id,
                    ));
                }
                i = i + 1;
            }
            proof {
                assert(fav.take(fav.len() as int) =~= fav);
            }
            let ghost seg1 = spec_attr_updates(fav, tav, id);
            let mut i: usize = 0;
            while i < te.attrs.len()
                invariant
                    i <= te.attrs@.len(),
                    fav == spec_attrs_view(fe.attrs@),
                    tav == spec_attrs_view(te.attrs@),
                    seg1 == spec_attr_updates(fav, tav, id),
                    spec_patches_view(out@) =~= seg1 + spec_attr_additions(
                        fav,
                        tav.take(i as int),
                        id,
                    ),
                decreases te.attrs@.len() - i,
            {
                proof {
                    assert(tav.take(i + 1).drop_last() =~= tav.take(i as int));
                    assert(tav.take(i + 1).last() == tav[i as int]);
                }
                match lookup_attr_value(&fe.attrs, &te.attrs[i].0) {
                    Some(_) => {},
                    None => {
                        out.push(NodePatch::SetAttr {
                            node_id: id,
                            attr: te.attrs[i].0.clone(),
                            value: te.attrs[i].1.clone(),
                        });
                    },
                }
                proof {
                    broadcast use {lemma_patches_view_push, lemma_patches_view_concat};

                    assert(spec_patches_view(out@) =~= seg1 + spec_attr_additions(
                        fav,
                        tav.take(i + 1),
                        id,
                    ));
                }
                i = i + 1;
            }
            proof {
                assert(tav.take(tav.len() as int) =~= tav);
            }
            let ghost seg2 = seg1 + spec_attr_additions(fav, tav, id);
            let mut i: usize = 0;
            while i < fe.events.len()
                invariant
                    i <= fe.events@.len(),
                    fev == spec_events_view(fe.events@),
                    tev == spec_events_view(te.events@),
                    seg2 == spec_attr_updates(fav, tav, id) + spec_attr_additions(fav, tav, id),
                    spec_patches_view(out@) =~= seg2 + spec_event_detaches(
                        fev.take(i as int),
                        tev,
                        id,
                    ),
                decreases fe.events@.len() - i,
            {
                proof {
                    assert(fev.take(i + 1).drop_last() =~= fev.take(i as int));
                    assert(fev.take(i + 1).last() == fev[i as int]);
                }
                if !has_event(&te.events, &fe.events[i].0) {
                    out.push(NodePatch::DetachEvent { node_id: id, event: fe.events[i].0.clone() });
                }
                proof {
                    broadcast use {lemma_patches_view_push, lemma_patches_view_concat};

                    assert(spec_patches_view(out@) =~= seg2 + spec_event_detaches(
                        fev.take(i + 1),
                        tev,
                        id,
                    ));
                }
                i = i + 1;
            }
            proof {
                assert(fev.take(fev.len() as int) =~= fev);
            }
            let ghost seg3 = seg2 + spec_event_detaches(fev, tev, id);
            let mut i: usize = 0;
            while i < te.events.len()
                invariant
                    i <= te.events@.len(),
                    fev == spec_events_view(fe.events@),
                    tev == spec_events_view(te.events@),
                    seg3 == spec_attr_updates(fav, tav, id) + spec_attr_additions(fav, tav, id)
                        + spec_event_detaches(fev, tev, id),
                    spec_patches_view(out@) =~= seg3 + spec_event_attaches(
                        fev,
                        tev.take(i as int),
                        id,
                    ),
                decreases te.events@.len() - i,
            {
                proof {
                    assert(tev.take(i + 1).drop_last() =~= tev.take(i as int));
                    assert(tev.take(i + 1).last() == tev[i as int]);
                }
                if !has_event(&fe.events, &te.events[i].0) {
                    out.push(NodePatch::AttachEvent { node_id: id, event: te.events[i].0.clone() });
                }
                proof {
                    broadcast use {lemma_patches_view_push, lemma_patches_view_concat};

                    assert(spec_patches_view(out@) =~= seg3 + spec_event_attaches(
                        fev,
                        tev.take(i + 1),
                        id,
                    ));
                }
                i = i + 1;
            }
            proof {
                assert(tev.take(tev.len() as int) =~= tev);
            }
            let ghost seg4 = seg3 + spec_event_attaches(fev, tev, id);
            let ghost fcv = spec_children_view(fe.children@);
            let ghost tcv = spec_children_view(te.children@);
            let n: usize = if fe.children.len() <= te.children.len() {
                fe.children.len()
            } else {
                te.children.len()
            };
            proof {
                broadcast use {lemma_children_view_len, lemma_children_view_index};
            }
            let mut k: usize = 0;
            while k < n
                invariant
                    k <= n,
                    n == if fe.children@.len() <= te.children@.len() {
                        fe.children@.len()
                    } else {
                        te.children@.len()
                    },
                    fcv == spec_children_view(fe.children@),
                    tcv == spec_children_view(te.children@),
                    id == fe.id,
                    spec_node_height(*from) == 1 + spec_element_height(**fe),
                    seg4 == spec_attr_updates(fav, tav, id) + spec_attr_additions(fav, tav, id)
                        + spec_event_detaches(fev, tev, id) + spec_event_attaches(fev, tev, id),
                    spec_patches_view(out@) =~= seg4 + spec_diff_children(
                        fcv,
                        tcv,
                        id,
                        k as int,
                    ),
                decreases n - k,
            {
                proof {
                    broadcast use {lemma_children_view_len, lemma_children_view_index};

                    lemma_child_height_le(fe.children@, k as int);
                }
                let mut sub = diff(&fe.children[k], &te.children[k], id, k);
                proof {
                    assert(fcv[k as int] == fe.children@[k as int]@);
                    assert(tcv[k as int] == te.children@[k as int]@);
                }
                let ghost pre = out@;
                let ghost subv = sub@;
                out.append(&mut sub);
                proof {
                    broadcast use {lemma_patches_view_push, lemma_patches_view_concat};

                    assert(spec_patches_view(out@) =~= spec_patches_view(pre)
                        + spec_patches_view(subv));
                    assert(spec_patches_view(out@) =~= seg4 + spec_diff_children(
                        fcv,
                        tcv,
                        id,
                        k + 1,
                    ));
                }
                k = k + 1;
            }
            proof {
                broadcast use {lemma_children_view_len, lemma_children_view_index};

                assert(spec_diff(from@, to@, parent_id, idx as int) == seg4 + spec_diff_children(
                    fcv,
                    tcv,
                    id,
                    n as int,
                ));
            }
            out
        },
        (Node::Element(fe), _) => {
            let r = vec![NodePatch::Replace { node_id: fe.id, node: clone_node(to) }];
            proof {
                assert(spec_patches_view(r@) =~= spec_diff(from@, to@, parent_id, idx as int));
            }
            r
        },
        (Node::Text(ft), Node::Element(_)) => {
            let r = vec![
                NodePatch::ReplaceChild {
                    node_id: parent_id,
                    child_idx: idx,
                    node: clone_node(to),
                },
            ];
            proof {
                assert(spec_patches_view(r@) =~= spec_diff(from@, to@, parent_id, idx as int));
            }
            r
        },
        (Node::Text(ft), Node::Text(tt)) => {
            if !string_eq(&ft.0, &tt.0) {
                let r = vec![
                    NodePatch::ReplaceChild {
                        node_id: parent_id,
                        child_idx: idx,
                        node: clone_node(to),
                    },
                ];
                proof {
                    assert(spec_patches_view(r@) =~= spec_diff(
                        from@,
                        to@,
                        parent_id,
                        idx as int,
                    ));
                }
                r
            } else {
                let r: Vec<NodePatch> = Vec::new();
                proof {
                    assert(spec_patches_view(r@) =~= spec_diff(
                        from@,
                        to@,
                        parent_id,
                        idx as int,
                    ));
                }
                r
            }
        },
        _ => {
            let r: Vec<NodePatch> = Vec::new();
            proof {
                assert(spec_patches_view(r@) =~= spec_diff(from@, to@, parent_id, idx as int));
            }
            r
        },
    }
}

/// No two entries of the mapping share a key.
pub open spec fn spec_keys_unique<X>(s: Seq<(Seq<char>, X)>) -> bool {
    forall|i: int, j: int| 0 <= i < j < s.len() ==> s[i].0 != s[j].0
}

/// A well-formed node: attribute and event keys are unique at every element,
/// as the builders keep them.
pub open spec fn spec_node_wf(n: NodeV) -> bool
    decreases n, 0int,
    via spec_node_wf_decreases
{
    match n {
        NodeV::Element(e) => spec_keys_unique(e.attrs) && spec_keys_unique(e.events)
            && spec_children_wf(e.children),
        _ => true,
    }
}

#[via_fn]
proof fn spec_node_wf_decreases(n: NodeV) {
    if n is Element {
        let fe = n->Element_0;
        assert(decreases_to!(n => fe));
        assert(decreases_to!(fe => fe.children));
    }
}

/// Every node of the sequence is well formed.
pub open spec fn spec_children_wf(s: Seq<NodeV>) -> bool
    decreases s, 0int,
    via spec_children_wf_decreases
{
    if s.len() == 0 {
        true
    } else {
        spec_node_wf(s.first()) && spec_children_wf(s.drop_first())
    }
}

#[via_fn]
proof fn spec_children_wf_decreases(s: Seq<NodeV>) {
    broadcast use vstd::seq::axiom_seq_index_decreases;
    broadcast use vstd::seq::axiom_seq_subrange_decreases;

    if s.len() > 0 {
        assert(decreases_to!(s => s[0]));
        assert(s.drop_first() == s.subrange(1, s.len() as int));
        assert(decreases_to!(s => s.subrange(1, s.len() as int)));
    }
}

/// Well-formedness reaches each member of the sequence.
pub proof fn lemma_children_wf_index(s: Seq<NodeV>, i: int)
    requires
        spec_children_wf(s),
        0 <= i < s.len(),
    ensures
        spec_node_wf(s[i]),
    decreases s.len(),
{
    if i > 0 {
        lemma_children_wf_index(s.drop_first(), i - 1);
    }
}

/// With unique keys, looking a key up finds its own entry.
pub proof fn lemma_lookup_self<X>(s: Seq<(Seq<char>, X)>, i: int)
    requires
        spec_keys_unique(s),
        0 <= i < s.len(),
    ensures
        spec_lookup(s, s[i].0) == Some(s[i].1),
{
    lemma_lookup_found(s, s[i].0, i);
}

proof fn lemma_updates_found_empty(
    fa: Seq<(Seq<char>, Seq<char>)>,
    ta: Seq<(Seq<char>, Seq<char>)>,
    id: u128,
)
    requires
        forall|i: int| 0 <= i < fa.len() ==> spec_lookup(ta, fa[i].0) == Some(fa[i].1),
    ensures
        spec_attr_updates(fa, ta, id) == Seq::<NodePatchV>::empty(),
    decreases fa.len(),
{
    if fa.len() > 0 {
        lemma_updates_found_empty(fa.drop_last(), ta, id);
        assert(spec_attr_updates(fa, ta, id) =~= Seq::<NodePatchV>::empty());
    }
}

proof fn lemma_additions_found_empty(
    fa: Seq<(Seq<char>, Seq<char>)>,
    ta: Seq<(Seq<char>, Seq<char>)>,
    id: u128,
)
    requires
        forall|i: int| 0 <= i < ta.len() ==> spec_lookup(fa, ta[i].0) is Some,
    ensures
        spec_attr_additions(fa, ta, id) == Seq::<NodePatchV>::empty(),
    decreases ta.len(),
{
    if ta.len() > 0 {
        lemma_additions_found_empty(fa, ta.drop_last(), id);
        assert(spec_attr_additions(fa, ta, id) =~= Seq::<NodePatchV>::empty());
    }
}

proof fn lemma_detaches_found_empty(fe: Seq<(Seq<char>, u64)>, te: Seq<(Seq<char>, u64)>, id: u128)
    requires
        forall|i: int| 0 <= i < fe.len() ==> spec_lookup(te, fe[i].0) is Some,
    ensures
        spec_event_detaches(fe, te, id) == Seq::<NodePatchV>::empty(),
    decreases fe.len(),
{
    if fe.len() > 0 {
        lemma_detaches_found_empty(fe.drop_last(), te, id);
        assert(spec_event_detaches(fe, te, id) =~= Seq::<NodePatchV>::empty());
    }
}

proof fn lemma_attaches_found_empty(fe: Seq<(Seq<char>, u64)>, te: Seq<(Seq<char>, u64)>, id: u128)
    requires
        forall|i: int| 0 <= i < te.len() ==> spec_lookup(fe, te[i].0) is Some,
    ensures
        spec_event_attaches(fe, te, id) == Seq::<NodePatchV>::empty(),
    decreases te.len(),
{
    if te.len() > 0 {
        lemma_attaches_found_empty(fe, te.drop_last(), id);
        assert(spec_event_attaches(fe, te, id) =~= Seq::<NodePatchV>::empty());
    }
}

/// Diff minimality: diffing a well-formed tree against an identical copy of
/// itself yields an empty patch list, whatever the ambient parent identity
/// and child index.
pub proof fn lemma_diff_identity(n: NodeV, parent_id: u128, idx: int)
    requires
        spec_node_wf(n),
    ensures
        spec_diff(n, n, parent_id, idx) == Seq::<NodePatchV>::empty(),
    decreases n, 0int,
{
    match n {
        NodeV::Element(fe) => {
            assert forall|i: int| 0 <= i < fe.attrs.len() implies spec_lookup(
                fe.attrs,
                fe.attrs[i].0,
            ) == Some(fe.attrs[i].1) by {
                lemma_lookup_self(fe.attrs, i);
            }
            assert forall|i: int| 0 <= i < fe.events.len() implies spec_lookup(
                fe.events,
                fe.events[i].0,
            ) is Some by {
                lemma_lookup_self(fe.events, i);
            }
            lemma_updates_found_empty(fe.attrs, fe.attrs, fe.id);
            lemma_additions_found_empty(fe.attrs, fe.attrs, fe.id);
            lemma_detaches_found_empty(fe.events, fe.events, fe.id);
            lemma_attaches_found_empty(fe.events, fe.events, fe.id);
            lemma_diff_children_identity(fe.children, fe.id, fe.children.len() as int);
            assert(spec_diff(n, n, parent_id, idx) =~= Seq::<NodePatchV>::empty());
        },
        NodeV::Text(_) => {},
        NodeV::ViewRef(_) => {},
    }
}

/// Diffing the first `k` children of a well-formed list against themselves
/// yields nothing.
pub proof fn lemma_diff_children_identity(s: Seq<NodeV>, parent_id: u128, k: int)
    requires
        spec_children_wf(s),
        k <= s.len(),
    ensures
        spec_diff_children(s, s, parent_id, k) == Seq::<NodePatchV>::empty(),
    decreases s, k,
{
    if 0 < k <= s.len() {
        lemma_diff_children_identity(s, parent_id, k - 1);
        lemma_children_wf_index(s, k - 1);
        broadcast use vstd::seq::axiom_seq_index_decreases;

        assert(decreases_to!(s => s[k - 1]));
        lemma_diff_identity(s[k - 1], parent_id, k - 1);
        assert(spec_diff_children(s, s, parent_id, k) =~= Seq::<NodePatchV>::empty());
    }
}

} // verus!
