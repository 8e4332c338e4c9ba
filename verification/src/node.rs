//! The markup tree produced by one render pass: elements with attributes,
//! events and children, plain text, and references to child view instances.

use vstd::prelude::*;

verus! {

broadcast use vstd::seq::axiom_seq_index_decreases;

/// A node of the markup tree.
pub enum Node {
    Text(Box<TextNode>),
    Element(Box<ElementNode>),
    ViewRef(Box<ViewRef>),
}

/// A text node: holds a string value, no identity of its own.
pub struct TextNode(pub String);

/// An element node: a stable identity for the current tree, a tag, an
/// attribute mapping, an event mapping (event name to handler action), and
/// ordered children.
pub struct ElementNode {
    pub id: u128,
    pub tag: String,
    pub attrs: Vec<(String, String)>,
    pub events: Vec<(String, u64)>,
    pub children: Vec<Node>,
}

/// An ordinal reference to a child context of the owning context.
pub struct ViewRef {
    pub order: usize,
}

/// The mathematical value of a markup node.
#[verifier::ext_equal]
pub enum NodeV {
    Text(Seq<char>),
    Element(ElementV),
    ViewRef(int),
}

/// The mathematical value of an element node.
#[verifier::ext_equal]
pub struct ElementV {
    pub id: u128,
    pub tag: Seq<char>,
    pub attrs: Seq<(Seq<char>, Seq<char>)>,
    pub events: Seq<(Seq<char>, u64)>,
    pub children: Seq<NodeV>,
}

/// The view of an attribute list: each pair as its character sequences.
pub open spec fn spec_attrs_view(attrs: Seq<(String, String)>) -> Seq<(Seq<char>, Seq<char>)> {
    attrs.map_values(|kv: (String, String)| (kv.0@, kv.1@))
}

/// The view of an event list: names as character sequences, actions as is.
pub open spec fn spec_events_view(events: Seq<(String, u64)>) -> Seq<(Seq<char>, u64)> {
    events.map_values(|kv: (String, u64)| (kv.0@, kv.1))
}

pub open spec fn spec_node_view(n: Node) -> NodeV
    decreases n, 0int,
{
    match n {
        Node::Text(t) => NodeV::Text(t.0@),
        Node::Element(e) => NodeV::Element(spec_element_view(*e)),
        Node::ViewRef(r) => NodeV::ViewRef(r.order as int),
    }
}

pub open spec fn spec_element_view(e: ElementNode) -> ElementV
    decreases e, 1int,
    via spec_element_view_decreases
{
    ElementV {
        id: e.id,
        tag: e.tag@,
        attrs: spec_attrs_view(e.attrs@),
        events: spec_events_view(e.events@),
        children: spec_children_view(e.children@),
    }
}

#[via_fn]
proof fn spec_element_view_decreases(e: ElementNode) {
    broadcast use vstd::std_specs::vec::axiom_vec_decreases_to_view;

    assert(decreases_to!(e => e.children));
    assert(decreases_to!(e.children => e.children@));
}

pub open spec fn spec_children_view(s: Seq<Node>) -> Seq<NodeV>
    decreases s, 0int,
    via spec_children_view_decreases
{
    if s.len() == 0 {
        Seq::empty()
    } else {
        seq![spec_node_view(s.first())] + spec_children_view(s.drop_first())
    }
}

#[via_fn]
proof fn spec_children_view_decreases(s: Seq<Node>) {
    broadcast use vstd::seq::axiom_seq_index_decreases;
    broadcast use vstd::seq::axiom_seq_subrange_decreases;

    if s.len() > 0 {
        assert(decreases_to!(s => s[0]));
        assert(s.drop_first() == s.subrange(1, s.len() as int));
        assert(decreases_to!(s => s.subrange(1, s.len() as int)));
    }
}

/// The children view is the node view taken pointwise.
pub broadcast proof fn lemma_children_view_len(s: Seq<Node>)
    ensures
        #[trigger] spec_children_view(s).len() == s.len(),
    decreases s.len(),
{
    if s.len() > 0 {
        lemma_children_view_len(s.drop_first());
    }
}

/// Each position of the children view is the view of the node there.
pub broadcast proof fn lemma_children_view_index(s: Seq<Node>, i: int)
    requires
        0 <= i < s.len(),
    ensures
        #[trigger] spec_children_view(s)[i] == spec_node_view(s[i]),
    decreases s.len(),
{
    lemma_children_view_len(s);
    if i > 0 {
        lemma_children_view_index(s.drop_first(), i - 1);
    } else {
        lemma_children_view_len(s.drop_first());
    }
}

impl View for Node {
    type V = NodeV;

    open spec fn view(&self) -> NodeV {
        spec_node_view(*self)
    }
}

impl View for ElementNode {
    type V = ElementV;

    open spec fn view(&self) -> ElementV {
        spec_element_view(*self)
    }
}

/// A structural height of a node, the termination measure for tree walks.
pub open spec fn spec_node_height(n: Node) -> nat
    decreases n, 0int,
{
    match n {
        Node::Text(_) => 1,
        Node::Element(e) => 1 + spec_element_height(*e),
        Node::ViewRef(_) => 1,
    }
}

/// The height of an element: the summed height of its children.
pub open spec fn spec_element_height(e: ElementNode) -> nat
    decreases e, 1int,
    via spec_element_height_decreases
{
    spec_children_height(e.children@)
}

#[via_fn]
proof fn spec_element_height_decreases(e: ElementNode) {
    broadcast use vstd::std_specs::vec::axiom_vec_decreases_to_view;

    assert(decreases_to!(e => e.children));
    assert(decreases_to!(e.children => e.children@));
}

/// The summed height of a node sequence.
pub open spec fn spec_children_height(s: Seq<Node>) -> nat
    decreases s, 0int,
    via spec_children_height_decreases
{
    if s.len() == 0 {
        0
    } else {
        spec_node_height(s.first()) + spec_children_height(s.drop_first())
    }
}

#[via_fn]
proof fn spec_children_height_decreases(s: Seq<Node>) {
    broadcast use vstd::seq::axiom_seq_index_decreases;
    broadcast use vstd::seq::axiom_seq_subrange_decreases;

    if s.len() > 0 {
        assert(decreases_to!(s => s[0]));
        assert(s.drop_first() == s.subrange(1, s.len() as int));
        assert(decreases_to!(s => s.subrange(1, s.len() as int)));
    }
}

/// Every node of a sequence has at most the sequence's summed height.
pub broadcast proof fn lemma_child_height_le(s: Seq<Node>, i: int)
    requires
        0 <= i < s.len(),
    ensures
        #[trigger] spec_node_height(s[i]) <= spec_children_height(s),
    decreases s.len(),
{
    if i > 0 {
        lemma_child_height_le(s.drop_first(), i - 1);
    }
}

/// Replaces the value at the first occurrence of key `k`, or appends the
/// pair when the key is absent: the last write to a key wins.
pub open spec fn spec_set_pair<X>(s: Seq<(Seq<char>, X)>, k: Seq<char>, v: X) -> Seq<
    (Seq<char>, X),
>
    decreases s.len(),
{
    if s.len() == 0 {
        seq![(k, v)]
    } else if s.first().0 == k {
        seq![(k, v)] + s.drop_first()
    } else {
        seq![s.first()] + spec_set_pair(s.drop_first(), k, v)
    }
}

/// Where the key sits at position `i` and nowhere earlier, setting it
/// updates exactly that position.
pub proof fn lemma_set_pair_found<X>(s: Seq<(Seq<char>, X)>, k: Seq<char>, v: X, i: int)
    requires
        0 <= i < s.len(),
        s[i].0 == k,
        forall|j: int| 0 <= j < i ==> s[j].0 != k,
    ensures
        spec_set_pair(s, k, v) =~= s.update(i, (k, v)),
    decreases i,
{
    if i == 0 {
    } else {
        lemma_set_pair_found(s.drop_first(), k, v, i - 1);
    }
}

/// Where the key is absent, setting it appends the pair.
pub proof fn lemma_set_pair_missing<X>(s: Seq<(Seq<char>, X)>, k: Seq<char>, v: X)
    requires
        forall|j: int| 0 <= j < s.len() ==> s[j].0 != k,
    ensures
        spec_set_pair(s, k, v) =~= s.push((k, v)),
    decreases s.len(),
{
    if s.len() == 0 {
    } else {
        lemma_set_pair_missing(s.drop_first(), k, v);
    }
}

impl Node {
    /// Starts a fresh element with the given tag; its identity is newly
    /// drawn, so nothing is promised of it.
    pub fn new(tag: &str) -> (r: ElementNode)
        ensures
            r@.tag == tag@,
            r@.attrs.len() == 0,
            r@.events.len() == 0,
            r@.children.len() == 0,
    {
        ElementNode::new(tag)
    }

    /// A text node holding the given string.
    pub fn text(text: &str) -> (r: TextNode)
        ensures
            r.0@ == text@,
    {
        TextNode(text.to_owned())
    }
}

impl TextNode {
    /// Wraps this text as a tree node.
    pub fn into_node(self) -> (r: Node)
        ensures
            r@ == NodeV::Text(self.0@),
    {
        Node::Text(Box::new(self))
    }
}

impl ViewRef {
    /// The ordinal of the referenced child context.
    pub fn order(&self) -> (r: usize)
        ensures
            r == self.order,
    {
        self.order
    }

    /// Wraps this reference as a tree node.
    pub fn into_node(self) -> (r: Node)
        ensures
            r@ == NodeV::ViewRef(self.order as int),
    {
        Node::ViewRef(Box::new(self))
    }
}

impl Clone for ViewRef {
    fn clone(&self) -> (r: Self)
        ensures
            r == *self,
    {
        ViewRef { order: self.order }
    }
}

impl ElementNode {
    /// Starts a fresh element with the given tag; the identity is newly
    /// drawn, so nothing is promised of it.
    pub fn new(tag: &str) -> (r: ElementNode)
        ensures
            r@.tag == tag@,
            r@.attrs.len() == 0,
            r@.events.len() == 0,
            r@.children.len() == 0,
    {
        ElementNode {
            id: crate::ident::fresh_id(),
            tag: tag.to_owned(),
            attrs: Vec::new(),
            events: Vec::new(),
            children: Vec::new(),
        }
    }

    /// Sets an attribute; a later write to the same key wins.
    pub fn attr(self, attr: &str, val: &str) -> (r: ElementNode)
        ensures
            r@ == (ElementV { attrs: spec_set_pair(self@.attrs, attr@, val@), ..self@ }),
    {
        let mut me = self;
        let mut i: usize = 0;
        while i < me.attrs.len()
            invariant
                i <= me.attrs@.len(),
                me == self,
                forall|j: int| 0 <= j < i ==> spec_attrs_view(me.attrs@)[j].0 != attr@,
            decreases me.attrs@.len() - i,
        {
            if str_eq_string(attr, &me.attrs[i].0) {
                let ghost pre = spec_attrs_view(me.attrs@);
                me.attrs[i] = (attr.to_owned(), val.to_owned());
                proof {
                    lemma_set_pair_found(pre, attr@, val@, i as int);
                    assert(spec_attrs_view(me.attrs@) =~= spec_set_pair(pre, attr@, val@));
                    assert(me@ =~= (ElementV {
                        attrs: spec_set_pair(self@.attrs, attr@, val@),
                        ..self@
                    }));
                }
                return me;
            }
            i = i + 1;
        }
        let ghost pre = spec_attrs_view(me.attrs@);
        me.attrs.push((attr.to_owned(), val.to_owned()));
        proof {
            lemma_set_pair_missing(pre, attr@, val@);
            assert(spec_attrs_view(me.attrs@) =~= spec_set_pair(pre, attr@, val@));
            assert(me@ =~= (ElementV {
                attrs: spec_set_pair(self@.attrs, attr@, val@),
                ..self@
            }));
        }
        me
    }

    /// Registers a handler action for an event name; at most one handler per
    /// event name, a later registration winning.
    pub fn on(self, event: &str, action: u64) -> (r: ElementNode)
        ensures
            r@ == (ElementV { events: spec_set_pair(self@.events, event@, action), ..self@ }),
    {
        let mut me = self;
        let mut i: usize = 0;
        while i < me.events.len()
            invariant
                i <= me.events@.len(),
                me == self,
                forall|j: int| 0 <= j < i ==> spec_events_view(me.events@)[j].0 != event@,
            decreases me.events@.len() - i,
        {
            if str_eq_string(event, &me.events[i].0) {
                let ghost pre = spec_events_view(me.events@);
                me.events[i] = (event.to_owned(), action);
                proof {
                    lemma_set_pair_found(pre, event@, action, i as int);
                    assert(spec_events_view(me.events@) =~= spec_set_pair(pre, event@, action));
                    assert(me@ =~= (ElementV {
                        events: spec_set_pair(self@.events, event@, action),
                        ..self@
                    }));
                }
                return me;
            }
            i = i + 1;
        }
        let ghost pre = spec_events_view(me.events@);
        me.events.push((event.to_owned(), action));
        proof {
            lemma_set_pair_missing(pre, event@, action);
            assert(spec_events_view(me.events@) =~= spec_set_pair(pre, event@, action));
            assert(me@ =~= (ElementV {
                events: spec_set_pair(self@.events, event@, action),
                ..self@
            }));
        }
        me
    }

    /// Appends a child node.
    pub fn child(self, node: Node) -> (r: ElementNode)
        ensures
            r@ == (ElementV { children: self@.children.push(node@), ..self@ }),
    {
        let mut me = self;
        me.children.push(node);
        proof {
            broadcast use {lemma_children_view_len, lemma_children_view_index};

            assert(me.children@ == self.children@.push(node));
            assert(spec_children_view(me.children@).len() == me.children@.len());
            assert(spec_children_view(self.children@).len() == self.children@.len());
            assert forall|i: int| 0 <= i < me.children@.len() implies spec_children_view(
                me.children@,
            )[i] == spec_node_view(me.children@[i]) by {
                lemma_children_view_index(me.children@, i);
            }
            assert(me@.children =~= self@.children.push(node@));
            assert(me@ =~= (ElementV { children: self@.children.push(node@), ..self@ }));
        }
        me
    }

    /// Wraps this element as a tree node.
    pub fn into_node(self) -> (r: Node)
        ensures
            r@ == NodeV::Element(self@),
    {
        Node::Element(Box::new(self))
    }
}

/// Read access to a text node's content.
pub trait RenderableText {
    /// The characters the node holds.
    spec fn spec_text(&self) -> Seq<char>;

    /// The node's text.
    fn text(&self) -> (r: &str)
        ensures
            r@ == self.spec_text(),
    ;
}

impl RenderableText for TextNode {
    open spec fn spec_text(&self) -> Seq<char> {
        self.0@
    }

    fn text(&self) -> (r: &str)
        ensures
            r@ == self.spec_text(),
    {
        self.0.as_str()
    }
}

/// Whether two owned strings hold the same characters.
pub fn string_eq(a: &String, b: &String) -> (r: bool)
    ensures
        r == (a@ == b@),
{
    String::eq(a, b)
}

/// Whether a string slice and an owned string hold the same characters.
pub fn str_eq_string(a: &str, b: &String) -> (r: bool)
    ensures
        r == (a@ == b@),
{
    let av = crate::text::str_to_chars(a);
    let bv = crate::text::str_to_chars(b.as_str());
    chars_eq(&av, &bv)
}

/// Whether two character vectors hold the same characters.
pub fn chars_eq(a: &Vec<char>, b: &Vec<char>) -> (r: bool)
    ensures
        r == (a@ == b@),
{
    if a.len() != b.len() {
        proof {
            assert(a@.len() != b@.len());
        }
        return false;
    }
    let mut i: usize = 0;
    while i < a.len()
        invariant
            i <= a@.len(),
            a@.len() == b@.len(),
            forall|j: int| 0 <= j < i ==> a@[j] == b@[j],
        decreases a@.len() - i,
    {
        if a[i] != b[i] {
            return false;
        }
        i = i + 1;
    }
    proof {
        assert(a@ =~= b@);
    }
    true
}

/// A deep copy of a node; the copy has the same mathematical value, element
/// identities included.
pub fn clone_node(n: &Node) -> (r: Node)
    ensures
        r@ == n@,
    decreases spec_node_height(*n),
{
    match n {
        Node::Text(t) => Node::Text(Box::new(TextNode(t.0.clone()))),
        Node::ViewRef(v) => Node::ViewRef(Box::new(ViewRef { order: v.order })),
        Node::Element(e) => {
            proof {
                assert(spec_node_height(*n) == 1 + spec_element_height(**e));
            }
            let mut attrs: Vec<(String, String)> = Vec::new();
            let mut i: usize = 0;
            while i < e.attrs.len()
                invariant
                    i <= e.attrs@.len(),
                    attrs@.len() == i,
                    forall|j: int|
                        0 <= j < i ==> (attrs@[j].0@, attrs@[j].1@) == (
                        e.attrs@[j].0@,
                        e.attrs@[j].1@,
                        ),
                decreases e.attrs@.len() - i,
            {
                attrs.push((e.attrs[i].0.clone(), e.attrs[i].1.clone()));
                i = i + 1;
            }
            let mut events: Vec<(String, u64)> = Vec::new();
            let mut i: usize = 0;
            while i < e.events.len()
                invariant
                    i <= e.events@.len(),
                    events@.len() == i,
                    forall|j: int|
                        0 <= j < i ==> (events@[j].0@, events@[j].1) == (
                        e.events@[j].0@,
                        e.events@[j].1,
                        ),
                decreases e.events@.len() - i,
            {
                events.push((e.events[i].0.clone(), e.events[i].1));
                i = i + 1;
            }
            let mut children: Vec<Node> = Vec::new();
            let mut i: usize = 0;
            while i < e.children.len()
                invariant
                    i <= e.children@.len(),
                    children@.len() == i,
                    spec_node_height(*n) == 1 + spec_element_height(**e),
                    forall|j: int| 0 <= j < i ==> children@[j]@ == e.children@[j]@,
                decreases e.children@.len() - i,
            {
                proof {
                    lemma_child_height_le(e.children@, i as int);
                    assert(spec_children_height(e.children@) == spec_element_height(**e));
                    assert(spec_node_height(*n) == 1 + spec_element_height(**e));
                    assert(spec_node_height(e.children@[i as int]) < spec_node_height(*n));
                }
                let c = clone_node(&e.children[i]);
                children.push(c);
                i = i + 1;
            }
            let out = ElementNode { id: e.id, tag: e.tag.clone(), attrs, events, children };
            proof {
                broadcast use {lemma_children_view_len, lemma_children_view_index};

                assert(spec_attrs_view(out.attrs@) =~= spec_attrs_view(e.attrs@));
                assert(spec_events_view(out.events@) =~= spec_events_view(e.events@));
                assert(spec_children_view(out.children@) =~= spec_children_view(e.children@));
                assert(out@ =~= (**e)@);
            }
            Node::Element(Box::new(out))
        },
    }
}

impl Clone for Node {
    fn clone(&self) -> (r: Self)
        ensures
            r@ == self@,
    {
        clone_node(self)
    }
}

} // verus!
