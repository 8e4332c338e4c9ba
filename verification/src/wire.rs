//! The outbound wire format: each patch as a tagged record with a
//! discriminator field, addressed by a selector derived from the node or
//! context identity, serialized as JSON text.

use vstd::prelude::*;
use crate::context::{Context, RenderableView, spec_markup_node, spec_markup_children};
use crate::diff::{NodePatch, NodePatchV};
use crate::ident::{id_chars, spec_id_chars};
use crate::node::{lemma_children_view_index, lemma_children_view_len, spec_children_view};
use crate::text::{append_chars, append_json_escaped, append_str, chars_to_string, spec_json_escape};

verus! {

/// One outbound patch, in wire shape.
pub enum Patch {
    ReplaceInner { selector: String, html: String },
    ReplaceOuter { selector: String, html: String },
    SetAttribute { selector: String, name: String, value: String },
    RemoveAttribute { selector: String, name: String },
    ReplaceChild { selector: String, index: usize, html: String },
    AttachEvent { selector: String, event: String },
    DetachEvent { selector: String, event: String },
    Batch { patches: Vec<Patch> },
}

/// The mathematical value of a wire patch.
#[verifier::ext_equal]
pub enum PatchV {
    ReplaceInner { selector: Seq<char>, html: Seq<char> },
    ReplaceOuter { selector: Seq<char>, html: Seq<char> },
    SetAttribute { selector: Seq<char>, name: Seq<char>, value: Seq<char> },
    RemoveAttribute { selector: Seq<char>, name: Seq<char> },
    ReplaceChild { selector: Seq<char>, index: int, html: Seq<char> },
    AttachEvent { selector: Seq<char>, event: Seq<char> },
    DetachEvent { selector: Seq<char>, event: Seq<char> },
    Batch { patches: Seq<PatchV> },
}

pub open spec fn spec_patch_view(p: Patch) -> PatchV
    decreases p, 0int,
{
    match p {
        Patch::ReplaceInner { selector, html } => PatchV::ReplaceInner {
            selector: selector@,
            html: html@,
        },
        Patch::ReplaceOuter { selector, html } => PatchV::ReplaceOuter {
            selector: selector@,
            html: html@,
        },
        Patch::SetAttribute { selector, name, value } => PatchV::SetAttribute {
            selector: selector@,
            name: name@,
            value: value@,
        },
        Patch::RemoveAttribute { selector, name } => PatchV::RemoveAttribute {
            selector: selector@,
            name: name@,
        },
        Patch::ReplaceChild { selector, index, html } => PatchV::ReplaceChild {
            selector: selector@,
            index: index as int,
            html: html@,
        },
        Patch::AttachEvent { selector, event } => PatchV::AttachEvent {
            selector: selector@,
            event: event@,
        },
        Patch::DetachEvent { selector, event } => PatchV::DetachEvent {
            selector: selector@,
            event: event@,
        },
        Patch::Batch { patches } => PatchV::Batch { patches: spec_wire_list_view(patches@) },
    }
}

pub open spec fn spec_wire_list_view(s: Seq<Patch>) -> Seq<PatchV>
    decreases s, 0int,
    via spec_wire_list_view_decreases
{
    if s.len() == 0 {
        Seq::empty()
    } else {
        seq![spec_patch_view(s.first())] + spec_wire_list_view(s.drop_first())
    }
}

#[via_fn]
proof fn spec_wire_list_view_decreases(s: Seq<Patch>) {
    broadcast use vstd::seq::axiom_seq_index_decreases;
    broadcast use vstd::seq::axiom_seq_subrange_decreases;

    if s.len() > 0 {
        assert(decreases_to!(s => s[0]));
        assert(s.drop_first() == s.subrange(1, s.len() as int));
        assert(decreases_to!(s => s.subrange(1, s.len() as int)));
    }
}

/// The wire list view is the patch view taken pointwise.
pub broadcast proof fn lemma_wire_list_view_len(s: Seq<Patch>)
    ensures
        #[trigger] spec_wire_list_view(s).len() == s.len(),
    decreases s.len(),
{
    if s.len() > 0 {
        lemma_wire_list_view_len(s.drop_first());
    }
}

/// Each position of the wire list view is the view of the patch there.
pub broadcast proof fn lemma_wire_list_view_index(s: Seq<Patch>, i: int)
    requires
        0 <= i < s.len(),
    ensures
        #[trigger] spec_wire_list_view(s)[i] == spec_patch_view(s[i]),
    decreases s.len(),
{
    lemma_wire_list_view_len(s);
    if i > 0 {
        lemma_wire_list_view_index(s.drop_first(), i - 1);
    } else {
        lemma_wire_list_view_len(s.drop_first());
    }
}

impl View for Patch {
    type V = PatchV;

    open spec fn view(&self) -> PatchV {
        spec_patch_view(*self)
    }
}

/// The selector addressing a context's wrapper element by its identity.
pub open spec fn spec_view_selector(id: u128) -> Seq<char> {
    "bv-view[data-view=\""@ + spec_id_chars(id) + "\"]"@
}

/// The selector addressing an element by its identity.
pub open spec fn spec_node_selector(id: u128) -> Seq<char> {
    "[data-id=\""@ + spec_id_chars(id) + "\"]"@
}

/// Builds the context selector text.
pub fn view_selector(id: u128) -> (r: String)
    ensures
        r@ == spec_view_selector(id),
{
    let mut out: Vec<char> = Vec::new();
    append_str(&mut out, "bv-view[data-view=\"");
    let idc = id_chars(id);
    append_chars(&mut out, &idc);
    append_str(&mut out, "\"]");
    chars_to_string(&out)
}

/// Builds the element selector text.
pub fn node_selector(id: u128) -> (r: String)
    ensures
        r@ == spec_node_selector(id),
{
    let mut out: Vec<char> = Vec::new();
    append_str(&mut out, "[data-id=\"");
    let idc = id_chars(id);
    append_chars(&mut out, &idc);
    append_str(&mut out, "\"]");
    chars_to_string(&out)
}

/// The decimal digit characters of a number, most significant first.
pub open spec fn spec_dec_chars(n: int) -> Seq<char>
    decreases n,
{
    if n < 10 {
        seq![crate::ident::spec_hex_digit((if n < 0 {
            0int
        } else {
            n
        }) as u128)]
    } else {
        spec_dec_chars(n / 10) + seq![crate::ident::spec_hex_digit((n % 10) as u128)]
    }
}

fn dec_chars(n: usize) -> (r: Vec<char>)
    ensures
        r@ == spec_dec_chars(n as int),
    decreases n,
{
    if n < 10 {
        let d = crate::ident::hex_digit_u32(n as u32);
        let mut v: Vec<char> = Vec::new();
        v.push(d);
        proof {
            assert(v@ =~= spec_dec_chars(n as int));
        }
        v
    } else {
        let mut v = dec_chars(n / 10);
        let d = crate::ident::hex_digit_u32((n % 10) as u32);
        v.push(d);
        proof {
            assert(v@ =~= spec_dec_chars(n as int));
        }
        v
    }
}

/// The discriminator of each wire variant.
pub open spec fn spec_patch_tag(p: PatchV) -> Seq<char> {
    match p {
        PatchV::ReplaceInner { .. } => "ReplaceInner"@,
        PatchV::ReplaceOuter { .. } => "ReplaceOuter"@,
        PatchV::SetAttribute { .. } => "SetAttribute"@,
        PatchV::RemoveAttribute { .. } => "RemoveAttribute"@,
        PatchV::ReplaceChild { .. } => "ReplaceChild"@,
        PatchV::AttachEvent { .. } => "AttachEvent"@,
        PatchV::DetachEvent { .. } => "DetachEvent"@,
        PatchV::Batch { .. } => "Batch"@,
    }
}

/// A JSON string field: `"name":"escaped value"`.
pub open spec fn spec_json_str_field(name: Seq<char>, v: Seq<char>) -> Seq<char> {
    seq!['"'] + name + "\":\""@ + spec_json_escape(v) + seq!['"']
}

/// The JSON text of one wire patch: a record whose first field is the
/// discriminator `type`, the remaining fields as the variant carries them.
pub open spec fn spec_patch_json(p: PatchV) -> Seq<char>
    decreases p, 0int,
    via spec_patch_json_decreases
{
    "{\"type\":\""@ + spec_patch_tag(p) + seq!['"'] + (match p {
        PatchV::ReplaceInner { selector, html } => seq![','] + spec_json_str_field(
            "selector"@,
            selector,
        ) + seq![','] + spec_json_str_field("html"@, html),
        PatchV::ReplaceOuter { selector, html } => seq![','] + spec_json_str_field(
            "selector"@,
            selector,
        ) + seq![','] + spec_json_str_field("html"@, html),
        PatchV::SetAttribute { selector, name, value } => seq![','] + spec_json_str_field(
            "selector"@,
            selector,
        ) + seq![','] + spec_json_str_field("name"@, name) + seq![','] + spec_json_str_field(
            "value"@,
            value,
        ),
        PatchV::RemoveAttribute { selector, name } => seq![','] + spec_json_str_field(
            "selector"@,
            selector,
        ) + seq![','] + spec_json_str_field("name"@, name),
        PatchV::ReplaceChild { selector, index, html } => seq![','] + spec_json_str_field(
            "selector"@,
            selector,
        ) + ",\"index\":"@ + spec_dec_chars(index) + seq![','] + spec_json_str_field(
            "html"@,
            html,
        ),
        PatchV::AttachEvent { selector, event } => seq![','] + spec_json_str_field(
            "selector"@,
            selector,
        ) + seq![','] + spec_json_str_field("event"@, event),
        PatchV::DetachEvent { selector, event } => seq![','] + spec_json_str_field(
            "selector"@,
            selector,
        ) + seq![','] + spec_json_str_field("event"@, event),
        PatchV::Batch { patches } => ",\"patches\":["@ + spec_patch_list_json(
            patches,
            patches.len() as int,
        ) + seq![']'],
    }) + seq!['}']
}

#[via_fn]
proof fn spec_patch_json_decreases(p: PatchV) {
    if p is Batch {
        let ps = p->Batch_patches;
        assert(decreases_to!(p => ps));
    }
}

/// The comma-joined JSON of the first `k` patches of a batch.
pub open spec fn spec_patch_list_json(s: Seq<PatchV>, k: int) -> Seq<char>
    decreases s, k,
    via spec_patch_list_json_decreases
{
    if k <= 0 || k > s.len() {
        Seq::empty()
    } else if k == 1 {
        spec_patch_json(s[0])
    } else {
        spec_patch_list_json(s, k - 1) + seq![','] + spec_patch_json(s[k - 1])
    }
}

#[via_fn]
proof fn spec_patch_list_json_decreases(s: Seq<PatchV>, k: int) {
    broadcast use vstd::seq::axiom_seq_index_decreases;

    if 0 < k <= s.len() {
        assert(decreases_to!(s => s[0]));
        assert(decreases_to!(s => s[k - 1]));
    }
}

fn append_json_str_field(out: &mut Vec<char>, name: &str, v: &String)
    ensures
        final(out)@ == old(out)@ + spec_json_str_field(name@, v@),
{
    out.push('"');
    append_str(out, name);
    append_str(out, "\":\"");
    let vc = crate::text::str_to_chars(v.as_str());
    append_json_escaped(out, &vc);
    out.push('"');
    proof {
        assert(final(out)@ =~= old(out)@ + spec_json_str_field(name@, v@));
    }
}

impl Patch {
    /// Serializes this patch to its JSON wire text.
    pub fn to_json(&self) -> (r: String)
        ensures
            r@ == spec_patch_json(self@),
    {
        let mut out: Vec<char> = Vec::new();
        self.append_json(&mut out);
        chars_to_string(&out)
    }

    /// Appends this patch's JSON wire text.
    #[verifier::loop_isolation(false)]
    #[verifier::rlimit(60)]
    fn append_json(&self, out: &mut Vec<char>)
        ensures
            final(out)@ == old(out)@ + spec_patch_json(self@),
        decreases *self, 1int,
    {
        append_str(out, "{\"type\":\"");
        match self {
            Patch::ReplaceInner { selector, html } => {
                append_str(out, "ReplaceInner");
                out.push('"');
                out.push(',');
                append_json_str_field(out, "selector", selector);
                out.push(',');
                append_json_str_field(out, "html", html);
            },
            Patch::ReplaceOuter { selector, html } => {
                append_str(out, "ReplaceOuter");
                out.push('"');
                out.push(',');
                append_json_str_field(out, "selector", selector);
                out.push(',');
                append_json_str_field(out, "html", html);
            },
            Patch::SetAttribute { selector, name, value } => {
                append_str(out, "SetAttribute");
                out.push('"');
                out.push(',');
                append_json_str_field(out, "selector", selector);
                out.push(',');
                append_json_str_field(out, "name", name);
                out.push(',');
                append_json_str_field(out, "value", value);
            },
            Patch::RemoveAttribute { selector, name } => {
                append_str(out, "RemoveAttribute");
                out.push('"');
                out.push(',');
                append_json_str_field(out, "selector", selector);
                out.push(',');
                append_json_str_field(out, "name", name);
            },
            Patch::ReplaceChild { selector, index, html } => {
                append_str(out, "ReplaceChild");
                out.push('"');
                out.push(',');
                append_json_str_field(out, "selector", selector);
                append_str(out, ",\"index\":");
                let dc = dec_chars(*index);
                append_chars(out, &dc);
                out.push(',');
                append_json_str_field(out, "html", html);
            },
            Patch::AttachEvent { selector, event } => {
                append_str(out, "AttachEvent");
                out.push('"');
                out.push(',');
                append_json_str_field(out, "selector", selector);
                out.push(',');
                append_json_str_field(out, "event", event);
            },
            Patch::DetachEvent { selector, event } => {
                append_str(out, "DetachEvent");
                out.push('"');
                out.push(',');
                append_json_str_field(out, "selector", selector);
                out.push(',');
                append_json_str_field(out, "event", event);
            },
            Patch::Batch { patches } => {
                append_str(out, "Batch");
                out.push('"');
                append_str(out, ",\"patches\":[");
                let ghost base = out@;
                let mut i: usize = 0;
                while i < patches.len()
                    invariant
                        i <= patches@.len(),
                        out@ == base + spec_patch_list_json(
                            spec_wire_list_view(patches@),
                            i as int,
                        ),
                    decreases patches@.len() - i,
                {
                    proof {
                        broadcast use {lemma_wire_list_view_len, lemma_wire_list_view_index};
                        broadcast use vstd::seq::axiom_seq_index_decreases;

                        assert(decreases_to!(*self => *patches));
                        assert(decreases_to!(*patches => patches@));
                        assert(decreases_to!(patches@ => patches@[i as int]));
                    }
                    if i > 0 {
                        out.push(',');
                    }
                    patches[i].append_json(out);
                    proof {
                        broadcast use {lemma_wire_list_view_len, lemma_wire_list_view_index};

                        assert(out@ =~= base + spec_patch_list_json(
                            spec_wire_list_view(patches@),
                            i + 1,
                        ));
                    }
                    i = i + 1;
                }
                out.push(']');
                proof {
                    broadcast use lemma_wire_list_view_len;
                }
            },
        }
        out.push('}');
        proof {
            assert(final(out)@ =~= old(out)@ + spec_patch_json(self@));
        }
    }
}

/// The variant of a wire patch, as a small ordinal.
pub open spec fn spec_patch_kind(p: PatchV) -> int {
    match p {
        PatchV::ReplaceInner { .. } => 0,
        PatchV::ReplaceOuter { .. } => 1,
        PatchV::SetAttribute { .. } => 2,
        PatchV::RemoveAttribute { .. } => 3,
        PatchV::ReplaceChild { .. } => 4,
        PatchV::AttachEvent { .. } => 5,
        PatchV::DetachEvent { .. } => 6,
        PatchV::Batch { .. } => 7,
    }
}

/// The characters of `s` from position `i` up to the first quote.
pub open spec fn spec_tag_scan(s: Seq<char>, i: int) -> Seq<char>
    decreases s.len() - i,
{
    if i < 0 || i >= s.len() || s[i] == '"' {
        Seq::empty()
    } else {
        seq![s[i]] + spec_tag_scan(s, i + 1)
    }
}

/// The discriminator read back from a wire text: the characters after the
/// nine-character record opening, up to the closing quote.
pub open spec fn spec_wire_tag(s: Seq<char>) -> Seq<char> {
    spec_tag_scan(s, 9)
}

/// Scanning a quote-free run between a prefix and a quote reads the run.
proof fn lemma_tag_scan(a: Seq<char>, t: Seq<char>, r: Seq<char>)
    requires
        forall|j: int| 0 <= j < t.len() ==> t[j] != '"',
    ensures
        spec_tag_scan(a + t + seq!['"'] + r, a.len() as int) == t,
    decreases t.len(),
{
    let s = a + t + seq!['"'] + r;
    if t.len() == 0 {
        assert(s[a.len() as int] == '"');
    } else {
        assert(s[a.len() as int] == t[0]);
        let a2 = a + seq![t[0]];
        assert(a2 + t.drop_first() + seq!['"'] + r =~= s);
        lemma_tag_scan(a2, t.drop_first(), r);
        assert(spec_tag_scan(s, a.len() as int) =~= seq![t[0]] + spec_tag_scan(
            s,
            a.len() + 1int,
        ));
        assert(seq![t[0]] + t.drop_first() =~= t);
    }
}

/// Round trip of the discriminator: reading the wire text of any patch back
/// recovers exactly that patch's discriminator.
pub proof fn lemma_wire_discriminator(p: PatchV)
    ensures
        spec_wire_tag(spec_patch_json(p)) == spec_patch_tag(p),
{
    reveal_strlit("{\"type\":\"");
    reveal_strlit("ReplaceInner");
    reveal_strlit("ReplaceOuter");
    reveal_strlit("SetAttribute");
    reveal_strlit("RemoveAttribute");
    reveal_strlit("ReplaceChild");
    reveal_strlit("AttachEvent");
    reveal_strlit("DetachEvent");
    reveal_strlit("Batch");
    let a = "{\"type\":\""@;
    let t = spec_patch_tag(p);
    assert(a.len() == 9);
    assert(forall|j: int| 0 <= j < t.len() ==> t[j] != '"');
    let rest = (match p {
        PatchV::ReplaceInner { selector, html } => seq![','] + spec_json_str_field(
            "selector"@,
            selector,
        ) + seq![','] + spec_json_str_field("html"@, html),
        PatchV::ReplaceOuter { selector, html } => seq![','] + spec_json_str_field(
            "selector"@,
            selector,
        ) + seq![','] + spec_json_str_field("html"@, html),
        PatchV::SetAttribute { selector, name, value } => seq![','] + spec_json_str_field(
            "selector"@,
            selector,
        ) + seq![','] + spec_json_str_field("name"@, name) + seq![','] + spec_json_str_field(
            "value"@,
            value,
        ),
        PatchV::RemoveAttribute { selector, name } => seq![','] + spec_json_str_field(
            "selector"@,
            selector,
        ) + seq![','] + spec_json_str_field("name"@, name),
        PatchV::ReplaceChild { selector, index, html } => seq![','] + spec_json_str_field(
            "selector"@,
            selector,
        ) + ",\"index\":"@ + spec_dec_chars(index) + seq![','] + spec_json_str_field(
            "html"@,
            html,
        ),
        PatchV::AttachEvent { selector, event } => seq![','] + spec_json_str_field(
            "selector"@,
            selector,
        ) + seq![','] + spec_json_str_field("event"@, event),
        PatchV::DetachEvent { selector, event } => seq![','] + spec_json_str_field(
            "selector"@,
            selector,
        ) + seq![','] + spec_json_str_field("event"@, event),
        PatchV::Batch { patches } => ",\"patches\":["@ + spec_patch_list_json(
            patches,
            patches.len() as int,
        ) + seq![']'],
    }) + seq!['}'];
    assert(spec_patch_json(p) =~= a + t + seq!['"'] + rest);
    lemma_tag_scan(a, t, rest);
}

/// Every patch serializes to a wire form whose discriminator alone settles
/// which variant it was: two patches' wire texts read back the same
/// discriminator exactly when they are of the same variant.
pub proof fn lemma_discriminator_distinguishes(p1: PatchV, p2: PatchV)
    ensures
        (spec_wire_tag(spec_patch_json(p1)) == spec_wire_tag(spec_patch_json(p2)))
            <==> spec_patch_kind(p1) == spec_patch_kind(p2),
{
    lemma_wire_discriminator(p1);
    lemma_wire_discriminator(p2);
    reveal_strlit("ReplaceInner");
    reveal_strlit("ReplaceOuter");
    reveal_strlit("SetAttribute");
    reveal_strlit("RemoveAttribute");
    reveal_strlit("ReplaceChild");
    reveal_strlit("AttachEvent");
    reveal_strlit("DetachEvent");
    reveal_strlit("Batch");
    assert("ReplaceInner"@[7] != "ReplaceOuter"@[7]);
    assert("ReplaceInner"@[0] != "SetAttribute"@[0]);
    assert("ReplaceInner"@[7] != "ReplaceChild"@[7]);
    assert("ReplaceOuter"@[0] != "SetAttribute"@[0]);
    assert("ReplaceOuter"@[7] != "ReplaceChild"@[7]);
    assert("SetAttribute"@[0] != "ReplaceChild"@[0]);
    assert("AttachEvent"@[0] != "DetachEvent"@[0]);
}

/// The wire patch a tree patch becomes: the selector is derived from the
/// addressed identity, and any carried nodes are rendered to markup through
/// the owning context.
pub open spec fn spec_translate<V: RenderableView>(cx: Context<V>, p: NodePatchV) -> PatchV {
    match p {
        NodePatchV::ReplaceViewChildren { view_id, children } => PatchV::ReplaceInner {
            selector: spec_view_selector(view_id),
            html: spec_markup_children(cx, children, children.len() as int),
        },
        NodePatchV::ReplaceChildren { node_id, children } => PatchV::ReplaceInner {
            selector: spec_node_selector(node_id),
            html: spec_markup_children(cx, children, children.len() as int),
        },
        NodePatchV::ReplaceChild { node_id, child_idx, node } => PatchV::ReplaceChild {
            selector: spec_node_selector(node_id),
            index: child_idx,
            html: spec_markup_node(cx, node),
        },
        NodePatchV::Replace { node_id, node } => PatchV::ReplaceOuter {
            selector: spec_node_selector(node_id),
            html: spec_markup_node(cx, node),
        },
        NodePatchV::SetAttr { node_id, attr, value } => PatchV::SetAttribute {
            selector: spec_node_selector(node_id),
            name: attr,
            value: value,
        },
        NodePatchV::RemoveAttr { node_id, attr } => PatchV::RemoveAttribute {
            selector: spec_node_selector(node_id),
            name: attr,
        },
        NodePatchV::AttachEvent { node_id, event } => PatchV::AttachEvent {
            selector: spec_node_selector(node_id),
            event: event,
        },
        NodePatchV::DetachEvent { node_id, event } => PatchV::DetachEvent {
            selector: spec_node_selector(node_id),
            event: event,
        },
    }
}

/// Renders a node list to one markup string through the owning context.
#[verifier::loop_isolation(false)]
fn children_html<V: RenderableView>(cx: &Context<V>, children: &Vec<crate::node::Node>) -> (r:
    String)
    ensures
        r@ == spec_markup_children(
            *cx,
            spec_children_view(children@),
            children@.len() as int,
        ),
{
    let mut out: Vec<char> = Vec::new();
    let mut i: usize = 0;
    while i < children.len()
        invariant
            i <= children@.len(),
            out@ == spec_markup_children(*cx, spec_children_view(children@), i as int),
        decreases children@.len() - i,
    {
        let s = cx.render_node_to_string(&children[i]);
        append_str(&mut out, s.as_str());
        proof {
            broadcast use {lemma_children_view_len, lemma_children_view_index};

            assert(out@ =~= spec_markup_children(
                *cx,
                spec_children_view(children@),
                i + 1,
            ));
        }
        i = i + 1;
    }
    proof {
        broadcast use lemma_children_view_len;
    }
    chars_to_string(&out)
}

/// Translates one tree patch into its wire form.
pub fn translate_patch<V: RenderableView>(cx: &Context<V>, p: &NodePatch) -> (r: Patch)
    ensures
        r@ == spec_translate(*cx, p@),
{
    let r = match p {
        NodePatch::ReplaceViewChildren { view_id, children } => Patch::ReplaceInner {
            selector: view_selector(*view_id),
            html: children_html(cx, children),
        },
        NodePatch::ReplaceChildren { node_id, children } => Patch::ReplaceInner {
            selector: node_selector(*node_id),
            html: children_html(cx, children),
        },
        NodePatch::ReplaceChild { node_id, child_idx, node } => Patch::ReplaceChild {
            selector: node_selector(*node_id),
            index: *child_idx,
            html: cx.render_node_to_string(node),
        },
        NodePatch::Replace { node_id, node } => Patch::ReplaceOuter {
            selector: node_selector(*node_id),
            html: cx.render_node_to_string(node),
        },
        NodePatch::SetAttr { node_id, attr, value } => Patch::SetAttribute {
            selector: node_selector(*node_id),
            name: attr.clone(),
            value: value.clone(),
        },
        NodePatch::RemoveAttr { node_id, attr } => Patch::RemoveAttribute {
            selector: node_selector(*node_id),
            name: attr.clone(),
        },
        NodePatch::AttachEvent { node_id, event } => Patch::AttachEvent {
            selector: node_selector(*node_id),
            event: event.clone(),
        },
        NodePatch::DetachEvent { node_id, event } => Patch::DetachEvent {
            selector: node_selector(*node_id),
            event: event.clone(),
        },
    };
    proof {
        broadcast use lemma_children_view_len;
    }
    r
}

/// Translates a whole patch list, in order.
#[verifier::loop_isolation(false)]
pub fn translate_patches<V: RenderableView>(cx: &Context<V>, ps: &Vec<NodePatch>) -> (r: Vec<
    Patch,
>)
    ensures
        r@.len() == ps@.len(),
        forall|i: int| 0 <= i < ps@.len() ==> r@[i]@ == spec_translate(*cx, ps@[i]@),
{
    let mut out: Vec<Patch> = Vec::new();
    let mut i: usize = 0;
    while i < ps.len()
        invariant
            i <= ps@.len(),
            out@.len() == i,
            forall|j: int| 0 <= j < i ==> out@[j]@ == spec_translate(*cx, ps@[j]@),
        decreases ps@.len() - i,
    {
        let w = translate_patch(cx, &ps[i]);
        out.push(w);
        i = i + 1;
    }
    out
}

} // verus!
