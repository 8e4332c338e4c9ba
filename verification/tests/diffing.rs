use blastview::diff::{diff, NodePatch};
use blastview::node::{clone_node, Node};

#[test]
fn diff_of_identical_copy_is_empty() {
    let old = Node::new("div")
        .attr("class", "a")
        .attr("id", "x")
        .on("click", 1)
        .child(Node::text("x").into_node())
        .child(Node::new("span").child(Node::text("y").into_node()).into_node())
        .into_node();
    let copy = clone_node(&old);
    let patches = diff(&old, &copy, 7, 0);
    assert!(patches.is_empty());
}

#[test]
fn diff_attribute_and_text_changes() {
    let old = Node::new("div")
        .attr("class", "a")
        .child(Node::text("x").into_node())
        .into_node();
    let new = Node::new("div")
        .attr("class", "b")
        .child(Node::text("y").into_node())
        .into_node();
    let patches = diff(&old, &new, 0, 0);
    assert_eq!(patches.len(), 2);
    match &patches[0] {
        NodePatch::SetAttr { attr, value, .. } => {
            assert_eq!(attr, "class");
            assert_eq!(value, "b");
        }
        other => panic!("expected a set-attribute patch, got {}", patch_name(other)),
    }
    match &patches[1] {
        NodePatch::ReplaceChild { child_idx, node, .. } => {
            assert_eq!(*child_idx, 0);
            match node {
                Node::Text(t) => assert_eq!(t.0, "y"),
                _ => panic!("expected a text node"),
            }
        }
        other => panic!(
            "expected a replace-indexed-child patch, got {}",
            patch_name(other)
        ),
    }
}

#[test]
fn diff_text_change_carries_its_child_position() {
    let old = Node::new("div")
        .child(Node::text("a").into_node())
        .child(Node::text("b").into_node())
        .into_node();
    let new = Node::new("div")
        .child(Node::text("a").into_node())
        .child(Node::text("c").into_node())
        .into_node();
    let patches = diff(&old, &new, 0, 0);
    assert_eq!(patches.len(), 1);
    match &patches[0] {
        NodePatch::ReplaceChild { child_idx, node, .. } => {
            assert_eq!(*child_idx, 1);
            match node {
                Node::Text(t) => assert_eq!(t.0, "c"),
                _ => panic!("expected a text node"),
            }
        }
        other => panic!(
            "expected a replace-indexed-child patch, got {}",
            patch_name(other)
        ),
    }
}

#[test]
fn diff_tag_change_is_a_single_replace() {
    let old = Node::new("div")
        .attr("class", "a")
        .child(Node::text("x").into_node())
        .into_node();
    let new = Node::new("span")
        .attr("class", "b")
        .child(Node::text("y").into_node())
        .into_node();
    let patches = diff(&old, &new, 0, 0);
    assert_eq!(patches.len(), 1);
    match &patches[0] {
        NodePatch::Replace { node, .. } => match node {
            Node::Element(e) => assert_eq!(e.tag, "span"),
            _ => panic!("expected an element"),
        },
        other => panic!(
            "expected a replace-outer patch, got {}",
            patch_name(other)
        ),
    }
}

#[test]
fn diff_attribute_removal_and_addition() {
    let old = Node::new("div").attr("a", "1").attr("b", "2").into_node();
    let new = Node::new("div").attr("b", "2").attr("c", "3").into_node();
    let patches = diff(&old, &new, 0, 0);
    assert_eq!(patches.len(), 2);
    assert!(matches!(&patches[0], NodePatch::RemoveAttr { attr, .. } if attr == "a"));
    assert!(
        matches!(&patches[1], NodePatch::SetAttr { attr, value, .. } if attr == "c" && value == "3")
    );
}

#[test]
fn diff_event_attach_and_detach() {
    let old = Node::new("div").on("click", 1).on("hover", 2).into_node();
    let new = Node::new("div").on("hover", 2).on("focus", 3).into_node();
    let patches = diff(&old, &new, 0, 0);
    assert_eq!(patches.len(), 2);
    assert!(matches!(&patches[0], NodePatch::DetachEvent { event, .. } if event == "click"));
    assert!(matches!(&patches[1], NodePatch::AttachEvent { event, .. } if event == "focus"));
}

#[test]
fn diff_does_not_visit_extra_children() {
    let old = Node::new("div").child(Node::text("x").into_node()).into_node();
    let new = Node::new("div")
        .child(Node::text("x").into_node())
        .child(Node::text("extra").into_node())
        .into_node();
    let patches = diff(&old, &new, 0, 0);
    assert!(patches.is_empty());
}

fn patch_name(p: &NodePatch) -> &'static str {
    match p {
        NodePatch::ReplaceChildren { .. } => "replace-children",
        NodePatch::ReplaceViewChildren { .. } => "replace-view-children",
        NodePatch::ReplaceChild { .. } => "replace-child",
        NodePatch::Replace { .. } => "replace",
        NodePatch::SetAttr { .. } => "set-attr",
        NodePatch::RemoveAttr { .. } => "remove-attr",
        NodePatch::AttachEvent { .. } => "attach-event",
        NodePatch::DetachEvent { .. } => "detach-event",
    }
}
