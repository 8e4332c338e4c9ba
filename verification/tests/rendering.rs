use blastview::context::{Context, RenderableView, ViewContext};
use blastview::node::Node;
use blastview::queue::RenderingQueue;

struct MyView;

impl RenderableView for MyView {
    fn render(&self, _cx: &mut ViewContext) -> Node {
        Node::new("div")
            .attr("class", "container")
            .child(Node::text("Hello world!").into_node())
            .into_node()
    }

    fn child(&self, _ordinal: usize, _cx: &ViewContext) -> Self {
        MyView
    }

    fn on_event(&self, _action: u64, _cx: &mut ViewContext) {}
}

#[test]
fn view_rendering_works() {
    let mut queue = RenderingQueue::new();
    let mut context = Context::new(MyView);
    let _ = context.render(&mut queue);
    let html = context.last_render_to_string().unwrap();
    assert_eq!(html, r#"<div class="container">Hello world!</div>"#);
}

struct Escapes;

impl RenderableView for Escapes {
    fn render(&self, _cx: &mut ViewContext) -> Node {
        Node::new("p")
            .attr("title", "a\"b&c")
            .child(Node::text("1 < 2 & 3 > 2").into_node())
            .into_node()
    }

    fn child(&self, _ordinal: usize, _cx: &ViewContext) -> Self {
        Escapes
    }

    fn on_event(&self, _action: u64, _cx: &mut ViewContext) {}
}

#[test]
fn text_and_attributes_are_escaped() {
    let mut queue = RenderingQueue::new();
    let mut context = Context::new(Escapes);
    let _ = context.render(&mut queue);
    let html = context.last_render_to_string().unwrap();
    assert_eq!(
        html,
        r#"<p title="a&quot;b&amp;c">1 &lt; 2 &amp; 3 &gt; 2</p>"#
    );
}

struct WithEvents;

impl RenderableView for WithEvents {
    fn render(&self, _cx: &mut ViewContext) -> Node {
        Node::new("button").on("click", 1).on("hover", 2).into_node()
    }

    fn child(&self, _ordinal: usize, _cx: &ViewContext) -> Self {
        WithEvents
    }

    fn on_event(&self, _action: u64, _cx: &mut ViewContext) {}
}

#[test]
fn elements_with_handlers_carry_identity_and_event_names() {
    let mut queue = RenderingQueue::new();
    let mut context = Context::new(WithEvents);
    let _ = context.render(&mut queue);
    let html = context.last_render_to_string().unwrap();
    assert!(html.starts_with("<button data-id=\""));
    assert!(html.contains("\" data-events=\"click,hover\">"));
    assert!(html.ends_with("</button>"));
}

#[test]
fn attribute_last_write_wins() {
    let e = Node::new("div").attr("class", "a").attr("class", "b");
    let n = e.into_node();
    let mut queue = RenderingQueue::new();
    let mut context = Context::new(MyView);
    let _ = context.render(&mut queue);
    let html = context.render_node_to_string(&n);
    assert_eq!(html, r#"<div class="b"></div>"#);
}

#[test]
fn memoized_render_returns_no_patches() {
    let mut queue = RenderingQueue::new();
    let mut context = Context::new(MyView);
    let first = context.render(&mut queue);
    assert_eq!(first.len(), 1);
    let second = context.render(&mut queue);
    assert!(second.is_empty());
}
