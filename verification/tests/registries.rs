use blastview::context::{Context, RenderableView, ViewContext};
use blastview::effects::{Effect, EffectRegistry};
use blastview::events::{Event, EventRegistry};
use blastview::node::{Node, RenderableText, TextNode};
use blastview::queue::RenderingQueue;
use blastview::state::StateRegistry;
use blastview::value::StateValue;

#[test]
fn state_registry_update_is_equality_gated() {
    let mut reg = StateRegistry::new();
    reg.register(StateValue::Int(1));
    reg.mark_clean();
    assert!(!reg.is_dirty());

    assert!(!reg.update(0, StateValue::Int(1)));
    assert!(!reg.is_dirty());
    match reg.get(0) {
        Some(StateValue::Int(v)) => assert_eq!(v, 1),
        _ => panic!("expected the stored value"),
    }

    assert!(reg.update(0, StateValue::Int(2)));
    assert!(reg.is_dirty());
    match reg.get(0) {
        Some(StateValue::Int(v)) => assert_eq!(v, 2),
        _ => panic!("expected the new value"),
    }
}

#[test]
fn state_registry_orders_and_clears() {
    let mut reg = StateRegistry::new();
    assert_eq!(reg.get_order(), 0);
    assert_eq!(reg.get_order(), 1);
    reg.reset_order();
    assert_eq!(reg.get_order(), 0);
    reg.register(StateValue::Text("x".to_string()));
    assert_eq!(reg.len(), 1);
    reg.clear();
    assert_eq!(reg.len(), 0);
    assert!(reg.get(0).is_none());
}

#[test]
fn effect_registry_gates_on_fingerprints() {
    let mut reg = EffectRegistry::new();
    reg.register(Effect::new(&vec![1u64]));
    assert!(!reg.update_deps(0, &vec![1u64]));
    assert!(reg.update_deps(0, &vec![2u64]));
    assert!(!reg.update_deps(0, &vec![2u64]));
    assert!(reg.get(0).is_some());
    assert!(reg.get(1).is_none());
    reg.clear();
    assert!(reg.get(0).is_none());
}

#[test]
fn event_registry_register_get_unregister() {
    let mut reg = EventRegistry::new();
    let click = Event { node_id: 9, event: "click".to_string() };
    reg.register(click.clone(), 1);
    reg.register(Event { node_id: 9, event: "hover".to_string() }, 2);
    reg.register(click.clone(), 3);
    assert_eq!(reg.get(&click), Some(3));

    reg.unregister(&click);
    assert_eq!(reg.get(&click), None);
    assert_eq!(reg.get(&Event { node_id: 9, event: "hover".to_string() }), Some(2));
}

#[test]
fn event_registry_unregister_for_node() {
    let mut reg = EventRegistry::new();
    reg.register(Event { node_id: 1, event: "a".to_string() }, 1);
    reg.register(Event { node_id: 2, event: "b".to_string() }, 2);
    reg.register(Event { node_id: 1, event: "c".to_string() }, 3);
    reg.unregister_for_node(1);
    assert_eq!(reg.get(&Event { node_id: 1, event: "a".to_string() }), None);
    assert_eq!(reg.get(&Event { node_id: 1, event: "c".to_string() }), None);
    assert_eq!(reg.get(&Event { node_id: 2, event: "b".to_string() }), Some(2));
}

#[test]
fn text_nodes_expose_their_content() {
    let t = TextNode("hello".to_string());
    assert_eq!(t.text(), "hello");
}

struct Lazy;

impl RenderableView for Lazy {
    fn render(&self, cx: &mut ViewContext) -> Node {
        let (v, _setter) = cx.use_state_factory(|| StateValue::Text("made once".to_string()));
        let t = match v {
            StateValue::Text(t) => t,
            _ => String::new(),
        };
        Node::new("i").child(Node::text(&t).into_node()).into_node()
    }

    fn child(&self, _ordinal: usize, _cx: &ViewContext) -> Self {
        Lazy
    }

    fn on_event(&self, _action: u64, _cx: &mut ViewContext) {}
}

#[test]
fn use_state_factory_runs_once_and_persists() {
    let mut queue = RenderingQueue::new();
    let mut context = Context::new(Lazy);
    let _ = context.render(&mut queue);
    assert_eq!(context.last_render_to_string().unwrap(), "<i>made once</i>");
    let _ = context.force_render(&mut queue);
    assert_eq!(context.last_render_to_string().unwrap(), "<i>made once</i>");
}

#[test]
fn view_node_wraps_the_context_identity() {
    let mut queue = RenderingQueue::new();
    let mut context = Context::new(Lazy);
    let _ = context.render(&mut queue);
    let wrapper = context.view_node().into_node();
    let html = context.render_node_to_string(&wrapper);
    let idc = blastview::ident::id_chars(context.id());
    let id: String = idc.into_iter().collect();
    assert_eq!(html, format!("<bv-view data-view=\"{id}\"></bv-view>"));
}
