use blastview::context::{RenderableView, Setter, ViewContext};
use blastview::effects::EffectCmd;
use blastview::node::Node;
use blastview::session::{decode_event_token, LiveSession};
use blastview::value::StateValue;
use blastview::wire::Patch;

enum Demo {
    Counter,
    Parent,
    Child,
    EffectProbe,
}

fn int_of(v: &StateValue) -> i64 {
    match v {
        StateValue::Int(i) => *i,
        _ => 0,
    }
}

impl RenderableView for Demo {
    fn render(&self, cx: &mut ViewContext) -> Node {
        match self {
            Demo::Counter => {
                let (v, _setter) = cx.use_state(StateValue::Int(0));
                Node::new("div")
                    .attr("count", &int_of(&v).to_string())
                    .on("click", 1)
                    .on("reset-same", 2)
                    .into_node()
            }
            Demo::Parent => {
                let child = cx.create_view();
                Node::new("section").child(child.into_node()).into_node()
            }
            Demo::Child => {
                let (v, _setter) = cx.use_state(StateValue::Int(0));
                Node::new("button")
                    .attr("taps", &int_of(&v).to_string())
                    .on("tap", 5)
                    .into_node()
            }
            Demo::EffectProbe => {
                let (dep, _setter) = cx.use_state(StateValue::Nat(1));
                let d = match dep {
                    StateValue::Nat(n) => n,
                    _ => 0,
                };
                let cmd = cx.use_effect(&vec![d]);
                let (_noise, _ns) = cx.use_state(StateValue::Int(0));
                let label = match cmd {
                    EffectCmd::Run => "run",
                    EffectCmd::CleanupAndRun => "rerun",
                    EffectCmd::Skip => "skip",
                };
                Node::new("div")
                    .attr("effect", label)
                    .on("bump", 9)
                    .on("noise", 8)
                    .into_node()
            }
        }
    }

    fn child(&self, _ordinal: usize, _cx: &ViewContext) -> Self {
        match self {
            Demo::Parent => Demo::Child,
            _ => Demo::Counter,
        }
    }

    fn on_event(&self, action: u64, cx: &mut ViewContext) {
        match action {
            1 => {
                let n = cx.state_value(0).map(|v| int_of(&v)).unwrap_or(0);
                Setter::for_ordinal(0).set(cx, StateValue::Int(n + 1));
            }
            2 => {
                let cur = cx.state_value(0).unwrap_or(StateValue::Int(0));
                Setter::for_ordinal(0).set(cx, cur);
            }
            5 => {
                let n = cx.state_value(0).map(|v| int_of(&v)).unwrap_or(0);
                Setter::for_ordinal(0).set(cx, StateValue::Int(n + 1));
            }
            8 => {
                let n = cx.state_value(1).map(|v| int_of(&v)).unwrap_or(0);
                Setter::for_ordinal(1).set(cx, StateValue::Int(n + 1));
            }
            9 => {
                Setter::for_ordinal(0).set(cx, StateValue::Nat(2));
            }
            _ => {}
        }
    }
}

fn first_data_id(html: &str) -> String {
    let start = html.find("data-id=\"").expect("a data-id attribute") + "data-id=\"".len();
    html[start..start + 32].to_string()
}

#[test]
fn state_idempotence_equal_write_queues_nothing() {
    let (mut session, rx) = LiveSession::new(|| Demo::Counter);
    let html = session.dynamic_render();
    let id = first_data_id(&html);

    session.dispatch_event(format!("{id}reset-same"));
    session.process_render_queue();
    assert!(rx.try_recv().is_err());

    session.dispatch_event(format!("{id}click"));
    session.process_render_queue();
    let batch = rx.try_recv().expect("a changing write must queue a render");
    match batch {
        Patch::Batch { patches } => {
            assert_eq!(patches.len(), 1);
            match &patches[0] {
                Patch::SetAttribute { name, value, .. } => {
                    assert_eq!(name, "count");
                    assert_eq!(value, "1");
                }
                _ => panic!("expected a set-attribute wire patch"),
            }
        }
        _ => panic!("expected a batch"),
    }
}

#[test]
fn hook_order_stability_state_persists_across_renders() {
    let (mut session, rx) = LiveSession::new(|| Demo::Counter);
    let html = session.dynamic_render();
    assert!(html.contains("count=\"0\""));

    // Element identities are freshly minted on every render pass, so the
    // event token is rebuilt from the current markup each time.
    for _ in 0..3 {
        let id = first_data_id(&session.dynamic_render());
        session.dispatch_event(format!("{id}click"));
        session.process_render_queue();
        let _ = rx.try_recv();
    }
    let html = session.dynamic_render();
    assert!(html.contains("count=\"3\""));
}

#[test]
fn effect_rerun_gating() {
    let (mut session, rx) = LiveSession::new(|| Demo::EffectProbe);
    let html = session.dynamic_render();
    let id = first_data_id(&html);
    assert!(html.contains("effect=\"run\""));

    session.dispatch_event(format!("{id}noise"));
    session.process_render_queue();
    let _ = rx.try_recv();
    let html = session.dynamic_render();
    assert!(html.contains("effect=\"skip\""));

    let id = first_data_id(&html);
    session.dispatch_event(format!("{id}bump"));
    session.process_render_queue();
    let _ = rx.try_recv();
    let html = session.dynamic_render();
    assert!(html.contains("effect=\"rerun\""));
}

#[test]
fn child_contexts_render_inside_their_parent() {
    let (mut session, _rx) = LiveSession::new(|| Demo::Parent);
    let html = session.dynamic_render();
    assert!(html.contains("<section><bv-view data-view=\""));
    assert!(html.contains("taps=\"0\""));
}

#[test]
fn dispatch_broadcasts_to_the_child_that_owns_the_event() {
    let (mut session, rx) = LiveSession::new(|| Demo::Parent);
    let html = session.dynamic_render();
    let id = first_data_id(&html);

    session.dispatch_event(format!("{id}tap"));
    session.process_render_queue();
    let batch = rx.try_recv().expect("the child's write must queue its render");
    match batch {
        Patch::Batch { patches } => {
            assert!(matches!(&patches[0], Patch::SetAttribute { value, .. } if value == "1"));
        }
        _ => panic!("expected a batch"),
    }
}

#[test]
fn malformed_tokens_are_dropped() {
    assert!(decode_event_token("short").is_none());
    assert!(decode_event_token("zz345678901234567890123456789012click").is_none());
    let ok = decode_event_token("0123456789abcdef0123456789abcdefclick").unwrap();
    assert_eq!(ok.event, "click");
    assert_eq!(ok.node_id, 0x0123456789abcdef0123456789abcdefu128);

    let (mut session, rx) = LiveSession::new(|| Demo::Counter);
    let _ = session.dynamic_render();
    session.dispatch_event("garbage".to_string());
    session.process_render_queue();
    assert!(rx.try_recv().is_err());
}

#[test]
fn disconnection_abandons_delivery_but_not_reconciliation() {
    let (mut session, rx) = LiveSession::new(|| Demo::Counter);
    let html = session.dynamic_render();
    let id = first_data_id(&html);
    drop(rx);
    session.dispatch_event(format!("{id}click"));
    session.process_render_queue();
    let html = session.dynamic_render();
    assert!(html.contains("count=\"1\""));
}

#[test]
fn identity_text_round_trips() {
    let samples: [u128; 4] = [0, 1, 0xdeadbeef, u128::MAX];
    for v in samples {
        let chars = blastview::ident::id_chars(v);
        assert_eq!(chars.len(), 32);
        assert_eq!(blastview::ident::parse_id(&chars), Some(v));
    }
}
