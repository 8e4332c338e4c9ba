use blastview::queue::RenderingQueue;
use blastview::wire::Patch;

#[test]
fn queue_dedups_repeated_marks() {
    let mut q = RenderingQueue::new();
    q.enqueue(5);
    q.enqueue(5);
    q.enqueue(5);
    let ids = q.drain();
    assert_eq!(ids, vec![5u128]);
}

#[test]
fn queue_keeps_marks_made_during_a_drain() {
    let mut q = RenderingQueue::new();
    q.enqueue(1);
    let ids = q.drain();
    assert_eq!(ids, vec![1u128]);
    q.enqueue(2);
    q.end_drain();
    let ids = q.drain();
    assert_eq!(ids, vec![2u128]);
}

#[test]
fn queue_drains_immediate_before_deferred_without_repeats() {
    let mut q = RenderingQueue::new();
    q.enqueue(1);
    q.enqueue(2);
    let _ = q.drain();
    q.enqueue(3);
    q.enqueue(2);
    q.end_drain();
    q.enqueue(1);
    let ids = q.drain();
    assert_eq!(ids, vec![1u128, 3, 2]);
}

#[test]
fn every_patch_variant_serializes_with_its_discriminator() {
    let cases: Vec<(Patch, &str)> = vec![
        (
            Patch::ReplaceInner { selector: "s".to_string(), html: "h".to_string() },
            "ReplaceInner",
        ),
        (
            Patch::ReplaceOuter { selector: "s".to_string(), html: "h".to_string() },
            "ReplaceOuter",
        ),
        (
            Patch::SetAttribute {
                selector: "s".to_string(),
                name: "n".to_string(),
                value: "v".to_string(),
            },
            "SetAttribute",
        ),
        (
            Patch::RemoveAttribute { selector: "s".to_string(), name: "n".to_string() },
            "RemoveAttribute",
        ),
        (
            Patch::ReplaceChild {
                selector: "s".to_string(),
                index: 3,
                html: "h".to_string(),
            },
            "ReplaceChild",
        ),
        (
            Patch::AttachEvent { selector: "s".to_string(), event: "e".to_string() },
            "AttachEvent",
        ),
        (
            Patch::DetachEvent { selector: "s".to_string(), event: "e".to_string() },
            "DetachEvent",
        ),
        (Patch::Batch { patches: Vec::new() }, "Batch"),
    ];
    let mut seen: Vec<String> = Vec::new();
    for (patch, tag) in cases {
        let json = patch.to_json();
        let parsed: serde_json::Value = serde_json::from_str(&json).unwrap();
        assert_eq!(parsed["type"], *tag);
        assert!(!seen.contains(&tag.to_string()));
        seen.push(tag.to_string());
    }
}

#[test]
fn patch_json_is_exact() {
    let p = Patch::SetAttribute {
        selector: "[data-id=\"0\"]".to_string(),
        name: "class".to_string(),
        value: "b".to_string(),
    };
    assert_eq!(
        p.to_json(),
        r#"{"type":"SetAttribute","selector":"[data-id=\"0\"]","name":"class","value":"b"}"#
    );
}

#[test]
fn batch_json_nests_its_patches() {
    let p = Patch::Batch {
        patches: vec![
            Patch::AttachEvent { selector: "s".to_string(), event: "click".to_string() },
            Patch::RemoveAttribute { selector: "s".to_string(), name: "x".to_string() },
        ],
    };
    let parsed: serde_json::Value = serde_json::from_str(&p.to_json()).unwrap();
    assert_eq!(parsed["type"], "Batch");
    assert_eq!(parsed["patches"].as_array().unwrap().len(), 2);
    assert_eq!(parsed["patches"][0]["type"], "AttachEvent");
    assert_eq!(parsed["patches"][1]["type"], "RemoveAttribute");
}

#[test]
fn json_escaping_matches_the_json_grammar() {
    let p = Patch::ReplaceInner {
        selector: "a\"b\\c".to_string(),
        html: "line1\nline2\ttabbed".to_string(),
    };
    let parsed: serde_json::Value = serde_json::from_str(&p.to_json()).unwrap();
    assert_eq!(parsed["selector"], "a\"b\\c");
    assert_eq!(parsed["html"], "line1\nline2\ttabbed");
}
