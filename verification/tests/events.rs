//! What is told of the session's events.
use luvus::app::SessionEvent;
use luvus::ids::PaneId;

fn told(event: SessionEvent) -> (String, Vec<(String, String)>) {
    let fields = event.fields().into_iter().map(|f| (f.key.to_string(), f.value)).collect();
    (event.topic().to_string(), fields)
}

fn pairs(list: &[(&str, &str)]) -> Vec<(String, String)> {
    list.iter().map(|(k, v)| (k.to_string(), v.to_string())).collect()
}

#[test]
fn events_have_a_topic_and_text_fields() {
    assert_eq!(
        told(SessionEvent::PaneCreated { pane: PaneId(12) }),
        ("pane.created".to_string(), pairs(&[("pane", "12")]))
    );
    assert_eq!(
        told(SessionEvent::PaneForked {
            pane: PaneId(1),
            fork: PaneId(2),
            agent: "codex".to_string(),
            workspace: 0,
            tab: 3,
        }),
        (
            "pane.forked".to_string(),
            pairs(&[("from", "1"), ("to", "2"), ("agent", "codex"), ("workspace", "0"), ("tab", "3")])
        )
    );
    assert_eq!(
        told(SessionEvent::TabMoved { workspace: 0, from: 1, to: 10, active: 2, swap: true }),
        (
            "tab.moved".to_string(),
            pairs(&[("workspace", "0"), ("from", "1"), ("to", "10"), ("active", "2"), ("mode", "swap")])
        )
    );
    assert_eq!(
        told(SessionEvent::TabMoved { workspace: 0, from: 1, to: 2, active: 2, swap: false }).1.len(),
        4
    );
    assert_eq!(
        told(SessionEvent::WorkspaceClosed { workspace: 7 }),
        ("workspace.closed".to_string(), pairs(&[("workspace", "7")]))
    );
}
