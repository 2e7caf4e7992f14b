//! What is told of the session's events: a topic, and fields of text.
use vstd::prelude::*;
use vstd::string::*;

use super::SessionEvent;
use crate::text;
use crate::text::push_decimal;

verus! {

/// A number in decimal.
fn number(n: usize) -> (s: String)
    ensures
        s@ == text::decimal_text(n as nat),
{
    let mut s = String::new();
    push_decimal(&mut s, n);
    assert(s@ =~= text::decimal_text(n as nat));
    s
}

/// A field of an event.
#[derive(Debug)]
pub struct EventField {
    pub key: &'static str,
    pub value: String,
}

impl EventField {
    /// A field that holds a number.
    fn of(key: &'static str, n: usize) -> (f: EventField)
        ensures
            f.key == key,
            f.value@ == text::decimal_text(n as nat),
    {
        EventField { key, value: number(n) }
    }
}

impl View for EventField {
    type V = (Seq<char>, Seq<char>);

    open spec fn view(&self) -> (Seq<char>, Seq<char>) {
        (self.key@, self.value@)
    }
}

/// What the fields hold.
pub open spec fn field_views(fields: Seq<EventField>) -> Seq<(Seq<char>, Seq<char>)> {
    Seq::new(fields.len(), |i: int| fields[i]@)
}

impl SessionEvent {
    /// What the event is called.
    pub open spec fn topic_text(self) -> Seq<char> {
        match self {
            SessionEvent::PaneCreated { .. } => "pane.created"@,
            SessionEvent::PaneForked { .. } => "pane.forked"@,
            SessionEvent::PaneMoved { .. } => "pane.moved"@,
            SessionEvent::PaneClosed { .. } => "pane.closed"@,
            SessionEvent::TabCreated { .. } => "tab.created"@,
            SessionEvent::TabMoved { .. } => "tab.moved"@,
            SessionEvent::TabClosed { .. } => "tab.closed"@,
            SessionEvent::WorkspaceCreated { .. } => "workspace.created"@,
            SessionEvent::WorkspaceClosed { .. } => "workspace.closed"@,
        }
    }

    /// What the event says, by key.
    pub open spec fn field_texts(self) -> Seq<(Seq<char>, Seq<char>)> {
        match self {
            SessionEvent::PaneCreated { pane } => seq![
                ("pane"@, text::decimal_text(pane.0 as nat)),
            ],
            SessionEvent::PaneForked { pane, fork, agent, workspace, tab } => seq![
                ("from"@, text::decimal_text(pane.0 as nat)),
                ("to"@, text::decimal_text(fork.0 as nat)),
                ("agent"@, agent@),
                ("workspace"@, text::decimal_text(workspace as nat)),
                ("tab"@, text::decimal_text(tab as nat)),
            ],
            SessionEvent::PaneMoved { pane, workspace, tab } => seq![
                ("pane"@, text::decimal_text(pane.0 as nat)),
                ("workspace"@, text::decimal_text(workspace as nat)),
                ("tab"@, text::decimal_text(tab as nat)),
            ],
            SessionEvent::PaneClosed { pane } => seq![("pane"@, text::decimal_text(pane.0 as nat))],
            SessionEvent::TabCreated { tab } => seq![("tab"@, text::decimal_text(tab as nat))],
            SessionEvent::TabMoved { workspace, from, to, active, swap } => {
                let moved = seq![
                    ("workspace"@, text::decimal_text(workspace as nat)),
                    ("from"@, text::decimal_text(from as nat)),
                    ("to"@, text::decimal_text(to as nat)),
                    ("active"@, text::decimal_text(active as nat)),
                ];
                if swap {
                    moved.push(("mode"@, "swap"@))
                } else {
                    moved
                }
            },
            SessionEvent::TabClosed { tab } => seq![("tab"@, text::decimal_text(tab as nat))],
            SessionEvent::WorkspaceCreated { workspace } => seq![
                ("workspace"@, text::decimal_text(workspace as nat)),
            ],
            SessionEvent::WorkspaceClosed { workspace } => seq![
                ("workspace"@, text::decimal_text(workspace as nat)),
            ],
        }
    }

    /// What the event is called.
    pub fn topic(&self) -> (t: &'static str)
        ensures
            t@ == self.topic_text(),
    {
        match self {
            SessionEvent::PaneCreated { .. } => "pane.created",
            SessionEvent::PaneForked { .. } => "pane.forked",
            SessionEvent::PaneMoved { .. } => "pane.moved",
            SessionEvent::PaneClosed { .. } => "pane.closed",
            SessionEvent::TabCreated { .. } => "tab.created",
            SessionEvent::TabMoved { .. } => "tab.moved",
            SessionEvent::TabClosed { .. } => "tab.closed",
            SessionEvent::WorkspaceCreated { .. } => "workspace.created",
            SessionEvent::WorkspaceClosed { .. } => "workspace.closed",
        }
    }

    /// What the event says: each field is a text.
    pub fn fields(&self) -> (fields: Vec<EventField>)
        ensures
            field_views(fields@) == self.field_texts(),
    {
        let mut fields: Vec<EventField> = Vec::new();
        match self {
            SessionEvent::PaneCreated { pane } | SessionEvent::PaneClosed { pane } => {
                fields.push(EventField::of("pane", pane.0 as usize));
            },
            SessionEvent::PaneForked { pane, fork, agent, workspace, tab } => {
                fields.push(EventField::of("from", pane.0 as usize));
                fields.push(EventField::of("to", fork.0 as usize));
                fields.push(EventField { key: "agent", value: agent.clone() });
                fields.push(EventField::of("workspace", *workspace));
                fields.push(EventField::of("tab", *tab));
            },
            SessionEvent::PaneMoved { pane, workspace, tab } => {
                fields.push(EventField::of("pane", pane.0 as usize));
                fields.push(EventField::of("workspace", *workspace));
                fields.push(EventField::of("tab", *tab));
            },
            SessionEvent::TabCreated { tab } | SessionEvent::TabClosed { tab } => {
                fields.push(EventField::of("tab", *tab));
            },
            SessionEvent::TabMoved { workspace, from, to, active, swap } => {
                fields.push(EventField::of("workspace", *workspace));
                fields.push(EventField::of("from", *from));
                fields.push(EventField::of("to", *to));
                fields.push(EventField::of("active", *active));
                if *swap {
                    fields.push(EventField { key: "mode", value: "swap".to_owned() });
                }
            },
            SessionEvent::WorkspaceCreated { workspace } | SessionEvent::WorkspaceClosed {
                workspace,
            } => {
                fields.push(EventField::of("workspace", *workspace));
            },
        }
        assert(field_views(fields@) =~= self.field_texts());
        fields
    }
}

/// What an event says can be looked up: which pane, tab or workspace it is about, and
/// where something came from and went to.
pub proof fn law_events_say_what_happened(event: SessionEvent)
    ensures
        ({
            let said = event.field_texts();
            match event {
                SessionEvent::PaneCreated { pane } | SessionEvent::PaneClosed { pane } => {
                    said.contains(("pane"@, text::decimal_text(pane.0 as nat)))
                },
                SessionEvent::PaneForked { pane, fork, agent, workspace, tab } => {
                    &&& said.contains(("from"@, text::decimal_text(pane.0 as nat)))
                    &&& said.contains(("to"@, text::decimal_text(fork.0 as nat)))
                    &&& said.contains(("agent"@, agent@))
                    &&& said.contains(("workspace"@, text::decimal_text(workspace as nat)))
                    &&& said.contains(("tab"@, text::decimal_text(tab as nat)))
                },
                SessionEvent::PaneMoved { pane, workspace, tab } => {
                    &&& said.contains(("pane"@, text::decimal_text(pane.0 as nat)))
                    &&& said.contains(("workspace"@, text::decimal_text(workspace as nat)))
                    &&& said.contains(("tab"@, text::decimal_text(tab as nat)))
                },
                SessionEvent::TabCreated { tab } | SessionEvent::TabClosed { tab } => {
                    said.contains(("tab"@, text::decimal_text(tab as nat)))
                },
                SessionEvent::TabMoved { workspace, from, to, active, swap } => {
                    &&& said.contains(("workspace"@, text::decimal_text(workspace as nat)))
                    &&& said.contains(("from"@, text::decimal_text(from as nat)))
                    &&& said.contains(("to"@, text::decimal_text(to as nat)))
                    &&& said.contains(("active"@, text::decimal_text(active as nat)))
                    &&& swap ==> said.contains(("mode"@, "swap"@))
                },
                SessionEvent::WorkspaceCreated { workspace } | SessionEvent::WorkspaceClosed {
                    workspace,
                } => said.contains(("workspace"@, text::decimal_text(workspace as nat))),
            }
        }),
{
    let said = event.field_texts();
    match event {
        SessionEvent::PaneForked { pane, fork, agent, workspace, tab } => {
            assert(said[0] == ("from"@, text::decimal_text(pane.0 as nat)));
            assert(said[1] == ("to"@, text::decimal_text(fork.0 as nat)));
            assert(said[2] == ("agent"@, agent@));
            assert(said[3] == ("workspace"@, text::decimal_text(workspace as nat)));
            assert(said[4] == ("tab"@, text::decimal_text(tab as nat)));
        },
        SessionEvent::PaneMoved { pane, workspace, tab } => {
            assert(said[0] == ("pane"@, text::decimal_text(pane.0 as nat)));
            assert(said[1] == ("workspace"@, text::decimal_text(workspace as nat)));
            assert(said[2] == ("tab"@, text::decimal_text(tab as nat)));
        },
        SessionEvent::TabMoved { workspace, from, to, active, swap } => {
            assert(said[0] == ("workspace"@, text::decimal_text(workspace as nat)));
            assert(said[1] == ("from"@, text::decimal_text(from as nat)));
            assert(said[2] == ("to"@, text::decimal_text(to as nat)));
            assert(said[3] == ("active"@, text::decimal_text(active as nat)));
            if swap {
                assert(said[4] == ("mode"@, "swap"@));
            }
        },
        SessionEvent::PaneCreated { pane } | SessionEvent::PaneClosed { pane } => {
            assert(said[0] == ("pane"@, text::decimal_text(pane.0 as nat)));
        },
        SessionEvent::TabCreated { tab } | SessionEvent::TabClosed { tab } => {
            assert(said[0] == ("tab"@, text::decimal_text(tab as nat)));
        },
        SessionEvent::WorkspaceCreated { workspace } | SessionEvent::WorkspaceClosed {
            workspace,
        } => {
            assert(said[0] == ("workspace"@, text::decimal_text(workspace as nat)));
        },
    }
}

} // verus!
