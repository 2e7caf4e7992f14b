//! What is known of a pane and of the agent that runs in it.
use vstd::prelude::*;
use vstd::string::*;

verus! {

/// What an agent is doing.
#[derive(Clone, Copy, Debug, PartialEq, Eq, Structural)]
pub enum State {
    Idle,
    Working,
    Blocked,
    Done,
}

/// A terminal pane.
#[derive(Debug)]
pub struct Pane {
    /// The directory of its process.
    pub cwd: String,
    /// The command that it was started with.
    pub command: String,
    /// The process id of its child, 0 before it is known.
    pub child_pid: u32,
    /// Whether its program tracks the mouse.
    pub mouse_report: bool,
    /// Whether output arrived that was not announced yet.
    pub data_pending: bool,
    /// The identity of its terminal, once it runs.
    pub terminal_id: Option<String>,
}

/// A module's pane: which entry point of which module runs there.
#[derive(Debug)]
pub struct ModulePaneRecord {
    pub module_id: String,
    pub entrypoint: String,
}

/// An agent's own session, with which it can be resumed after a restart.
#[derive(Debug)]
pub struct AgentSession {
    pub agent: String,
    pub session_id: String,
}

/// A session that an agent stored and that can be reopened.
#[derive(Debug)]
pub struct SessionInfo {
    pub agent: String,
    pub session_id: String,
    pub cwd: String,
}

impl SessionInfo {
    /// A copy of it.
    pub fn copy(&self) -> (s: SessionInfo)
        ensures
            s == *self,
    {
        SessionInfo {
            agent: self.agent.clone(),
            session_id: self.session_id.clone(),
            cwd: self.cwd.clone(),
        }
    }
}

/// A state that an integration reported itself, until it expires. Times are in
/// milliseconds on the clock of the session.
#[derive(Debug)]
pub struct AgentReport {
    pub source: String,
    pub agent: String,
    pub state: State,
    pub message: Option<String>,
    pub sequence: u64,
    pub expires_at: u64,
}

/// How long ago the last input of a new pane is taken to be.
pub const OLD_INPUT: u64 = 3_600_000;

/// What detection knows of a pane. Times are in milliseconds on the clock of
/// the session.
#[derive(Debug)]
pub struct PaneStatus {
    pub state: State,
    pub agent: String,
    pub last_activity: u64,
    pub last_input: u64,
    pub seen: bool,
    pub agent_session: Option<AgentSession>,
    /// How many scans in a row saw the pane's processes without the bound agent.
    pub agent_absent_scans: u8,
    pub prev_working: bool,
    pub done: bool,
    pub notify_armed: bool,
    pub candidate: State,
    pub candidate_since: u64,
    pub last_resize: Option<u64>,
    pub last_detect_generation: Option<u64>,
    pub detected_title: Option<String>,
    pub detected_bottom: String,
    /// The terminal is to be read anew even without new output.
    pub force_detect: bool,
    pub blocked_hint: Option<String>,
    pub identity_source: &'static str,
    pub state_source: &'static str,
    pub rule_priority: Option<i32>,
    pub rule_region: Option<&'static str>,
    pub agent_report: Option<AgentReport>,
}

impl PaneStatus {
    /// Whether this is what is known of a pane that was just opened at `now`
    /// with the command `agent`.
    pub open spec fn is_new(self, agent: Seq<char>, now: u64) -> bool {
        &&& self.state is Idle
        &&& self.agent@ == agent
        &&& self.last_activity == now
        &&& self.last_input == (if now >= OLD_INPUT {
            (now - OLD_INPUT) as u64
        } else {
            now
        })
        &&& self.seen
        &&& self.agent_session is None
        &&& self.agent_absent_scans == 0
        &&& !self.prev_working
        &&& !self.done
        &&& self.notify_armed
        &&& self.candidate is Idle
        &&& self.candidate_since == now
        &&& self.last_resize is None
        &&& self.last_detect_generation is None
        &&& self.detected_title is None
        &&& self.detected_bottom@ == Seq::<char>::empty()
        &&& self.force_detect
        &&& self.blocked_hint is None
        &&& self.identity_source@ == "command_fallback"@
        &&& self.state_source@ == "no_positive_state_evidence"@
        &&& self.rule_priority is None
        &&& self.rule_region is None
        &&& self.agent_report is None
    }

    /// What is known of a pane that was just opened. Its last input counts as
    /// old, so that its first output is not taken for the echo of typing.
    pub fn new(agent: String, now: u64) -> (s: PaneStatus)
        ensures
            s.is_new(agent@, now),
            s.agent == agent,
    {
        let last_input: u64 = if now >= OLD_INPUT {
            now - OLD_INPUT
        } else {
            now
        };
        PaneStatus {
            state: State::Idle,
            agent,
            last_activity: now,
            last_input,
            seen: true,
            agent_session: None,
            agent_absent_scans: 0,
            prev_working: false,
            done: false,
            notify_armed: true,
            candidate: State::Idle,
            candidate_since: now,
            last_resize: None,
            last_detect_generation: None,
            detected_title: None,
            detected_bottom: String::new(),
            force_detect: true,
            blocked_hint: None,
            identity_source: "command_fallback",
            state_source: "no_positive_state_evidence",
            rule_priority: None,
            rule_region: None,
            agent_report: None,
        }
    }
}

} // verus!
