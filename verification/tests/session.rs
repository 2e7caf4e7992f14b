//! A session: workspaces, tabs, panes, and the menus and dialogs on them.
use luvus::app::draw::NoRoom;
use luvus::app::panes::ForkFacts;
use luvus::app::scan::ProcScan;
use luvus::app::restore::Setup;
use luvus::app::spaces::Opening;
use luvus::app::{ActionTarget, App, Effect, MenuContext, SessionEvent};
use luvus::config::Config;
use luvus::geometry::Rect;
use luvus::ids::PaneId;
use luvus::layout::{Axis, TileLayout};
use luvus::menus::{
    AgentForkError, AgentMenuItem, AgentTarget, Catalog, FileMenu, Key, LinkTarget, Mode, ModuleMenuAction,
    PaneMenuItem, PaneMoveError, TabFocusError, TabMenuItem, TabMoveDirection, TabMoveError,
    TabRenameError, WorkspaceUpdateError, WsMenu, WsMenuItem,
};
use luvus::status::{AgentSession, Pane, SessionInfo, State};
use luvus::workspace::{GitView, MoveTarget, Tab, Workspace, WorktreeMembership};

const NOW: u64 = 10_000_000;

fn catalog() -> Catalog {
    Catalog {
        act_close: "close",
        act_move: "move",
        agents: "Agents",
        files: "Files",
        mc_open: "Open Mission Control",
        menu_delete_worktree: "Delete Worktree",
        menu_fork_pane: "Fork to New Pane",
        menu_move_to_tab: "Move to Tab",
        menu_new_tab: "New Tab",
        menu_new_worktree: "New Worktree",
        menu_open_board: "Open Task Board",
        menu_open_file: "Open File",
        menu_open_git: "Open Git",
        menu_open_link: "Open Link",
        menu_open_worktree: "Open Worktree",
        menu_pin: "Pin",
        menu_rename: "Rename",
        menu_resume: "Resume",
        menu_running_cmd: "Running Command",
        menu_split_horizontal: "Split Horizontal",
        menu_split_vertical: "Split Vertical",
        menu_unpin: "Unpin",
        mode_resize_hint: "arrows resize",
        side_left: "left",
        side_right: "right",
        sidebar_full: "that sidebar is full",
        switch_scope_all: "all",
        switch_scope_tabs: "tabs",
        tab_cannot_move_left: "already first",
        tab_cannot_move_right: "already last",
        tab_changed_rename_cancelled: "tab changed, rename cancelled",
        tab_changed_reopen_menu: "tab changed, reopen the menu",
        tab_swap_with: "Swap With",
        workspaces: "Workspaces",
    }
}

fn shell(cwd: &str) -> Pane {
    Pane {
        cwd: cwd.to_string(),
        command: "zsh".to_string(),
        child_pid: 4242,
        mouse_report: false,
        data_pending: false,
        terminal_id: None,
    }
}

fn opening(n: u32, spawned: Option<Pane>) -> Opening {
    Opening {
        workspace_id: format!("workspace-{n}"),
        tab_id: format!("tab-{n}"),
        branch: None,
        worktree: None,
        pane: PaneId(n),
        spawned,
    }
}

/// A session with one workspace at `/w`, whose pane is number 1.
fn start() -> App {
    let setup = Setup { config: Config::default(), catalog: catalog(), modules: Vec::new() };
    App::new(setup, "/w".to_string(), opening(1, Some(shell("/w"))), NOW).expect("a shell")
}

fn add_tab(app: &mut App, n: u32) {
    app.new_tab(format!("tab-{n}"), PaneId(n), Some(shell("/w")), NOW);
}

fn mission_tab(n: u32) -> Tab {
    Tab {
        id: format!("tab-{n}"),
        layout: TileLayout::new(PaneId(n)),
        git: None,
        orch: false,
        mission: true,
        name: None,
    }
}

fn named_tab(name: &str, n: u32) -> Tab {
    let mut tab = Tab::panes(format!("tab-{n}"), TileLayout::new(PaneId(n)));
    tab.name = Some(name.to_string());
    tab
}

fn plain_workspace(id: &str, name: &str, cwd: &str, n: u32) -> Workspace {
    Workspace {
        id: id.to_string(),
        name: name.to_string(),
        cwd: cwd.to_string(),
        branch: None,
        git_ahead_behind: None,
        worktree: None,
        tabs: vec![Tab::panes(format!("tab-{n}"), TileLayout::new(PaneId(n)))],
        active_tab: 0,
        pinned: false,
    }
}

fn names(app: &App) -> Vec<String> {
    app.ws().tabs.iter().map(|tab| tab.name.clone().unwrap()).collect()
}

fn bind(app: &mut App, pane: PaneId, agent: &str, session: &str) {
    let st = app.status.get_mut(pane).unwrap();
    st.agent = agent.to_string();
    st.agent_session = Some(AgentSession {
        agent: agent.to_string(),
        session_id: session.to_string(),
    });
}

fn facts(session: Option<&str>) -> ForkFacts {
    ForkFacts {
        can_fork: true,
        session: session.map(|s| s.to_string()),
        command: Some("agent --fork".to_string()),
    }
}

fn action(title: &str) -> ModuleMenuAction {
    ModuleMenuAction {
        module_id: "m".to_string(),
        action_id: "run".to_string(),
        title: title.to_string(),
    }
}

#[test]
fn a_new_session_has_one_shell() {
    let app = start();
    assert_eq!(app.workspaces.len(), 1);
    assert_eq!(app.ws().name, "w");
    assert_eq!(app.ws().cwd, "/w");
    assert_eq!(app.layout().focus, PaneId(1));
    assert_eq!(app.focused().unwrap().command, "zsh");
    assert_eq!(app.focused_cwd(), "/w");
    assert!(app.session_dirty);
    assert!(app.pane_is_visible(PaneId(1)));
    assert!(!app.pane_is_visible(PaneId(2)));
    assert!(!app.active_is_git() && !app.active_is_orch() && !app.active_is_mission());
    assert!(!app.any_working());
    assert_eq!(app.status.get(PaneId(1)).unwrap().agent, "zsh");

    let setup = Setup { config: Config::default(), catalog: catalog(), modules: Vec::new() };
    assert!(App::new(setup, "/w".to_string(), opening(1, None), NOW).is_none());
}

#[test]
fn a_terminal_leads_to_its_pane() {
    let setup = Setup { config: Config::default(), catalog: catalog(), modules: Vec::new() };
    let mut pane = shell("/w");
    pane.terminal_id = Some("t-9".to_string());
    let app = App::new(setup, "/w".to_string(), opening(1, Some(pane)), NOW).unwrap();
    assert_eq!(app.backend_terminal_index, vec![("t-9".to_string(), PaneId(1))]);
}

/// The new-pane cwd resolver hands back the chain of directories that still
/// exist, in preference order, and never a directory it has already found
/// missing.
#[test]
fn spawn_cwds_skips_missing_dirs_and_anchors_on_home() {
    let mut app = start();
    let home = "/home/me".to_string();
    let missing = "/tmp/luvus-missing".to_string();

    // Both the workspace root and the focused pane's live cwd point at a
    // directory that no longer exists.
    let at = app.active_ws;
    app.workspaces[at].cwd = missing.clone();
    let focus = app.layout().focus;
    app.panes.get_mut(focus).expect("the first pane exists").cwd = missing.clone();

    let chain = app.spawn_cwds(false, false, (home.clone(), true));
    assert!(
        !chain.contains(&missing),
        "a deleted directory is never handed back: {chain:?}"
    );
    assert_eq!(
        chain.last(),
        Some(&home),
        "the chain anchors on $HOME when nothing nearer survives: {chain:?}"
    );

    // With the opt-out set, an existing workspace root leads the chain and
    // the focused pane's cwd is not consulted.
    let root = "/tmp".to_string();
    app.config.layout.new_pane_to_workspace_root = true;
    app.workspaces[at].cwd = root.clone();
    let chain = app.spawn_cwds(true, true, (home.clone(), true));
    assert_eq!(
        chain.first(),
        Some(&root),
        "root-first when the opt-out is on: {chain:?}"
    );
    assert_eq!(chain, vec![root.clone(), home.clone()]);

    // Each directory is tried once, and home even where it is missing too.
    app.config.layout.new_pane_to_workspace_root = false;
    app.panes.get_mut(focus).unwrap().cwd = root.clone();
    assert_eq!(app.spawn_cwds(true, true, (root.clone(), true)), vec![root]);
    assert_eq!(app.spawn_cwds(false, false, (home.clone(), false)), vec![home]);
}

/// A plain workspace (not a linked worktree) never offers "Delete worktree" —
/// only worktree nodes can be deleted; a workspace can only be closed.
#[test]
fn delete_worktree_absent_for_a_plain_workspace() {
    let mut app = start();
    app.workspaces[0].worktree = None;
    let items = app.ws_menu_items(0, true);
    assert!(
        !items.contains(&WsMenuItem::DeleteWorktree),
        "a non-worktree node has no Delete worktree action"
    );
    assert!(items.contains(&WsMenuItem::Close), "but it can be closed");

    app.workspaces[0].worktree =
        Some(WorktreeMembership { common_dir: "/r/.git".to_string(), linked: true });
    assert!(app.ws_menu_items(0, true).contains(&WsMenuItem::DeleteWorktree));
}

/// The worktree-delete confirm cancels on any non-confirm key, and confirming
/// on a non-worktree node is a guarded no-op (never deletes a plain workspace).
#[test]
fn worktree_delete_confirm_cancels_and_guards() {
    let mut app = start();
    app.workspaces[0].worktree = None;

    // A non-confirm key dismisses the modal.
    app.worktree_delete = Some(app.workspaces[0].id.clone());
    app.worktree_delete_key(Key::Char('n'), Ok(()));
    assert!(app.worktree_delete.is_none(), "n cancels");

    // Confirming on the default node (a main checkout, not a linked worktree)
    // removes nothing — the guard refuses to delete a plain workspace.
    let before = app.workspaces.len();
    app.worktree_delete = Some(app.workspaces[0].id.clone());
    assert_eq!(app.worktree_deletion(), None);
    app.worktree_delete_key(Key::Char('y'), Ok(()));
    assert!(app.worktree_delete.is_none());
    assert_eq!(
        app.workspaces.len(),
        before,
        "a plain workspace is never deleted"
    );
}

#[test]
fn a_removed_worktree_closes_its_workspace() {
    let mut app = start();
    let mut linked = plain_workspace("wt", "feature", "/wt/feature", 2);
    linked.worktree = Some(WorktreeMembership { common_dir: "/r/.git".to_string(), linked: true });
    app.workspaces.push(linked);
    app.worktree_delete = Some("wt".to_string());
    let (path, repo) = app.worktree_deletion().expect("a linked worktree");
    assert_eq!(path, "/wt/feature");
    assert_eq!(repo, "/r");

    app.worktree_delete_key(Key::Enter, Err("locked".to_string()));
    assert_eq!(app.workspaces.len(), 2, "a failed removal keeps the workspace");
    assert!(app.toast.as_ref().unwrap().contains("locked"));

    app.worktree_delete = Some("wt".to_string());
    app.worktree_delete_key(Key::Enter, Ok(()));
    assert_eq!(app.workspaces.len(), 1);
    assert_eq!(app.workspaces[0].name, "w");
}

#[test]
fn close_tab_removes_it_and_its_panes() {
    let mut app = start();
    add_tab(&mut app, 2);
    assert_eq!(app.ws().tabs.len(), 2);
    let before = app.panes.entries.len();

    app.close_pane(PaneId(2)); // the tab's only pane → tab drops
    assert_eq!(app.ws().tabs.len(), 1);
    assert!(app.panes.entries.len() < before);
    assert!(app.panes.get(PaneId(2)).is_none() && app.status.get(PaneId(2)).is_none());

    add_tab(&mut app, 3);
    app.close_tab(1);
    assert_eq!(app.ws().tabs.len(), 1);
    assert!(app.panes.get(PaneId(3)).is_none());
    assert!(app.panes.get(PaneId(1)).is_some());
}

#[test]
fn worktree_prompt_surfaces_errors_instead_of_silently_failing() {
    let mut app = start();
    // A non-repo target → creating the worktree fails at the repository test.
    app.worktree_repo = Some("/definitely/not/a/repo".to_string());
    app.worktree_prompt = Some("feature".to_string());

    let asked = app.handle_worktree_prompt_key(Key::Enter);
    assert_eq!(
        asked,
        Some(("/definitely/not/a/repo".to_string(), "feature".to_string()))
    );
    let result = app.create_worktree(
        "feature",
        false,
        "/trees",
        &Vec::new(),
        Ok(()),
        opening(2, Some(shell("/w"))),
        NOW,
    );
    app.finish_worktree_prompt(result);
    assert!(
        app.worktree_error.is_some(),
        "the failure is shown, not swallowed"
    );
    assert_eq!(app.worktree_error.as_deref(), Some("not a git repository"));
    assert!(
        app.worktree_prompt.is_some(),
        "prompt stays open so you can retry"
    );
    assert!(
        app.worktree_repo.is_some(),
        "target repo is retained for the retry"
    );

    // Editing the branch clears the stale error.
    assert_eq!(app.handle_worktree_prompt_key(Key::Char('x')), None);
    assert!(app.worktree_error.is_none(), "editing clears the error");

    // Esc tears the whole prompt down.
    app.handle_worktree_prompt_key(Key::Esc);
    assert!(app.worktree_prompt.is_none() && app.worktree_repo.is_none());
}

#[test]
fn a_worktree_opens_as_a_workspace() {
    let mut app = start();
    let taken = vec!["/trees/feature".to_string()];
    let r = app.create_worktree(
        " feature ",
        true,
        "/trees",
        &taken,
        Ok(()),
        opening(2, Some(shell("/trees/feature-2"))),
        NOW,
    );
    assert_eq!(r.as_deref(), Ok("/trees/feature-2"), "a taken place gets a number");
    assert_eq!(app.workspaces.len(), 2);
    assert_eq!(app.ws().cwd, "/trees/feature-2");

    let none = Vec::new();
    let empty = app.create_worktree("  ", true, "/trees", &none, Ok(()), opening(3, None), NOW);
    assert_eq!(empty, Err("a branch name is required".to_string()));
    let refused = app.create_worktree(
        "b",
        true,
        "/trees",
        &none,
        Err("already checked out".to_string()),
        opening(3, None),
        NOW,
    );
    assert_eq!(refused, Err("already checked out".to_string()));
    assert_eq!(app.workspaces.len(), 2);
}

/// Close projectA, then projectB: the session ends and projectA does not come
/// back. The server still outlives its windows.
#[test]
fn closing_the_last_node_ends_the_session_without_resurrecting_one() {
    let mut app = start();
    app.server_mode = true;
    assert!(app.create_workspace_at("/b".to_string(), opening(2, Some(shell("/b"))), NOW));
    assert_eq!(app.workspaces.len(), 2);

    // Close them both, ending with the last one.
    app.close_workspace(0);
    assert_eq!(app.workspaces.len(), 1, "the other node stays open");
    app.close_workspace(0);

    assert!(
        app.workspaces.is_empty(),
        "no node is resurrected — least of all the server's launch folder"
    );
    assert!(
        !app.should_quit,
        "the server itself still outlives its windows; `server stop` ends it"
    );
    assert!(
        app.end_session,
        "every client is told to detach, so the window actually closes"
    );
    assert!(!app.pane_is_visible(PaneId(1)), "an empty session shows nothing");
    assert!(!app.any_working());
}

#[test]
fn closing_last_pane_quits_and_ignores_further_events() {
    let mut app = start();
    let id = app.layout().focus;
    app.close_pane(id); // the only pane's shell exits
    assert!(app.should_quit, "closing the last pane quits the session");
    assert!(app.workspaces.is_empty());
    // Late events in the same batch must not panic.
    app.close_workspace(0);
    assert!(!app.pane_is_visible(id));
    assert!(app.workspaces.is_empty());
}

#[test]
fn closing_tells_the_surroundings() {
    let mut app = start();
    app.outbox.clear();
    add_tab(&mut app, 2);
    app.outbox.clear();
    app.close_pane(PaneId(2));
    assert!(app.outbox.iter().any(|e| matches!(e, Effect::TerminalClosed(PaneId(2)))));
    assert!(app.outbox.iter().any(|e| matches!(e, Effect::ReleaseClaims(PaneId(2)))));
    assert!(app.outbox.iter().any(|e| matches!(
        e,
        Effect::Event(SessionEvent::PaneClosed { pane: PaneId(2) })
    )));
}

#[test]
fn exited_agent_becomes_shell_and_is_not_resumed() {
    let mut app = start();
    let id = app.layout().focus;
    let root = app.panes.get(id).unwrap().child_pid;
    assert_ne!(root, 0, "the fresh pane has a spawned child");
    let shell = app.panes.get(id).unwrap().command.clone();
    bind(&mut app, id, "gemini", "finished-session");
    let scan = |commands: &[&str]| {
        Some(vec![ProcScan {
            pid: root,
            commands: commands.iter().map(|s| s.to_string()).collect(),
            has_bound: commands.contains(&"gemini"),
            agent: commands
                .iter()
                .find(|c| matches!(**c, "gemini" | "codex"))
                .map(|c| c.to_string()),
        }])
    };

    // One shell-only observation is not enough: an agent may be starting or
    // re-execing. Seeing it again resets the exit candidate, even when a
    // different recognised agent appears earlier in the same process tree.
    assert!(
        !app.apply_proc_scan(scan(&[&shell])),
        "the first missing scan only updates the process cache"
    );
    assert!(app.status.get(id).unwrap().agent_session.is_some());
    assert_eq!(app.status.get(id).unwrap().agent_absent_scans, 1);
    assert!(
        !app.apply_proc_scan(scan(&[&shell, "codex", "gemini"])),
        "seeing the bound agent again does not change visible lifecycle state"
    );
    assert!(app.status.get(id).unwrap().agent_session.is_some());
    assert_eq!(app.status.get(id).unwrap().agent_absent_scans, 0);

    // Two confirmed scans back at the shell clear the resume binding and
    // dirty persistence. A detach may now leave this pane alive as a shell;
    // a later server restart must not relaunch the exited agent.
    app.session_dirty = false;
    assert!(!app.apply_proc_scan(scan(&[&shell])));
    assert!(app.status.get(id).unwrap().agent_session.is_some());
    assert!(
        app.apply_proc_scan(scan(&[&shell])),
        "the confirmed exit dirties the sidebar through the event path"
    );
    let st = app.status.get(id).unwrap();
    assert!(
        st.agent_session.is_none(),
        "the exited agent is not resumable"
    );
    assert_eq!(st.agent, shell);
    assert!(app.session_dirty);
    assert_eq!(app.proc_commands.get(id).unwrap(), &vec![shell]);

    // A scan that failed changes nothing but its own flag.
    app.proc_scan_inflight = true;
    assert!(!app.apply_proc_scan(None));
    assert!(!app.proc_scan_inflight);
}

#[test]
fn ws_menu_pins_and_unpins_and_floats_to_top() {
    let mut app = start();
    // A fresh node is unpinned, so the menu offers "Pin".
    assert!(app.ws_menu_items(0, false).contains(&WsMenuItem::Pin));
    assert!(!app.ws_menu_items(0, false).contains(&WsMenuItem::Unpin));

    // Pin it via the right-click action.
    app.open_ws_menu(0, 0, 0, false, Vec::new());
    app.ws_menu_action(WsMenuItem::Pin, false, None);
    assert!(app.workspaces[0].pinned, "pinned after Pin");
    // Now the menu offers "Unpin" instead.
    assert!(app.ws_menu_items(0, false).contains(&WsMenuItem::Unpin));
    // A pinned node sorts to the front of the display order.
    assert_eq!(
        app.workspace_display_order().first().map(|&(i, _)| i),
        Some(0)
    );

    // Unpin restores it.
    app.open_ws_menu(0, 0, 0, false, Vec::new());
    app.ws_menu_action(WsMenuItem::Unpin, false, None);
    assert!(!app.workspaces[0].pinned, "unpinned after Unpin");

    // A linked worktree remains nested under its parent. Pinning the child
    // floats that complete group instead of recording a no-op pin.
    let common_dir = "/tmp/luvus-group/.git".to_string();
    let mut parent = plain_workspace("p", "parent", "/tmp/luvus-group", 2);
    parent.worktree =
        Some(WorktreeMembership { common_dir: common_dir.clone(), linked: false });
    app.workspaces.push(parent);
    let mut child = plain_workspace("c", "child", "/tmp/luvus-group-child", 3);
    child.worktree = Some(WorktreeMembership { common_dir, linked: true });
    app.workspaces.push(child);
    app.set_workspace_pinned(2, true).unwrap();
    assert_eq!(
        app.workspace_display_order(),
        vec![(1, false), (2, true), (0, false)]
    );
    assert_eq!(app.workspace_display_position(0), Some(2));
    assert_eq!(app.workspace_display_position(2), Some(1));
    assert_eq!(app.workspace_display_position(9), None);
}

#[test]
fn open_workspace_menu_reuses_snapshotted_repo_capability() {
    let mut app = start();
    // A deliberately missing path would fail a fresh look at the repository.
    // The open menu must still use its captured result.
    app.workspaces[0].cwd = "luvus-missing-menu-repo".to_string();
    app.ws_menu = Some(WsMenu {
        workspace_id: app.workspaces[0].id.clone(),
        is_repo: true,
        anchor: (0, 0),
        items: Vec::new(),
        module_actions: Vec::new(),
    });

    assert!(app.ws_menu_items(0, false).contains(&WsMenuItem::OpenGit));
    assert!(app.ws_menu_items(0, false).contains(&WsMenuItem::NewWorktree));
}

#[test]
fn workspace_menu_follows_target_identity_after_an_index_shift() {
    let mut app = start();
    let target_id = "workspace-target".to_string();
    let cwd = app.workspaces[0].cwd.clone();
    app.workspaces.push(plain_workspace(&target_id, "target", &cwd, 2));

    app.open_ws_menu(1, 0, 0, false, Vec::new());
    app.close_workspace(0);
    assert_eq!(app.ws_menu_target_index(), Some(0));

    app.ws_menu_action(WsMenuItem::Rename, false, None);
    let rename = app.ws_rename.as_ref().expect("rename targets surviving node");
    assert_eq!(rename.workspace_id, target_id);
}

#[test]
fn workspace_rename_keeps_target_identity_while_modal_is_open() {
    let mut app = start();
    let target_id = "workspace-target".to_string();
    let cwd = app.workspaces[0].cwd.clone();
    app.workspaces.push(plain_workspace(&target_id, "target", &cwd, 2));

    app.open_ws_rename(1);
    app.close_workspace(0);
    app.ws_rename.as_mut().unwrap().buffer = "renamed".to_string();
    app.handle_ws_rename_key(Key::Enter);

    assert_eq!(app.workspaces[0].id, target_id);
    assert_eq!(app.workspaces[0].name, "renamed");
}

#[test]
fn deferred_workspace_actions_abort_after_target_closes() {
    let mut app = start();
    let survivor_id = "workspace-survivor".to_string();
    let cwd = app.workspaces[0].cwd.clone();
    app.workspaces.push(plain_workspace(&survivor_id, "survivor", &cwd, 2));

    let removed_id = app.workspaces[0].id.clone();
    app.open_ws_rename(0);
    app.worktree_delete = Some(removed_id);
    app.close_workspace(0);

    assert_eq!(app.workspaces.len(), 1);
    assert_eq!(app.workspaces[0].id, survivor_id);
    assert_eq!(app.workspaces[0].name, "survivor");
    assert!(app.ws_rename.is_none());
    assert!(app.worktree_delete.is_none());
}

#[test]
fn workspace_menu_dismisses_when_its_target_was_closed() {
    let mut app = start();
    app.open_ws_menu(0, 0, 0, false, Vec::new());
    app.close_workspace(0);

    assert_eq!(app.ws_menu_target_index(), None);
    app.ws_menu_action(WsMenuItem::Rename, false, None);
    assert!(app.ws_menu.is_none());
    assert!(app.ws_rename.is_none());
}

#[test]
fn workspace_updates_are_checked() {
    let mut app = start();
    assert_eq!(app.rename_workspace(0, "  site  "), Ok(()));
    assert_eq!(app.workspaces[0].name, "site");
    assert_eq!(app.rename_workspace(3, "x"), Err(WorkspaceUpdateError::NotFound));
    assert_eq!(app.rename_workspace(0, "   "), Err(WorkspaceUpdateError::EmptyName));
    let long = "x".repeat(41);
    assert_eq!(app.rename_workspace(0, &long), Err(WorkspaceUpdateError::NameTooLong));
    assert_eq!(app.workspaces[0].name, "site", "a refused name changes nothing");
    assert_eq!(app.set_workspace_pinned(3, true), Err(WorkspaceUpdateError::NotFound));
}

#[test]
fn agent_menu_pins_and_unpins_a_live_agent() {
    let mut app = start();
    let id = app.layout().focus;
    // A live agent's menu offers Pin (below Rename/Close); a session cannot pin.
    assert!(app.agent_menu_items(AgentTarget::Live(id)).contains(&AgentMenuItem::Pin));
    assert!(!app.agent_menu_items(AgentTarget::Session(0)).contains(&AgentMenuItem::Pin));

    app.open_agent_menu(AgentTarget::Live(id), 0, 0, Vec::new());
    app.agent_menu_action(AgentMenuItem::Pin);
    assert!(app.pinned_agents.contains(&id), "pinned");
    // Now the menu offers Unpin.
    assert!(app.agent_menu_items(AgentTarget::Live(id)).contains(&AgentMenuItem::Unpin));

    app.open_agent_menu(AgentTarget::Live(id), 0, 0, Vec::new());
    app.agent_menu_action(AgentMenuItem::Unpin);
    assert!(!app.pinned_agents.contains(&id), "unpinned");
}

#[test]
fn agent_menu_resumes_and_dismisses_a_session() {
    let sess = |id: &str, p: &str| SessionInfo {
        agent: "gemini".to_string(),
        session_id: id.to_string(),
        cwd: p.to_string(),
    };
    let mut app = start();
    app.resumable = vec![sess("s0", "/p/a"), sess("s1", "/p/b")];

    // Right-click the second session row → an AGENTS menu with Resume + Close.
    app.open_agent_menu(AgentTarget::Session(1), 4, 4, Vec::new());
    assert!(app.agent_menu.is_some(), "right-click opened the agent menu");
    app.draw_agent_menu(Rect::new(0, 0, 80, 20)).expect("room").expect("drawn");
    let items = &app.agent_menu.as_ref().unwrap().items;
    assert_eq!(items.len(), 2, "session menu has Resume + Close");
    assert_eq!(items[0].0, AgentMenuItem::Resume);

    // Click "Close" → the session leaves the list and stays dismissed.
    let close = items[1].1;
    app.agent_menu_click(close.x + 1, close.y);
    assert!(app.agent_menu.is_none(), "menu closed after a click");
    assert!(
        app.resumable.iter().all(|s| s.session_id != "s1"),
        "session removed from the list"
    );
    assert!(
        app.dismissed_sessions.contains(&"s1".to_string()),
        "stays dismissed across rescans"
    );
    let changed = app.apply_scanned_sessions(
        vec![sess("s0", "/p/a"), sess("s1", "/p/b")],
        &vec![String::new()],
    );
    assert!(!changed);
    assert_eq!(app.resumable.len(), 1);

    // "Resume" asks for the session to be reopened.
    app.open_agent_menu(AgentTarget::Session(0), 4, 4, Vec::new());
    app.agent_menu_action(AgentMenuItem::Resume);
    assert!(app.outbox.iter().any(|e| matches!(e, Effect::Resume(0))));
}

#[test]
fn resume_session_opens_pane() {
    let mut app = start();
    let before_panes = app.panes.entries.len();
    let before_ws = app.workspaces.len();

    app.resumable = vec![SessionInfo {
        agent: "gemini".to_string(),
        session_id: "abc".to_string(),
        cwd: "/tmp/luvus-resume-test".to_string(),
    }];
    app.resume_session(
        0,
        Some("gemini --resume abc".to_string()),
        &vec![false],
        opening(2, Some(shell("/tmp/luvus-resume-test"))),
        false,
        NOW,
    );

    assert_eq!(app.panes.entries.len(), before_panes + 1, "a pane was spawned");
    assert_eq!(app.workspaces.len(), before_ws + 1, "a new workspace for the cwd");
    let focus = app.layout().focus;
    let s = app.status.get(focus).unwrap();
    assert_eq!(s.agent, "gemini");
    assert_eq!(s.agent_session.as_ref().unwrap().session_id, "abc");
    assert!(app.resumable.is_empty(), "session dropped from the list");
    assert!(app.outbox.iter().any(|e| matches!(
        e,
        Effect::Send { pane, text } if *pane == focus && text.contains("--resume abc")
    )));
}

#[test]
fn failing_to_open_a_node_is_reported_not_swallowed() {
    let mut app = start();
    let before = app.workspaces.len();
    let active_before = app.active_ws;

    assert!(
        !app.create_workspace_at("/tmp".to_string(), opening(2, None), NOW),
        "opening a node whose shell cannot start must report failure"
    );
    assert_eq!(app.workspaces.len(), before, "no half-built node is added");
    assert_eq!(app.active_ws, active_before, "focus must not move");
    assert!(
        app.toast.as_ref().is_some_and(|t| t.contains("couldn't open")),
        "the user is told, rather than silently shown the previous folder"
    );
}

#[test]
fn pane_menu_splits_closes_and_skips_dashboards() {
    let mut app = start();

    // Right-click opens the menu; drawing fills its clickable item rects.
    let pane = app.layout().focus;
    app.open_pane_menu(pane, 6, 6, false, None, Vec::new());
    assert!(app.pane_menu.is_some(), "menu opened");
    assert!(app.pane_menu.as_ref().unwrap().move_targets.is_empty());
    app.draw_pane_menu(Rect::new(0, 0, 120, 40)).expect("room");

    // Clicking "Split vertical" asks for a pane and closes the menu.
    let (item, rect) = app.pane_menu.as_ref().unwrap().items[0];
    assert_eq!(item, PaneMenuItem::SplitVertical);
    let before = app.layout().len();
    app.outbox.clear();
    app.pane_menu_click(rect.x + 1, rect.y, "tab-x".to_string());
    assert!(app.pane_menu.is_none(), "menu closed after a click");
    assert!(matches!(app.outbox.pop(), Some(Effect::Split(Axis::Col))));
    app.split(Axis::Col, PaneId(2), shell("/w"), NOW);
    assert_eq!(app.layout().len(), before + 1, "split vertical added a pane");

    // Split horizontal and close, via the action path.
    let focus = app.layout().focus;
    app.open_pane_menu(focus, 6, 6, false, None, Vec::new());
    app.outbox.clear();
    app.pane_menu_action(PaneMenuItem::SplitHorizontal);
    assert!(matches!(app.outbox.pop(), Some(Effect::Split(Axis::Row))));
    app.split(Axis::Row, PaneId(3), shell("/w"), NOW);
    assert_eq!(app.layout().len(), before + 2, "split horizontal added a pane");
    let focus = app.layout().focus;
    app.open_pane_menu(focus, 6, 6, false, None, Vec::new());
    app.pane_menu_action(PaneMenuItem::Close);
    assert_eq!(app.layout().len(), before + 1, "close removed a pane");

    // A dashboard tab has no panes to act on — the menu never opens there.
    let mut board = mission_tab(9);
    board.mission = false;
    board.orch = true;
    app.workspaces[0].tabs.push(board);
    app.workspaces[0].active_tab = 1;
    let focus = app.layout().focus;
    app.open_pane_menu(focus, 6, 6, false, None, Vec::new());
    assert!(app.pane_menu.is_none(), "no pane menu on the orch board");
}

/// Moving a pane to another tab re-parents its id between layout trees — the
/// process survives — and if the source tab empties it collapses, with focus
/// following the pane.
#[test]
fn move_pane_to_tab_reparents_and_keeps_the_process() {
    let mut app = start();

    // Tab 0 holds pane `p`. A new tab 1 holds its own pane.
    let p = app.layout().focus;
    add_tab(&mut app, 2);
    assert_eq!(app.ws().active_tab, 1, "new tab is active");
    let tab1_pane = app.layout().focus;
    assert_ne!(p, tab1_pane);
    app.workspaces[0].active_tab = 0; // back to the pane we'll move

    // The submenu offers tab #1 as a target.
    let targets = app.pane_move_targets();
    assert!(
        targets.iter().any(|(t, _)| *t == MoveTarget::Tab(1)),
        "tab 1 is a move target"
    );

    // Move `p` into tab 1. Tab 0 (now empty) is removed, so the target becomes
    // the only tab, holding both panes; the process is untouched.
    app.move_pane_to_tab(p, MoveTarget::Tab(1), "tab-x".to_string())
        .expect("valid destination tab");
    assert!(app.panes.contains_key(p), "the pane's process survived the move");
    assert_eq!(app.ws().tabs.len(), 1, "the emptied source tab collapsed");
    let leaves = app.ws().tabs[0].layout.leaves();
    assert!(
        leaves.contains(&p) && leaves.contains(&tab1_pane),
        "both panes now live in the target tab"
    );
    assert_eq!(app.ws().active_tab, 0, "focus followed the pane's new tab");
    assert_eq!(app.layout().focus, p, "the moved pane is focused");

    // Into a tab of its own.
    let r = app.move_pane_to_tab(p, MoveTarget::NewTab, "tab-new".to_string()).unwrap();
    assert_eq!((r.workspace, r.tab), (0, 1));
    assert_eq!(app.ws().tabs[1].id, "tab-new");
    assert_eq!(app.ws().tabs[1].layout.leaves(), vec![p]);
}

/// Right-click a pane, hover "Move to tab" so the submenu opens and fills its
/// tab rects, then click a tab row to move the pane there.
#[test]
fn move_to_tab_submenu_opens_on_hover_and_moves_on_click() {
    let mut app = start();
    let p = app.layout().focus;
    add_tab(&mut app, 2); // tab 1
    app.workspaces[0].active_tab = 0;

    let area = Rect::new(0, 0, 120, 40);
    app.open_pane_menu(p, 6, 6, false, None, Vec::new());
    app.hover = None;
    let (_, submenu) = app.draw_pane_menu(area).expect("room").unwrap();
    assert!(submenu.is_none());

    // Hover the "Move to tab" row → the next drawing opens the submenu.
    let mrect = app
        .pane_menu
        .as_ref()
        .unwrap()
        .items
        .iter()
        .find(|(it, _)| *it == PaneMenuItem::MoveToTab)
        .map(|(_, r)| *r)
        .expect("Move to tab row is present");
    app.hover = Some((mrect.x + 1, mrect.y));
    let (_, submenu) = app.draw_pane_menu(area).expect("room").unwrap();
    assert!(submenu.is_some());
    assert!(app.pane_menu.as_ref().unwrap().move_open, "submenu opened");
    let tab_rects = app.pane_menu.as_ref().unwrap().tab_rects.clone();
    assert!(!tab_rects.is_empty(), "submenu listed tabs");

    // Click the tab #1 row → the pane moves and the menu closes.
    let (_, r) = tab_rects
        .iter()
        .find(|(tg, _)| *tg == MoveTarget::Tab(1))
        .expect("tab 1 offered");
    app.pane_menu_click(r.x + 1, r.y, "tab-x".to_string());
    assert!(app.pane_menu.is_none(), "menu closed after moving");
    assert!(app.panes.contains_key(p), "pane survived");
    assert!(
        app.ws().tabs.iter().any(|t| t.layout.leaves().contains(&p)),
        "pane landed in a tab"
    );
}

#[test]
fn pane_move_validates_before_detaching_and_excludes_dashboards() {
    let mut app = start();
    let pane = app.layout().focus;
    let original = app.layout().leaves();
    let id = || "tab-x".to_string();

    assert_eq!(
        app.move_pane_to_tab(pane, MoveTarget::Tab(0), id()),
        Err(PaneMoveError::SameTab)
    );
    assert_eq!(
        app.move_pane_to_tab(pane, MoveTarget::Tab(99), id()),
        Err(PaneMoveError::TargetOutOfRange)
    );
    assert_eq!(
        app.move_pane_to_tab(pane, MoveTarget::NewTab, id()),
        Err(PaneMoveError::NoChange)
    );
    assert_eq!(
        app.move_pane_to_tab(PaneId(77), MoveTarget::NewTab, id()),
        Err(PaneMoveError::PaneNotFound)
    );
    assert_eq!(app.layout().leaves(), original, "failed moves are atomic");

    app.workspaces[0].tabs.push(mission_tab(9));
    app.workspaces[0].active_tab = 0;
    assert!(
        !app.pane_move_targets()
            .iter()
            .any(|(target, _)| *target == MoveTarget::Tab(1)),
        "dashboard tabs are not offered as pane destinations"
    );
    assert_eq!(
        app.move_pane_to_tab(pane, MoveTarget::Tab(1), id()),
        Err(PaneMoveError::TargetNotPaneTab)
    );
    assert_eq!(
        app.move_pane_to_tab(PaneId(9), MoveTarget::Tab(0), id()),
        Err(PaneMoveError::SourceNotPaneTab)
    );
    assert_eq!(
        app.layout().leaves(),
        original,
        "pane remains in its source tab"
    );
}

#[test]
fn tab_move_preserves_the_active_tab_identity() {
    let mut app = start();
    app.workspaces[0].tabs[0].name = Some("a".to_string());
    add_tab(&mut app, 2);
    app.workspaces[0].tabs[1].name = Some("b".to_string());
    add_tab(&mut app, 3);
    app.workspaces[0].tabs[2].name = Some("c".to_string());
    assert_eq!(app.ws().active_tab, 2);

    // Move A from first to last. C stays active and shifts from slot 3 to 2.
    assert_eq!(app.move_tab(0, 2), Ok(1));
    assert_eq!(names(&app), ["b", "c", "a"]);
    assert_eq!(
        app.ws().tabs[app.ws().active_tab].name.as_deref(),
        Some("c")
    );

    // Move the active C to the first slot; focus follows that same tab.
    assert_eq!(app.move_tab(1, 0), Ok(0));
    let before = names(&app);
    assert_eq!(before, ["c", "b", "a"]);
    assert_eq!(app.ws().active_tab, 0);
    assert!(app.session_dirty);

    assert_eq!(app.move_tab(0, 0), Err(TabMoveError::SamePosition));
    assert_eq!(app.move_tab(0, 9), Err(TabMoveError::PositionOutOfRange));
    assert_eq!(names(&app), before, "failed tab moves leave the order untouched");
}

#[test]
fn tab_move_is_correct_for_every_source_destination_and_active_position() {
    let mut app = start();
    let original = ["a", "b", "c", "d"];

    for active in 0..original.len() {
        for from in 0..original.len() {
            for to in 0..original.len() {
                if from == to {
                    continue;
                }
                app.workspaces[0].tabs = original
                    .iter()
                    .enumerate()
                    .map(|(i, name)| named_tab(name, 10 + i as u32))
                    .collect();
                app.workspaces[0].active_tab = active;

                let active_name = original[active];
                let mut expected = original.to_vec();
                let moved = expected.remove(from);
                expected.insert(to, moved);

                let new_active = app.move_tab(from, to).expect("valid permutation");
                assert_eq!(names(&app), expected, "active={active}, from={from}, to={to}");
                assert_eq!(
                    app.ws().tabs[new_active].name.as_deref(),
                    Some(active_name),
                    "active tab identity changed: active={active}, from={from}, to={to}"
                );
                // Moving it back undoes the move.
                assert_eq!(app.move_tab(to, from), Ok(active));
                assert_eq!(names(&app), original);
            }
        }
    }
}

#[test]
fn tabs_swap_and_step() {
    let mut app = start();
    app.workspaces[0].tabs =
        ["a", "b", "c"].iter().enumerate().map(|(i, n)| named_tab(n, 10 + i as u32)).collect();
    app.workspaces[0].active_tab = 0;
    assert_eq!(app.swap_tabs(0, 2), Ok(2), "the active tab keeps its identity");
    assert_eq!(names(&app), ["c", "b", "a"]);
    assert_eq!(app.swap_tabs(0, 2), Ok(0));
    assert_eq!(names(&app), ["a", "b", "c"]);
    assert_eq!(app.swap_tabs(1, 1), Err(TabMoveError::SamePosition));
    assert_eq!(app.swap_tabs(1, 3), Err(TabMoveError::PositionOutOfRange));

    assert_eq!(app.move_tab_direction(Some(0), TabMoveDirection::Left), Err(TabMoveError::AlreadyFirst));
    assert_eq!(app.move_tab_direction(Some(2), TabMoveDirection::Right), Err(TabMoveError::AlreadyLast));
    assert_eq!(app.move_tab_direction(None, TabMoveDirection::Right), Ok((0, 1, 1)));
    assert_eq!(names(&app), ["b", "a", "c"]);
    assert_eq!(
        app.adjacent_tab_position(0, 7, TabMoveDirection::Left),
        Err(TabMoveError::PositionOutOfRange)
    );

    assert_eq!(app.focus_tab(2), Ok(()));
    assert_eq!(app.ws().active_tab, 2);
    assert_eq!(app.focus_tab(3), Err(TabFocusError::PositionOutOfRange));
    app.switch_tab(0);
    assert_eq!(app.ws().active_tab, 0);
    app.cycle_tab(-1);
    assert_eq!(app.ws().active_tab, 2, "going back from the first reaches the last");
    app.cycle_tab(1);
    assert_eq!(app.ws().active_tab, 0);
}

#[test]
fn tab_context_menu_reorders_swaps_and_renames_its_exact_target() {
    let mut app = start();
    app.workspaces[0].tabs =
        ["a", "b", "c"].iter().enumerate().map(|(i, n)| named_tab(n, 10 + i as u32)).collect();
    app.workspaces[0].active_tab = 2;

    app.open_tab_menu(1, 10, 2, Vec::new());
    assert_eq!(
        app.tab_menu_items(),
        [
            TabMenuItem::Rename,
            TabMenuItem::MoveLeft,
            TabMenuItem::MoveRight,
            TabMenuItem::SwapWith,
        ]
    );
    app.tab_menu_action(TabMenuItem::MoveLeft);
    assert_eq!(names(&app), ["b", "a", "c"]);
    assert_eq!(app.ws().active_tab, 2, "active C stays active");

    // The open menu follows B by identity even if an API reorder occurs
    // before its action is clicked.
    app.open_tab_menu(0, 10, 2, Vec::new());
    app.move_tab(0, 2).unwrap();
    app.tab_menu_action(TabMenuItem::MoveLeft);
    assert_eq!(names(&app), ["a", "b", "c"]);

    // Swap With resolves both snapshots after an intervening reorder,
    // then swaps those exact tabs rather than their old numeric positions.
    app.open_tab_menu(0, 10, 2, Vec::new());
    let target = app
        .tab_menu
        .as_ref()
        .unwrap()
        .swap_targets
        .iter()
        .find(|(_, label)| label == "c")
        .unwrap()
        .0
        .copy();
    app.tab_menu.as_mut().unwrap().swap_rects = vec![(target, Rect::new(20, 4, 8, 1))];
    app.move_tab(0, 1).unwrap();
    app.tab_menu_click(21, 4);
    assert_eq!(names(&app), ["b", "c", "a"]);
    assert_eq!(app.ws().active_tab, 1, "active C follows its new position");

    app.open_tab_menu(1, 10, 2, Vec::new());
    app.tab_menu_action(TabMenuItem::Rename);
    let rename_target = app.tab_rename.as_ref().unwrap().target.copy();
    assert_eq!(app.resolve_tab_menu_target(&rename_target), Some((0, 1)));

    app.tab_menu = None;
    app.open_tab_menu(3, 10, 2, Vec::new()); // the tab bar's `+` pseudo-index
    assert!(app.tab_menu.is_none());
}

#[test]
fn a_menu_of_a_closed_tab_does_nothing() {
    let mut app = start();
    app.workspaces[0].tabs =
        ["a", "b"].iter().enumerate().map(|(i, n)| named_tab(n, 10 + i as u32)).collect();
    app.open_tab_menu(1, 0, 0, Vec::new());
    app.close_tab(1);
    app.tab_menu_action(TabMenuItem::Rename);
    assert!(app.tab_rename.is_none());
    assert_eq!(app.toast.as_deref(), Some("tab changed, reopen the menu"));
}

#[test]
fn tab_rename_sets_name_persists_and_excludes_dashboards() {
    let mut app = start();

    // Rename tab 0 → "build".
    app.open_tab_rename(0);
    assert!(app.tab_rename.is_some(), "rename modal opened");
    for c in "build".chars() {
        app.handle_tab_rename_key(Key::Char(c));
    }
    app.handle_tab_rename_key(Key::Enter);
    assert!(app.tab_rename.is_none(), "modal closed on Enter");
    assert_eq!(app.ws().tabs[0].name.as_deref(), Some("build"));

    // Clearing the name (empty on Enter) reverts to the number.
    app.open_tab_rename(0);
    for _ in 0.."build".len() {
        app.handle_tab_rename_key(Key::Backspace);
    }
    app.handle_tab_rename_key(Key::Enter);
    assert_eq!(app.ws().tabs[0].name, None, "empty name clears the label");

    // The orchestration board (a dashboard tab) cannot be renamed.
    let mut board = mission_tab(9);
    board.mission = false;
    board.orch = true;
    app.workspaces[0].tabs.push(board);
    app.workspaces[0].active_tab = 1;
    let board_idx = app.ws().active_tab;
    assert!(app.ws().tabs[board_idx].is_orch());
    app.open_tab_rename(board_idx);
    assert!(app.tab_rename.is_none(), "dashboard tab is not renameable");
    assert_eq!(app.rename_tab(board_idx, "x"), Err(TabRenameError::Dashboard));
    assert_eq!(app.rename_tab(7, "x"), Err(TabRenameError::PositionOutOfRange));
    let long = "y".repeat(41);
    assert_eq!(app.rename_tab(0, &long), Err(TabRenameError::NameTooLong));
    assert_eq!(app.rename_tab(0, " web "), Ok(()));
    assert_eq!(app.ws().tabs[0].name.as_deref(), Some("web"));
}

#[test]
fn a_git_dashboard_is_not_a_pane_tab() {
    let mut app = start();
    let mut git = mission_tab(9);
    git.mission = false;
    git.git = Some(GitView { root: "/w".to_string() });
    app.workspaces[0].tabs.push(git);
    app.workspaces[0].active_tab = 1;
    assert!(app.active_is_git());
    assert!(app.focused().is_none());
    assert_eq!(app.focused_cwd(), "/w");
}

#[test]
fn typing_keeps_to_names() {
    let mut app = start();
    app.open_ws_rename(0);
    app.ws_rename.as_mut().unwrap().buffer.clear();
    for _ in 0..60 {
        app.handle_ws_rename_key(Key::Char('é'));
    }
    assert_eq!(app.ws_rename.as_ref().unwrap().buffer.chars().count(), 40);
    app.handle_ws_rename_key(Key::Char('\u{7}'));
    app.handle_ws_rename_key(Key::Other);
    assert_eq!(app.ws_rename.as_ref().unwrap().buffer.chars().count(), 40);
    app.handle_ws_rename_key(Key::Backspace);
    assert_eq!(app.ws_rename.as_ref().unwrap().buffer.chars().count(), 39);
    app.handle_ws_rename_key(Key::Esc);
    assert!(app.ws_rename.is_none());
    assert_eq!(app.workspaces[0].name, "w");
}

#[test]
fn fork_pane_splits_a_fork_capable_agent() {
    let mut app = start();
    let src = app.layout().focus;
    let before = app.layout().len();

    // A plain pane can't fork: no agent, no session.
    let plain = ForkFacts { can_fork: false, session: None, command: None };
    assert!(
        !app.fork_pane(src, &plain, PaneId(2), Some(shell("/w")), false, NOW),
        "non-agent pane does not fork"
    );
    assert_eq!(app.layout().len(), before);

    // Mark it as a live agent pane with a known session id, then fork: a new
    // pane splits in beside it, source untouched.
    bind(&mut app, src, "gemini", "sess-abc");
    assert!(
        app.fork_pane(src, &facts(Some("sess-abc")), PaneId(2), Some(shell("/w")), false, NOW),
        "fork-capable agent forks"
    );
    assert_eq!(app.layout().len(), before + 1, "a fork pane was spawned");
    // Both the source and the new fork pane are present in the same tab.
    let leaves = app.layout().leaves();
    assert!(leaves.contains(&src), "source pane survives the fork");
    assert_eq!(leaves.len(), before + 1);
    // The focused (new) pane is tagged as the same agent.
    let new = app.layout().focus;
    assert_ne!(new, src);
    assert_eq!(app.status.get(new).unwrap().agent, "gemini");
}

#[test]
fn fork_pane_splits_a_grok_session() {
    let mut app = start();
    let src = app.layout().focus;
    bind(&mut app, src, "grok", "sess-grok");
    assert!(
        app.fork_pane(src, &facts(Some("sess-grok")), PaneId(2), Some(shell("/w")), false, NOW),
        "grok sessions fork natively"
    );
    let new = app.layout().focus;
    assert_ne!(new, src);
    assert_eq!(app.status.get(new).unwrap().agent, "grok");
    assert_eq!(
        app.status.get(src).unwrap().agent_session.as_ref().unwrap().session_id,
        "sess-grok"
    );
}

#[test]
fn fork_from_mission_control_uses_the_agents_real_tab() {
    let mut app = start();
    let source = app.layout().focus;
    bind(&mut app, source, "gemini", "sess-mission-fork");

    app.workspaces[0].tabs.push(mission_tab(9));
    app.workspaces[0].active_tab = 1;
    assert!(app.active_is_mission());
    assert!(
        app.fork_pane(
            source,
            &facts(Some("sess-mission-fork")),
            PaneId(2),
            Some(shell("/w")),
            false,
            NOW
        ),
        "Mission Control can fork its row"
    );
    assert!(!app.active_is_mission(), "focus follows the fork's real tab");
    let leaves = app.layout().leaves();
    assert_eq!(leaves.len(), 2);
    assert!(leaves.contains(&source));
    assert_ne!(app.layout().focus, source, "the fork is focused");
}

#[test]
fn forks_are_refused_for_a_reason() {
    let mut app = start();
    let src = app.layout().focus;
    bind(&mut app, src, "gemini", "s");
    let id = PaneId(2);
    let fork = |app: &mut App, pane: PaneId, f: &ForkFacts, sh: Option<Pane>| {
        app.fork_agent_pane(pane, true, f, id, sh, false, NOW).map(|r| r.pane)
    };
    let good = facts(Some("s"));
    assert_eq!(fork(&mut app, PaneId(50), &good, None), Err(AgentForkError::PaneNotFound));
    let cannot = ForkFacts { can_fork: false, ..facts(Some("s")) };
    assert_eq!(fork(&mut app, src, &cannot, None), Err(AgentForkError::UnsupportedAgent));
    assert_eq!(fork(&mut app, src, &facts(None), None), Err(AgentForkError::SessionUnknown));
    assert_eq!(fork(&mut app, src, &good, None), Err(AgentForkError::SpawnFailed));
    assert_eq!(app.layout().len(), 1, "a refused fork leaves the tab as it was");
    assert_eq!(fork(&mut app, src, &good, Some(shell("/w"))), Ok(id));
    app.workspaces[0].tabs[0].mission = true;
    assert_eq!(fork(&mut app, src, &good, None), Err(AgentForkError::SourceNotPaneTab));
}

#[test]
fn codex_pane_menu_offers_and_runs_native_fork() {
    let mut app = start();
    let src = app.layout().focus;
    let before = app.layout().len();
    let session = "019c1234-abcd-7890-abcd-ef0123456789";
    bind(&mut app, src, "codex", session);

    let can_fork = app.can_fork_pane(src, true, true);
    assert!(can_fork);
    app.open_pane_menu(src, 1, 1, can_fork, None, Vec::new());
    assert!(
        app.pane_menu_items().contains(&PaneMenuItem::ForkPane),
        "right-click menu exposes fork for Codex"
    );
    app.outbox.clear();
    app.pane_menu_action(PaneMenuItem::ForkPane);
    assert!(matches!(app.outbox.pop(), Some(Effect::Fork(p)) if p == src));
    assert!(app.fork_pane(src, &facts(Some(session)), PaneId(2), Some(shell("/w")), false, NOW));

    assert_eq!(app.layout().len(), before + 1, "Codex fork opens a pane");
    let fork = app.layout().focus;
    assert_ne!(fork, src);
    assert_eq!(app.status.get(fork).unwrap().agent, "codex");
}

#[test]
fn codex_pane_menu_hides_fork_without_an_exact_session() {
    let mut app = start();
    let pane = app.layout().focus;
    app.status.get_mut(pane).unwrap().agent = "codex".to_string();

    let can_fork = app.can_fork_pane(pane, true, false);
    app.open_pane_menu(pane, 1, 1, can_fork, None, Vec::new());

    assert!(
        !app.pane_menu_items().contains(&PaneMenuItem::ForkPane),
        "Codex needs the exact session bound to this pane before Fork is offered"
    );
}

#[test]
fn keyboard_resize_mode_enters_resizes_and_exits() {
    let mut app = start();
    app.enter_resize_mode();
    assert_eq!(app.mode, Mode::Normal, "one pane cannot be resized");
    app.split(Axis::Col, PaneId(2), shell("/w"), NOW);
    app.enter_resize_mode();
    assert_eq!(app.mode, Mode::Resize);
}

#[test]
fn pane_cwd_follows_cd_without_moving_its_workspace() {
    let mut app = start();
    let id = app.layout().focus;
    let workspace_cwd = app.ws().cwd.clone();
    let workspace_name = app.ws().name.clone();

    app.refresh_cwds(&vec![(id, "/tmp".to_string())], &vec![Some("main".to_string())]);
    let got = app.panes.get(id).unwrap().cwd.clone();
    assert!(got.contains("tmp"), "cwd did not follow cd: got '{got}'");
    assert_eq!(
        app.ws().cwd,
        workspace_cwd,
        "cd changes the pane cwd, not its static workspace root"
    );
    assert_eq!(
        app.ws().name,
        workspace_name,
        "cd does not rename the static workspace"
    );
    assert_eq!(app.ws().branch.as_deref(), Some("main"));
}

#[test]
fn names_stand_for_one_pane() {
    let mut app = start();
    add_tab(&mut app, 2);
    app.set_agent_name(PaneId(1), Some("backend"));
    assert_eq!(app.name_of(PaneId(1)).as_deref(), Some("backend"));
    app.set_agent_name(PaneId(2), Some("backend"));
    assert_eq!(app.name_of(PaneId(1)), None, "the name moved");
    assert_eq!(app.name_of(PaneId(2)).as_deref(), Some("backend"));
    app.set_agent_name(PaneId(2), Some("api"));
    assert_eq!(app.agent_names.len(), 1, "a pane has one name");
    app.set_agent_name(PaneId(2), None);
    assert!(app.agent_names.is_empty());
    app.open_pane_rename(PaneId(1));
    for c in "db".chars() {
        app.handle_pane_rename_key(Key::Char(c));
    }
    app.handle_pane_rename_key(Key::Enter);
    assert_eq!(app.name_of(PaneId(1)).as_deref(), Some("db"));
}

#[test]
fn focus_goes_round() {
    let mut app = start();
    app.split(Axis::Col, PaneId(2), shell("/w"), NOW);
    app.split(Axis::Row, PaneId(3), shell("/w"), NOW);
    assert_eq!(app.layout().leaves(), vec![PaneId(1), PaneId(2), PaneId(3)]);
    assert_eq!(app.layout().focus, PaneId(3));
    app.focus_next_pane();
    assert_eq!(app.layout().focus, PaneId(1));
    app.cycle_pane(-1);
    assert_eq!(app.layout().focus, PaneId(3));

    assert!(app.create_workspace_at("/b".to_string(), opening(5, Some(shell("/b"))), NOW));
    assert_eq!(app.active_ws, 1);
    app.cycle_workspace(1);
    assert_eq!(app.active_ws, 0);
    app.focus_pane_global(PaneId(5));
    assert_eq!(app.active_ws, 1);
    assert_eq!(app.workspace_of_pane(PaneId(2)).unwrap().cwd, "/w");
    assert!(app.workspace_of_pane(PaneId(99)).is_none());
}

#[test]
fn output_is_announced_once() {
    let mut app = start();
    add_tab(&mut app, 2);
    app.panes.get_mut(PaneId(1)).unwrap().data_pending = true;
    app.panes.get_mut(PaneId(2)).unwrap().data_pending = true;
    assert!(app.has_pending_pty_output());
    assert_eq!(app.rearm_pty_notify_by_visibility(), (true, true));
    assert!(!app.has_pending_pty_output());
    app.panes.get_mut(PaneId(1)).unwrap().data_pending = true;
    assert_eq!(app.rearm_pty_notify_by_visibility(), (false, true), "the pane is in the back");
    app.panes.get_mut(PaneId(1)).unwrap().data_pending = true;
    assert!(app.rearm_pty_notify());
    assert!(!app.rearm_pty_notify());
}

#[test]
fn working_agents_are_seen() {
    let mut app = start();
    app.status.get_mut(PaneId(1)).unwrap().state = State::Working;
    assert!(app.any_working());
}

#[test]
fn module_rows_run_on_their_target() {
    let mut app = start();
    app.open_ws_menu(0, 0, 0, false, vec![action("Deploy")]);
    app.outbox.clear();
    app.ws_menu_action(WsMenuItem::Module(0), false, None);
    match app.outbox.pop() {
        Some(Effect::RunModule { context, action, target }) => {
            assert_eq!(context, MenuContext::Workspace);
            assert_eq!(action.title, "Deploy");
            assert_eq!(target, ActionTarget::Workspace(0));
        },
        other => panic!("{other:?}"),
    }
    app.open_tab_menu(0, 0, 0, vec![action("Ship")]);
    app.tab_menu_action(TabMenuItem::Module(0));
    assert!(matches!(
        app.outbox.pop(),
        Some(Effect::RunModule { target: ActionTarget::Tab { workspace: 0, tab: 0 }, .. })
    ));
}

#[test]
fn links_open_from_the_pane_menu() {
    let mut app = start();
    let link = LinkTarget::Url("https://luvus.dev".to_string());
    app.open_pane_menu(PaneId(1), 2, 2, false, Some(link), Vec::new());
    assert!(app.pane_menu_items().contains(&PaneMenuItem::OpenLink));
    assert!(!app.pane_menu_items().contains(&PaneMenuItem::OpenFile));
    app.outbox.clear();
    app.pane_menu_action(PaneMenuItem::OpenLink);
    assert!(matches!(
        app.outbox.pop(),
        Some(Effect::ActivateLink(LinkTarget::Url(u))) if u == "https://luvus.dev"
    ));
}

#[test]
fn escape_closes_menus() {
    let mut app = start();
    app.open_ws_menu(0, 0, 0, false, Vec::new());
    app.handle_ws_menu_key(Key::Char('a'));
    assert!(app.ws_menu.is_some());
    app.handle_ws_menu_key(Key::Esc);
    assert!(app.ws_menu.is_none());
    app.open_pane_menu(PaneId(1), 0, 0, false, None, Vec::new());
    app.handle_pane_menu_key(Key::Esc);
    assert!(app.pane_menu.is_none());
    app.open_agent_menu(AgentTarget::Live(PaneId(1)), 0, 0, Vec::new());
    app.handle_agent_menu_key(Key::Esc);
    assert!(app.agent_menu.is_none());
    add_tab(&mut app, 2);
    app.open_tab_menu(0, 0, 0, Vec::new());
    app.handle_tab_menu_key(Key::Esc);
    assert!(app.tab_menu.is_none());
}

#[test]
fn a_click_beside_a_menu_closes_it() {
    let mut app = start();
    app.open_ws_menu(0, 3, 3, false, Vec::new());
    let p = app.draw_ws_menu(Rect::new(0, 0, 80, 24), false).expect("room").unwrap();
    app.ws_menu_click(p.outer.right() + 3, 0, false, None);
    assert!(app.ws_menu.is_none());
    assert_eq!(app.workspaces.len(), 1);
}

#[test]
fn a_closed_tab_or_workspace_keeps_no_names_and_no_pins() {
    let mut app = start();
    let first = app.layout().focus;
    add_tab(&mut app, 2);
    app.set_agent_name(first, Some("stays"));
    app.set_agent_name(PaneId(2), Some("goes"));
    app.pinned_agents = vec![first, PaneId(2)];
    app.close_tab(1);
    assert_eq!(app.agent_names, vec![("stays".to_string(), first)]);
    assert_eq!(app.pinned_agents, vec![first]);

    assert!(app.create_workspace_at("/tmp".to_string(), opening(3, Some(shell("/tmp"))), NOW));
    app.set_agent_name(PaneId(3), Some("other"));
    app.pinned_agents.push(PaneId(3));
    app.close_workspace(1);
    assert_eq!(app.agent_names, vec![("stays".to_string(), first)]);
    assert_eq!(app.pinned_agents, vec![first]);
}

#[test]
fn a_stale_pane_menu_focuses_its_pane_and_splits() {
    let mut app = start();
    let pane = app.layout().focus;
    app.open_pane_menu(pane, 6, 6, false, None, Vec::new());
    add_tab(&mut app, 2);
    app.outbox.clear();
    app.pane_menu_action(PaneMenuItem::SplitVertical);
    assert_eq!(app.layout().focus, pane, "though the active tab does not show it");
    assert!(matches!(app.outbox.pop(), Some(Effect::Split(Axis::Col))));
    // There is nothing to split: the tab shows what it showed, and the new pane
    // is focused.
    app.split(Axis::Col, PaneId(3), shell("/w"), NOW);
    assert_eq!(app.layout().leaves(), vec![PaneId(2)]);
    assert_eq!(app.layout().focus, PaneId(3));
}

#[test]
fn the_same_directory_is_tried_once_however_it_is_written() {
    let mut app = start();
    let focus = app.layout().focus;
    app.workspaces[0].cwd = "/w/".to_string();
    app.refresh_cwds(&vec![(focus, "/w".to_string())], &vec![None]);
    let chain = app.spawn_cwds(true, true, ("/w/.".to_string(), true));
    assert_eq!(chain, vec!["/w"]);
}

#[test]
fn a_menu_is_as_wide_as_its_widest_label() {
    let mut app = start();
    app.file_menu = Some(FileMenu {
        path: "/w/a".to_string(),
        is_dir: false,
        anchor: (3, 3),
        items: Vec::new(),
        editors: vec![("edit".to_string(), "とても大きなエディタ".to_string())],
    });
    let area = Rect::new(0, 0, 80, 24);
    let rows = app.file_menu_rows();
    let widths: Vec<usize> = rows
        .iter()
        .map(|r| r.text.chars().map(|c| if c.is_ascii() { 1 } else { 2 }).sum())
        .collect();
    let drawn = app.draw_file_menu(area).expect("room").unwrap();
    assert_eq!(app.place_file_menu(area, &widths), Some(drawn));
}

#[test]
fn a_menu_without_room_stays_as_it_is() {
    let mut app = start();
    app.open_ws_menu(0, 3, 3, false, Vec::new());
    assert_eq!(app.draw_ws_menu(Rect::new(0, 0, 1, 1), false), Err(NoRoom));
    assert!(app.ws_menu.as_ref().is_some_and(|m| m.items.is_empty()));
    // A submenu counts only where it is shown.
    let p = app.layout().focus;
    add_tab(&mut app, 2);
    app.workspaces[0].active_tab = 0;
    app.open_pane_menu(p, 0, 0, false, None, Vec::new());
    assert_eq!(app.draw_pane_menu(Rect::new(0, 0, 1, 1)), Err(NoRoom));
    assert_eq!(app.draw_tab_menu(Rect::new(0, 0, 1, 1)), Ok(None));
    let outer: Vec<usize> = vec![4; app.pane_menu_rows().len()];
    let (_, submenu) = app.place_pane_menu(Rect::new(0, 0, 80, 24), &outer, &Vec::new()).unwrap();
    assert!(submenu.is_none());
}
