//! Saving a session and restoring it.
use luvus::app::restore::{
    from_tree, plan_pane, restore_module_pane, PanePlan, Restored, SavedPane, SavedSession, SavedTab, SavedTree,
    SavedWorkspace, Setup,
};
use luvus::app::panes::existing_dirs;
use luvus::app::spaces::Opening;
use luvus::app::{App, Effect, Module, PaneDecl};
use luvus::config::Config;
use luvus::ids::PaneId;
use luvus::layout::{Axis, TileNode};
use luvus::menus::{Catalog, FileView, Key, ViewKind};
use luvus::status::{AgentSession, ModulePaneRecord, Pane};
use luvus::workspace::WorktreeMembership;

fn catalog() -> Catalog {
    Catalog {
        act_close: "close",
        act_move: "move",
        agents: "Agents",
        files: "Files",
        mc_open: "Open Mission Control",
        menu_delete_worktree: "Delete Worktree",
        menu_fork_pane: "Fork to New Pane",
        menu_move_to_tab: "Move to Tab",
        menu_new_tab: "New Tab",
        menu_new_worktree: "New Worktree",
        menu_open_board: "Open Task Board",
        menu_open_file: "Open File",
        menu_open_git: "Open Git",
        menu_open_link: "Open Link",
        menu_open_worktree: "Open Worktree",
        menu_pin: "Pin",
        menu_rename: "Rename",
        menu_resume: "Resume",
        menu_running_cmd: "Running Command",
        menu_split_horizontal: "Split Horizontal",
        menu_split_vertical: "Split Vertical",
        menu_unpin: "Unpin",
        mode_resize_hint: "arrows resize",
        side_left: "left",
        side_right: "right",
        sidebar_full: "that sidebar is full",
        switch_scope_all: "all",
        switch_scope_tabs: "tabs",
        tab_cannot_move_left: "already first",
        tab_cannot_move_right: "already last",
        tab_changed_rename_cancelled: "tab changed, rename cancelled",
        tab_changed_reopen_menu: "tab changed, reopen the menu",
        tab_swap_with: "Swap With",
        workspaces: "Workspaces",
    }
}
const NOW: u64 = 10_000_000;

fn setup() -> Setup {
    Setup { config: Config::default(), catalog: catalog(), modules: Vec::new() }
}

fn shell(cwd: &str) -> Pane {
    Pane {
        cwd: cwd.to_string(),
        command: "zsh".to_string(),
        child_pid: 0,
        mouse_report: false,
        data_pending: false,
        terminal_id: None,
    }
}

fn opening(n: u32, spawned: Option<Pane>) -> Opening {
    Opening {
        workspace_id: format!("workspace-{n}"),
        tab_id: format!("tab-{n}"),
        branch: None,
        worktree: None,
        pane: PaneId(n),
        spawned,
    }
}

fn start() -> App {
    App::new(setup(), "/w".to_string(), opening(1, Some(shell("/w"))), NOW).expect("a shell")
}

fn tree(node: &TileNode) -> SavedTree {
    match node {
        TileNode::Leaf(id) => SavedTree::Leaf(id.0),
        TileNode::Split(axis, a, b) => {
            SavedTree::Split(*axis, Box::new(tree(a)), Box::new(tree(b)))
        },
    }
}

/// What is saved of the session, with new identities from 100 on.
fn save(app: &App) -> SavedSession {
    let mut next = 100;
    let mut fresh = || {
        next += 1;
        PaneId(next)
    };
    let mut workspaces = Vec::new();
    for ws in &app.workspaces {
        let mut tabs = Vec::new();
        for tab in &ws.tabs {
            let mut panes = Vec::new();
            for id in tab.layout.leaves() {
                let Some(pane) = app.panes.get(id) else { continue };
                let session = app.status.get(id).and_then(|st| st.agent_session.as_ref()).map(|s| {
                    AgentSession { agent: s.agent.clone(), session_id: s.session_id.clone() }
                });
                panes.push(SavedPane {
                    raw: id.0,
                    id: fresh(),
                    name: app.name_of(id),
                    outcome: Restored::Live(shell(&pane.cwd), None),
                    resume: session.as_ref().map(|s| format!("{} --resume {}\r", s.agent, s.session_id)),
                    session,
                    direct: false,
                });
            }
            tabs.push(SavedTab {
                id: tab.id.clone(),
                name: tab.name.clone(),
                git: tab.is_git(),
                orch: tab.is_orch(),
                mission: tab.is_mission(),
                placeholder: fresh(),
                panes,
                tree: tree(&tab.layout.root),
                focus: tab.layout.focus.0,
            });
        }
        workspaces.push(SavedWorkspace {
            id: ws.id.clone(),
            name: ws.name.clone(),
            cwd: ws.cwd.clone(),
            pinned: ws.pinned,
            active_tab: ws.active_tab,
            tabs,
            is_repo: true,
            worktree: None,
        });
    }
    SavedSession { workspaces, active_ws: app.active_ws }
}

#[test]
fn session_roundtrip() {
    let mut app = start();
    // Split into two panes.
    app.split(Axis::Col, PaneId(2), shell("/w/src"), NOW);
    assert_eq!(app.layout().len(), 2);
    app.rename_workspace(0, "Luvus website").unwrap();
    app.set_workspace_pinned(0, true).unwrap();

    let restored = App::from_snapshot(setup(), save(&app), NOW).expect("restore");
    assert_eq!(restored.workspaces.len(), 1);
    assert_eq!(restored.layout().len(), 2);
    assert_eq!(restored.workspaces[0].name, "Luvus website");
    assert!(restored.workspaces[0].pinned);
    assert_eq!(restored.layout().leaves(), vec![PaneId(101), PaneId(102)]);
    assert_eq!(restored.layout().focus, PaneId(102), "the focus follows its pane");
    assert_eq!(restored.focused_cwd(), "/w/src");
    assert!(!restored.session_dirty);
    assert_eq!(restored.ws().id, app.ws().id);
    assert_eq!(restored.ws().tabs[0].id, app.ws().tabs[0].id);
}

// A saved pane whose cwd no longer exists (deleted project dir) must not
// cost the user the whole session: the pane falls back to the workspace
// dir / home and everything else restores intact.
#[test]
fn restore_survives_a_deleted_pane_cwd() {
    let mut app = start();
    app.split(Axis::Col, PaneId(2), shell("/w"), NOW);
    assert_eq!(app.layout().len(), 2);

    let mut snap = save(&app);
    // One pane's project dir vanished between save and restore: the first
    // directory that is still there takes its place.
    let dirs = existing_dirs(&vec![
        ("/nonexistent/deleted-project-xyz".to_string(), false),
        ("/w".to_string(), true),
        ("/home/me".to_string(), true),
    ]);
    assert_eq!(dirs, vec!["/w".to_string(), "/home/me".to_string()]);
    snap.workspaces[0].tabs[0].panes[0].outcome = Restored::Live(shell(&dirs[0]), None);

    let restored = App::from_snapshot(setup(), snap, NOW).expect("session survives a missing pane cwd");
    assert_eq!(restored.workspaces.len(), 1, "workspace kept");
    assert_eq!(
        restored.layout().len(),
        2,
        "both panes restored (one fell back)"
    );
    // Every restored pane spawned somewhere real.
    assert_eq!(restored.panes.entries.len(), 2);
}

#[test]
fn agent_session_persists_and_resumes() {
    let mut app = start();
    let focus = app.layout().focus;
    app.status.get_mut(focus).unwrap().agent_session = Some(AgentSession {
        agent: "gemini".to_string(),
        session_id: "abc-123".to_string(),
    });

    let restored = App::from_snapshot(setup(), save(&app), NOW).expect("restore");
    let rid = restored.layout().focus;
    let st = restored.status.get(rid).unwrap();
    let sess = st.agent_session.as_ref().unwrap();
    assert_eq!(sess.agent, "gemini");
    assert_eq!(sess.session_id, "abc-123");
    assert_eq!(st.agent, "gemini");
    assert!(matches!(
        restored.outbox.as_slice(),
        [Effect::Send { pane, text }] if *pane == rid && text == "gemini --resume abc-123\r"
    ));

    // A shell that was started on the line is not typed to.
    let mut snap = save(&app);
    snap.workspaces[0].tabs[0].panes[0].direct = true;
    let restored = App::from_snapshot(setup(), snap, NOW).expect("restore");
    assert!(restored.outbox.is_empty());
}

/// A pane's live name survives a restart: it is re-attached to the pane's
/// freshly allocated id on restore, so the sidebar/title keep it.
#[test]
fn pane_name_survives_a_restart() {
    let mut app = start();
    let focus = app.layout().focus;
    app.set_agent_name(focus, Some("backend"));
    assert_eq!(app.name_of(focus).as_deref(), Some("backend"));

    let restored = App::from_snapshot(setup(), save(&app), NOW).expect("restore");

    // The pane came back under a new id, but its name followed it.
    let rid = restored.layout().focus;
    assert_ne!(rid, focus);
    assert_eq!(restored.name_of(rid).as_deref(), Some("backend"));
}

#[test]
fn tab_names_persist_across_a_restart() {
    let mut app = start();
    app.open_tab_rename(0);
    for c in "build".chars() {
        app.handle_tab_rename_key(Key::Char(c));
    }
    app.handle_tab_rename_key(Key::Enter);
    let restored = App::from_snapshot(setup(), save(&app), NOW).unwrap();
    assert_eq!(restored.ws().tabs[0].name.as_deref(), Some("build"));
}

#[test]
fn a_broken_tab_costs_only_itself() {
    let mut app = start();
    app.set_agent_name(PaneId(1), Some("first"));
    app.new_tab("tab-2".to_string(), PaneId(2), Some(shell("/w")), NOW);
    app.split(Axis::Row, PaneId(3), shell("/w"), NOW);
    app.set_agent_name(PaneId(3), Some("third"));
    let mut snap = save(&app);
    // One of the two panes of the second tab could not be started.
    snap.workspaces[0].tabs[1].panes[0].outcome = Restored::Lost;
    let kept = snap.workspaces[0].tabs[0].panes[0].id;

    let restored = App::from_snapshot(setup(), snap, NOW).unwrap();
    assert_eq!(restored.ws().tabs.len(), 1);
    assert_eq!(restored.ws().active_tab, 0);
    assert_eq!(restored.panes.entries.len(), 1, "the tab's other pane is given up too");
    assert_eq!(restored.status.entries.len(), 1);
    assert!(restored.panes.contains_key(kept));
    assert_eq!(restored.name_of(kept).as_deref(), Some("first"));
    assert_eq!(restored.agent_names.len(), 1, "names of lost panes are dropped");
}

#[test]
fn nothing_left_starts_anew() {
    let app = start();
    let mut snap = save(&app);
    snap.workspaces[0].tabs[0].panes[0].outcome = Restored::Lost;
    assert!(App::from_snapshot(setup(), snap, NOW).is_err());

    let mut snap = save(&app);
    snap.workspaces[0].tabs[0].panes[0].outcome = Restored::Lost;
    let fresh = App::restore_or_new(
        setup(),
        Some(snap),
        "/new".to_string(),
        opening(1, Some(shell("/new"))),
        NOW,
    )
    .unwrap();
    assert_eq!(fresh.ws().cwd, "/new");
    assert!(fresh.session_dirty);

    let restored = App::restore_or_new(
        setup(),
        Some(save(&app)),
        "/new".to_string(),
        opening(1, None),
        NOW,
    )
    .unwrap();
    assert_eq!(restored.ws().cwd, "/w");
    assert!(App::restore_or_new(setup(), None, "/new".to_string(), opening(1, None), NOW).is_none());
}

#[test]
fn dashboards_come_back_without_panes() {
    let app = start();
    let mut snap = save(&app);
    let board = |id: &str, n: u32, git: bool, orch: bool, mission: bool| SavedTab {
        id: id.to_string(),
        name: Some("ignored".to_string()),
        git,
        orch,
        mission,
        placeholder: PaneId(n),
        panes: Vec::new(),
        tree: SavedTree::Leaf(0),
        focus: 0,
    };
    snap.workspaces[0].tabs.push(board("g", 201, true, false, false));
    snap.workspaces[0].tabs.push(board("o", 202, false, true, false));
    snap.workspaces[0].tabs.push(board("m", 203, false, false, true));
    snap.workspaces[0].active_tab = 9;
    snap.active_ws = 9;
    snap.workspaces[0].worktree =
        Some(WorktreeMembership { common_dir: "/w/.git".to_string(), linked: false });
    let restored = App::from_snapshot(setup(), snap, NOW).unwrap();
    let tabs = &restored.ws().tabs;
    assert_eq!(tabs.len(), 4);
    assert_eq!(tabs[1].git.as_ref().unwrap().root, "/w");
    assert!(tabs[2].is_orch() && !tabs[2].is_mission());
    assert!(tabs[3].is_mission());
    assert!(tabs[1..].iter().all(|t| t.name.is_none()));
    assert_eq!(restored.ws().active_tab, 3, "the active tab stays in range");
    assert_eq!(restored.active_ws, 0);
    assert_eq!(restored.panes.entries.len(), 1);
    assert!(!restored.ws().worktree.as_ref().unwrap().linked);

    // Without a repository the git dashboard is left out.
    let mut snap = save(&app);
    snap.workspaces[0].tabs.push(board("g", 201, true, false, false));
    snap.workspaces[0].is_repo = false;
    let restored = App::from_snapshot(setup(), snap, NOW).unwrap();
    assert_eq!(restored.ws().tabs.len(), 1);
}

#[test]
fn views_and_module_panes_come_back() {
    let mut app = start();
    app.split(Axis::Col, PaneId(2), shell("/w"), NOW);
    let mut snap = save(&app);
    let view = snap.workspaces[0].tabs[0].panes[0].id;
    let module = snap.workspaces[0].tabs[0].panes[1].id;
    snap.workspaces[0].tabs[0].panes[0].outcome =
        Restored::View(ViewKind::File(FileView { path: "/w/a.rs".to_string() }));
    snap.workspaces[0].tabs[0].panes[1].outcome = Restored::Live(
        shell("/w"),
        Some(ModulePaneRecord { module_id: "m".to_string(), entrypoint: "main".to_string() }),
    );
    let restored = App::from_snapshot(setup(), snap, NOW).unwrap();
    assert_eq!(restored.layout().leaves(), vec![view, module]);
    assert!(matches!(restored.views.get(view), Some(ViewKind::File(f)) if f.path == "/w/a.rs"));
    assert!(!restored.panes.contains_key(view));
    assert_eq!(restored.module_panes.get(module).unwrap().entrypoint, "main");
}

#[test]
fn trees_need_every_pane_once() {
    let leaf = |n: u32| Box::new(SavedTree::Leaf(n));
    let split = SavedTree::Split(Axis::Col, leaf(1), leaf(2));
    let remap = vec![(1, PaneId(11)), (2, PaneId(12))];
    let l = from_tree(&split, &remap, 2).unwrap();
    assert_eq!(l.leaves(), vec![PaneId(11), PaneId(12)]);
    assert_eq!(l.focus, PaneId(12));
    assert_eq!(from_tree(&split, &remap, 9).unwrap().focus, PaneId(11), "else the first pane");
    assert!(from_tree(&split, &vec![(1, PaneId(11))], 1).is_none());
    let twice = SavedTree::Split(Axis::Row, leaf(1), leaf(1));
    assert!(from_tree(&twice, &remap, 1).is_none());
}

#[test]
fn module_panes_need_a_runnable_module() {
    let module = |id: &str, runnable: bool| Module {
        id: id.to_string(),
        runnable,
        docks: Vec::new(),
        panes: vec![PaneDecl { id: "main".to_string(), command: vec!["run".to_string(), "-v".to_string()] }],
    };
    let modules = vec![module("a", true), module("b", false)];
    assert_eq!(
        restore_module_pane(&modules, "a", "main"),
        Some(vec!["run".to_string(), "-v".to_string()])
    );
    assert_eq!(restore_module_pane(&modules, "a", "other"), None);
    assert_eq!(restore_module_pane(&modules, "b", "main"), None);
    assert_eq!(restore_module_pane(&modules, "c", "main"), None);
}

#[test]
fn saved_panes_start_where_they_can() {
    let modules = vec![Module {
        id: "a".to_string(),
        runnable: true,
        docks: Vec::new(),
        panes: vec![PaneDecl { id: "main".to_string(), command: vec!["run".to_string()] }],
    }];
    let record = |id: &str| {
        Some(ModulePaneRecord { module_id: id.to_string(), entrypoint: "main".to_string() })
    };
    let dir = |path: &str| (path.to_string(), !path.starts_with("/gone"));
    let plan = |view: bool, of: &Option<ModulePaneRecord>, own: &str, space: &str, home: &str| {
        plan_pane(view, of, &modules, dir(own), dir(space), dir(home))
    };
    assert!(matches!(plan(true, &record("a"), "/o", "/w", "/home"), PanePlan::View));
    match plan(false, &record("a"), "/o", "/w", "/home") {
        PanePlan::Module(command) => assert_eq!(command, vec!["run".to_string()]),
        other => panic!("{other:?}"),
    }
    match plan(false, &record("b"), "/gone", "/w", "/home") {
        PanePlan::Shell { cwd, fallbacks } => {
            assert_eq!(cwd, "/w");
            assert_eq!(fallbacks, vec!["/home".to_string()]);
        }
        other => panic!("{other:?}"),
    }
    match plan(false, &None, "/o", "/w", "/o/") {
        PanePlan::Shell { cwd, fallbacks } => {
            assert_eq!(cwd, "/o", "its own directory comes first");
            assert_eq!(fallbacks, vec!["/w".to_string()]);
        }
        other => panic!("{other:?}"),
    }
    assert!(matches!(plan(false, &None, "/gone", "/gone2", "/gone3"), PanePlan::Nowhere));
}
