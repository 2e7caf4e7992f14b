//! The sidebars and their docks, and dragging edges with the mouse.
use luvus::app::restore::Setup;
use luvus::app::spaces::Opening;
use luvus::app::{App, DockDecl, Effect, Module};
use luvus::config::{Config, SideConfig, SidebarsConfig};
use luvus::docks::{
    DockKind, DockRow, DockRowMenuItem, Side, SideState, Sidebars, MAX_DOCKS_PER_SIDE,
    SIDEBAR_WIDTH_DEFAULT, SIDEBAR_WIDTH_MAX, SIDEBAR_WIDTH_MIN,
};
use luvus::geometry::Rect;
use luvus::ids::PaneId;
use luvus::layout::{Axis, Divider};
use luvus::menus::Catalog;
use luvus::status::Pane;

fn catalog() -> Catalog {
    Catalog {
        act_close: "close",
        act_move: "move",
        agents: "Agents",
        files: "Files",
        mc_open: "Open Mission Control",
        menu_delete_worktree: "Delete Worktree",
        menu_fork_pane: "Fork to New Pane",
        menu_move_to_tab: "Move to Tab",
        menu_new_tab: "New Tab",
        menu_new_worktree: "New Worktree",
        menu_open_board: "Open Task Board",
        menu_open_file: "Open File",
        menu_open_git: "Open Git",
        menu_open_link: "Open Link",
        menu_open_worktree: "Open Worktree",
        menu_pin: "Pin",
        menu_rename: "Rename",
        menu_resume: "Resume",
        menu_running_cmd: "Running Command",
        menu_split_horizontal: "Split Horizontal",
        menu_split_vertical: "Split Vertical",
        menu_unpin: "Unpin",
        mode_resize_hint: "arrows resize",
        side_left: "left",
        side_right: "right",
        sidebar_full: "that sidebar is full",
        switch_scope_all: "all",
        switch_scope_tabs: "tabs",
        tab_cannot_move_left: "already first",
        tab_cannot_move_right: "already last",
        tab_changed_rename_cancelled: "tab changed, rename cancelled",
        tab_changed_reopen_menu: "tab changed, reopen the menu",
        tab_swap_with: "Swap With",
        workspaces: "Workspaces",
    }
}
fn start() -> App {
    let setup = Setup { config: Config::default(), catalog: catalog(), modules: Vec::new() };
    let pane = Pane {
        cwd: "/w".to_string(),
        command: "zsh".to_string(),
        child_pid: 1,
        mouse_report: false,
        data_pending: false,
        terminal_id: None,
    };
    let opening = Opening {
        workspace_id: "workspace-1".to_string(),
        tab_id: "tab-1".to_string(),
        branch: None,
        worktree: None,
        pane: PaneId(1),
        spawned: Some(pane),
    };
    App::new(setup, "/w".to_string(), opening, 0).expect("a shell")
}

fn divider() -> Option<Divider> {
    Some(Divider { path: Vec::new(), axis: Axis::Col })
}

/// Two panes side by side, with a border column of each between the contents.
fn side_by_side() -> App {
    let mut app = start();
    app.pane_rects = vec![(PaneId(1), Rect::new(0, 0, 60, 40)), (PaneId(2), Rect::new(60, 0, 60, 40))];
    app.pane_content_rects =
        vec![(PaneId(1), Rect::new(1, 1, 58, 38)), (PaneId(2), Rect::new(61, 1, 58, 38))];
    app
}

#[test]
fn sidebars_migrate_from_legacy_width() {
    let cfg = Config { sidebars: None, sidebar_width: 30, ..Default::default() };
    let s = cfg.sidebars();
    assert!(s.left.visible);
    assert_eq!(s.left.width, 30, "migration carries the legacy width");
    assert_eq!(s.left.docks, vec!["workspaces", "agents"]);
    assert!(!s.right.visible);
    assert!(s.right.docks.is_empty());
}

// Move a built-in dock across sides, then push + retire a module dock — the
// layout and cache track it.
#[test]
fn docks_move_and_module_dock_lifecycle() {
    let mut app = start();
    assert_eq!(
        app.sidebars.left.docks,
        vec![DockKind::Workspaces, DockKind::Agents]
    );
    assert!(app.sidebars.right.docks.is_empty());

    // Move Agents to the right sidebar (as the settings tab does).
    app.move_dock(&DockKind::Agents, Side::Right);
    assert_eq!(app.sidebars.left.docks, vec![DockKind::Workspaces]);
    assert_eq!(app.sidebars.right.docks, vec![DockKind::Agents]);
    assert!(
        app.config.sidebars.is_some(),
        "the move persisted to config"
    );
    assert!(matches!(app.outbox.last(), Some(Effect::SaveConfig)));

    // A module pushes a dock: it caches + auto-mounts on the requested side.
    let k = DockKind::Module("mod:status".to_string());
    app.push_module_dock(
        "mod:status",
        Some("Status".to_string()),
        Side::Right,
        vec![DockRow {
            text: "build ok".to_string(),
            dot: Some("done".to_string()),
            action: None,
            value: None,
            menu: Vec::new(),
        }],
    );
    assert_eq!(app.sidebars.side_of(&k), Some(Side::Right));
    assert_eq!(app.dock_label(&k), "Status");

    // Retiring the module removes its dock + cache.
    app.remove_module_docks(&vec!["mod:status".to_string()]);
    assert_eq!(app.sidebars.side_of(&k), None);
    assert!(!app.module_docks.iter().any(|(id, _)| id == "mod:status"));
}

// A sidebar holds at most MAX_DOCKS_PER_SIDE docks. A move onto a full side is
// rejected (the dock keeps its spot), and an over-full config is truncated to
// "off" on load.
#[test]
fn sidebar_dock_cap_is_enforced() {
    let mut app = start();

    // Fill the left side to the cap: workspaces, agents, files.
    assert!(app.move_dock(&DockKind::Files, Side::Left));
    assert_eq!(app.sidebars.left.docks.len(), MAX_DOCKS_PER_SIDE);

    // A module dock now can't auto-mount onto the full left side — it stays off.
    let m = DockKind::Module("mod:x".to_string());
    app.push_module_dock("mod:x", None, Side::Left, Vec::new());
    assert_eq!(app.sidebars.side_of(&m), None, "no room → dock stays off");

    // Put it on the right, then try to move it onto the full left: rejected,
    // and it keeps its right-hand spot.
    assert!(app.move_dock(&m, Side::Right));
    assert!(
        !app.move_dock(&m, Side::Left),
        "moving onto a full side is rejected"
    );
    assert_eq!(
        app.sidebars.side_of(&m),
        Some(Side::Right),
        "the rejected dock keeps its original side"
    );
    assert_eq!(app.sidebars.left.docks.len(), MAX_DOCKS_PER_SIDE);
    assert_eq!(app.toast.as_deref(), Some("that sidebar is full"));

    // A config with more than the cap on one side truncates the overflow off.
    let cfg = SidebarsConfig {
        left: SideConfig {
            visible: true,
            width: 26,
            docks: vec![
                "workspaces".to_string(),
                "agents".to_string(),
                "files".to_string(),
                "mod:y".to_string(),
            ],
        },
        right: SideConfig { visible: false, width: 26, docks: Vec::new() },
    };
    let sidebars = Sidebars::from_config(&cfg);
    assert_eq!(
        sidebars.left.docks.len(),
        MAX_DOCKS_PER_SIDE,
        "load truncates the over-cap side"
    );
    assert!(
        !sidebars.left.has(&DockKind::Module("mod:y".to_string())),
        "the overflow dock is dropped to off"
    );
}

#[test]
fn off_unmounts_and_stays_in_registry() {
    let mut app = start();
    assert_eq!(app.sidebars.side_of(&DockKind::Agents), Some(Side::Left));
    app.unmount_dock(&DockKind::Agents); // the [Off] action
    assert_eq!(
        app.sidebars.side_of(&DockKind::Agents),
        None,
        "Off unmounts"
    );
    assert!(
        app.available_docks().contains(&DockKind::Agents),
        "still in the registry to re-place"
    );
}

#[test]
fn a_dock_switched_off_stays_off() {
    let mut app = start();
    app.push_module_dock("mod:s", None, Side::Right, Vec::new());
    let k = DockKind::Module("mod:s".to_string());
    assert_eq!(app.sidebars.side_of(&k), Some(Side::Right));
    app.unmount_dock(&k);
    app.push_module_dock("mod:s", None, Side::Right, Vec::new());
    assert_eq!(app.sidebars.side_of(&k), None, "a push does not bring it back");
    assert_eq!(app.dock_label(&k), "mod:s", "without a title it goes by its id");
}

#[test]
fn the_registry_lists_each_dock_once() {
    let mut app = start();
    app.modules = vec![Module {
        id: "m".to_string(),
        runnable: true,
        docks: vec![DockDecl { id: "m:board".to_string(), title: "Board".to_string() }],
        panes: Vec::new(),
    }];
    app.push_module_dock("m:board", None, Side::Right, Vec::new());
    let docks = app.available_docks();
    for (i, d) in docks.iter().enumerate() {
        assert!(!docks[i + 1..].contains(d), "{d:?} twice");
    }
    assert!(docks.contains(&DockKind::Module("m:board".to_string())));
    assert_eq!(app.module_dock_title("m:board"), "m:board");
    app.module_docks.clear();
    assert_eq!(app.module_dock_title("m:board"), "Board", "the declared title");
    assert_eq!(app.module_dock_title("other"), "other");
    assert_eq!(app.docks_flat().len(), 3);
}

#[test]
fn dock_ids_round_trip() {
    for kind in [
        DockKind::Workspaces,
        DockKind::Agents,
        DockKind::Files,
        DockKind::Module("mod:a".to_string()),
    ] {
        assert_eq!(DockKind::from_id(kind.id()), kind);
    }
    assert_eq!(DockKind::from_id("files"), DockKind::Files);
}

#[test]
fn a_side_survives_its_settings() {
    let cfg = SideConfig {
        visible: true,
        width: 90,
        docks: vec!["agents".to_string(), "mod:x".to_string()],
    };
    let side = SideState::from_config(&cfg);
    assert_eq!(side.width, SIDEBAR_WIDTH_MAX, "a width beyond the bounds is cut");
    assert!(side.shown());
    let again = SideState::from_config(&side.to_config());
    assert_eq!((again.visible, again.width), (side.visible, side.width));
    assert_eq!(again.docks, side.docks);
    let empty = SideState { visible: true, width: SIDEBAR_WIDTH_DEFAULT, docks: Vec::new() };
    assert!(!empty.shown(), "an empty sidebar is not drawn");
}

#[test]
fn sides_toggle_and_keep_to_widths() {
    let mut app = start();
    app.set_side_width(Side::Left, 3);
    assert_eq!(app.sidebars.left.width, SIDEBAR_WIDTH_MIN);
    app.set_side_width(Side::Left, 300);
    assert_eq!(app.sidebars.left.width, SIDEBAR_WIDTH_MAX);
    app.toggle_side(Side::Left);
    assert!(!app.sidebars.left.visible);
    app.toggle_side(Side::Left);
    assert!(app.sidebars.left.visible);
    app.toggle_all_sides();
    assert!(!app.sidebars.left.visible && !app.sidebars.right.visible);
    app.toggle_all_sides();
    assert!(app.sidebars.left.visible);
    assert!(app.sidebars.has_room(Side::Right));
    app.sidebars.get_mut(Side::Right).width = 20;
    assert_eq!(app.sidebars.get(Side::Right).width, 20);
}

#[test]
fn dividers_in_dock_menus() {
    let item = |title: &str, action: &str| DockRowMenuItem {
        title: title.to_string(),
        action: action.to_string(),
        value: None,
        destructive: false,
    };
    assert!(item("", "").is_divider());
    assert!(!item("Open", "open").is_divider());
}

#[test]
fn mouse_drag_resizes_pane_and_content_press_still_selects() {
    let mut app = side_by_side();
    assert!(app.begin_resize(60, 2, divider()), "grabbed the divider");
    assert!(app.resize_drag.is_some(), "grabbed the divider");
    let share = app.update_resize(Some(Rect::new(0, 0, 120, 40)), 40, 2);
    assert_eq!(share, Some((40, 120)), "left pane narrowed");
    app.end_resize();
    assert!(app.resize_drag.is_none(), "released the drag");
    assert_eq!(app.update_resize(Some(Rect::new(0, 0, 120, 40)), 40, 2), None);

    assert!(!app.begin_resize(64, 4, divider()));
    assert!(app.resize_drag.is_none(), "content press is not a resize");
}

#[test]
fn resize_grab_zone_does_not_reach_into_pane_content() {
    let mut app = side_by_side();
    // Every cell that belongs to a pane's content must be the pane's, even
    // the columns hugging the seam.
    let rects: Vec<Rect> = app.pane_content_rects.iter().map(|(_, r)| *r).collect();
    for rc in &rects {
        let mid = rc.y + rc.height / 2;
        for x in [rc.x, rc.right().saturating_sub(1)] {
            assert!(
                !app.begin_resize(x, mid, divider()),
                "clicking pane content at ({x},{mid}) must not grab a divider"
            );
            assert!(app.resize_drag.is_none());
            app.end_resize();
        }
    }

    // The seam itself is still grabbable: the gap/border column between the
    // two content rects belongs to no pane.
    let left = rects.iter().min_by_key(|r| r.x).unwrap();
    let right = rects.iter().max_by_key(|r| r.x).unwrap();
    let seam = (left.right() + right.x) / 2;
    let mid = left.y + left.height / 2;
    assert!(
        app.begin_resize(seam, mid, divider()),
        "the seam at ({seam},{mid}) still grabs the divider"
    );
    assert!(app.resize_drag.is_some(), "a drag started from the seam");
    app.end_resize();
}

/// On a stacked split the horizontal divider lands on the lower pane's top
/// border — the very row that holds its title, ⤢ zoom, and ✕ close. A resize
/// grab must yield to all of that chrome (not just ✕), or those controls are
/// unclickable; the non-chrome part of the seam must still grab the divider.
#[test]
fn resize_yields_to_pane_title_and_zoom_but_still_grabs_the_seam() {
    let mut app = start();
    let zoom = Rect::new(110, 20, 3, 1);
    let title = Rect::new(2, 20, 12, 1);
    let close = Rect::new(114, 20, 3, 1);
    app.pane_zoom_rect = Some(zoom);
    app.pane_close_rect = Some(close);
    app.pane_title_rects = vec![(PaneId(1), Rect::new(2, 0, 12, 1)), (PaneId(2), title)];

    for (name, rc) in [("zoom", zoom), ("title", title), ("close", close)] {
        assert!(
            !app.begin_resize(rc.x + 1, rc.y, divider()),
            "clicking the {name} must not grab the divider"
        );
        assert!(app.resize_drag.is_none(), "{name}: no resize started");
        app.end_resize();
    }

    // The bare middle of the same border row (between the title and the
    // buttons) is not chrome, so it still grabs the divider to resize.
    let divider_row = zoom.y;
    let bare = 60u16; // mid-width: past the title, before the right-edge buttons
    assert!(
        !app.on_pane_chrome(bare, divider_row),
        "the chosen seam cell is genuinely not chrome"
    );
    assert!(
        app.begin_resize(bare, divider_row, divider()),
        "the non-chrome seam at ({bare},{divider_row}) still grabs the divider"
    );
    assert!(app.resize_drag.is_some(), "a drag started from the seam");
    app.end_resize();
}

fn drawn_with_left_sidebar() -> App {
    let mut app = start();
    let width = app.sidebars.left.width;
    app.last_main_area = Rect::new(0, 1, 120, 38);
    app.last_pane_area = Rect::new(width, 1, 120 - width, 38);
    app.left_seam = Some(Rect::new(width - 1, 1, 1, 38));
    app
}

#[test]
fn dragging_the_left_sidebar_edge_resizes_and_persists() {
    let mut app = drawn_with_left_sidebar();
    let seam = app.left_seam.expect("left sidebar is shown, so it has a seam");
    let before = app.sidebars.left.width;

    // Grab the seam and drag it 6 columns to the right (wider).
    assert!(app.begin_sidebar_resize(seam.x, seam.y + 3));
    assert_eq!(
        app.sidebar_resize,
        Some(Side::Left),
        "grabbed the left sidebar edge"
    );
    app.update_sidebar_resize(seam.x + 6);
    app.outbox.clear();
    app.end_sidebar_resize();
    assert!(app.sidebar_resize.is_none(), "released the drag");
    assert_eq!(
        app.sidebars.left.width,
        before + 6,
        "the left sidebar widened by the drag distance"
    );
    // Released width is persisted for the next launch.
    assert_eq!(
        app.config.sidebars.as_ref().unwrap().left.width,
        before + 6,
        "the new width was written to config"
    );
    assert!(matches!(app.outbox.last(), Some(Effect::SaveConfig)));
}

#[test]
fn sidebar_drag_clamps_and_never_crushes_the_content() {
    let mut app = drawn_with_left_sidebar();
    let seam = app.left_seam.unwrap();
    assert!(app.begin_sidebar_resize(seam.x, seam.y + 3));
    // Drag far past the right edge: width caps at MAX, never eats the content.
    app.update_sidebar_resize(119);
    assert!(
        app.sidebars.left.width <= SIDEBAR_WIDTH_MAX,
        "width never exceeds the max ({} > {SIDEBAR_WIDTH_MAX})",
        app.sidebars.left.width
    );
    assert!(
        120 - app.sidebars.left.width >= 24,
        "the content keeps at least 24 columns"
    );
    // Drag hard left: width floors at MIN rather than collapsing to nothing.
    app.update_sidebar_resize(0);
    assert_eq!(
        app.sidebars.left.width, SIDEBAR_WIDTH_MIN,
        "a leftward drag floors at the minimum, not zero (closing is the chevron's job)"
    );

    // In a narrow window the panes keep their columns.
    app.last_main_area = Rect::new(0, 1, 60, 38);
    app.update_sidebar_resize(59);
    assert_eq!(app.sidebars.left.width, 36);
}

#[test]
fn a_pane_click_does_not_start_a_sidebar_resize() {
    let mut app = drawn_with_left_sidebar();
    let pane = app.last_pane_area;
    assert!(!app.begin_sidebar_resize(pane.x + 5, pane.y + 5));
    assert!(
        app.sidebar_resize.is_none(),
        "a click inside a pane never grabs the sidebar edge"
    );
    assert_eq!(app.sidebar_seam_at(pane.x, 0), None, "only the rows of the panes count");
    app.update_hover_sidebar(pane.x - 1, pane.y + 5);
    assert_eq!(app.hover_sidebar, Some(Side::Left));
    app.update_hover_sidebar(pane.x + 9, pane.y + 5);
    assert_eq!(app.hover_sidebar, None);
}

#[test]
fn themes_are_reduced_without_true_colour() {
    let mut app = start();
    assert!(!app.set_color_mode(true));
    assert!(!app.apply_terminal_colors());
    assert!(app.set_color_mode(false));
    assert!(app.apply_terminal_colors());
}

#[test]
fn hovered_dividers_are_kept() {
    let mut app = side_by_side();
    app.update_hover_divider(60, 5, divider());
    assert!(app.hover_divider.is_some());
    app.update_hover_divider(10, 5, divider());
    assert!(app.hover_divider.is_none(), "not over a pane's content");
    app.panes.get_mut(PaneId(1)).unwrap().mouse_report = true;
    assert!(!app.begin_resize_nearest(10, 5, divider()), "its program takes the mouse");
    app.panes.get_mut(PaneId(1)).unwrap().mouse_report = false;
    assert!(app.begin_resize_nearest(10, 5, divider()));
}
