//! The context menus: their rows, their labels and where they are drawn.
use luvus::geometry::Rect;
use luvus::ids::PaneId;
use luvus::menus::{
    build_agent_items, build_diff_items, build_pane_items, build_ws_items, AgentMenuItem,
    AgentTarget, Catalog, DiffMenuItem, FileMenu, FileMenuItem, ModuleMenuAction, OrchForm,
    PaneMenuItem, SwitcherScope, TabMenuItem, WsMenuItem,
};
use luvus::popup::{
    agent_label, cap_first, diff_label, file_label, lay_out, lay_out_rows, measure, module_label,
    pane_label, row_is_hovered, row_look, tab_label, ws_label, MenuRow, RowLook,
};

/// Words that stay lower-case inside a title, unless they lead it.
const MINOR: [&str; 11] = [
    "a", "an", "the", "to", "in", "on", "of", "for", "and", "or", "with",
];

fn english() -> Catalog {
    Catalog {
        act_close: "close",
        act_move: "move",
        agents: "agents",
        files: "files",
        mc_open: "Open Mission Control",
        menu_delete_worktree: "Delete Worktree",
        menu_fork_pane: "Fork to New Pane",
        menu_move_to_tab: "Move to Tab",
        menu_new_tab: "New Tab",
        menu_new_worktree: "New Worktree",
        menu_open_board: "Open Task Board",
        menu_open_file: "Open File",
        menu_open_git: "Open Git",
        menu_open_link: "Open Link",
        menu_open_worktree: "Open Worktree",
        menu_pin: "Pin",
        menu_rename: "Rename",
        menu_resume: "Resume",
        menu_running_cmd: "Running Command",
        menu_split_horizontal: "Split Horizontal",
        menu_split_vertical: "Split Vertical",
        menu_unpin: "Unpin",
        mode_resize_hint: "resize",
        side_left: "Left",
        side_right: "Right",
        sidebar_full: "full",
        switch_scope_all: "all",
        switch_scope_tabs: "tabs",
        tab_cannot_move_left: "already first",
        tab_cannot_move_right: "already last",
        tab_changed_rename_cancelled: "cancelled",
        tab_changed_reopen_menu: "reopen",
        tab_swap_with: "Swap With",
        workspaces: "workspaces",
    }
}

#[test]
fn mobile_menu_hover_covers_the_full_touch_row() {
    let row = Rect::new(4, 7, 20, 2);
    assert!(row_is_hovered(row, Some((5, 7))));
    assert!(row_is_hovered(row, Some((5, 8))));
    assert!(!row_is_hovered(row, Some((5, 9))));
    assert!(!row_is_hovered(row, Some((24, 8))));
    assert!(!row_is_hovered(row, None));
}

/// Every context-menu row reads as **Title Case**: each word capitalized bar
/// the short articles/prepositions, which never lead. Hyphenated parts count
/// as words of their own ("Read-Only"), and trailing marks like the submenu
/// `▸` are ignored.
fn offending_word(label: &str) -> Option<String> {
    let mut lead = true;
    for word in label.split_whitespace() {
        let word = word.trim_matches(|c: char| !c.is_alphanumeric());
        if word.is_empty() {
            continue;
        }
        for part in word.split('-') {
            let Some(first) = part.chars().find(|c| c.is_alphabetic()) else {
                continue;
            };
            let minor = MINOR.contains(&part.to_lowercase().as_str());
            if !first.is_uppercase() && (!minor || lead) {
                return Some(part.to_string());
            }
            lead = false;
        }
    }
    None
}

/// The rule the check itself relies on — a guard against it silently passing
/// everything (it would, if `offending_word` stopped looking at words).
#[test]
fn the_title_case_check_rejects_sentence_case() {
    assert_eq!(offending_word("Open Task Board"), None);
    assert_eq!(offending_word("Fork to New Pane"), None);
    assert_eq!(offending_word("Open (Read-Only)"), None);
    assert_eq!(offending_word("Move to Tab ▸"), None);
    assert_eq!(offending_word("Open task board").as_deref(), Some("task"));
    assert_eq!(offending_word("Open (read-only)").as_deref(), Some("read"));
    assert_eq!(offending_word("to Open").as_deref(), Some("to"));
}

/// One casing standard across every context menu, so the workspace menu can't
/// drift into "Open Mission Control" beside "Open task board" again.
#[test]
fn every_english_context_menu_row_is_title_case() {
    let cat = english();
    let none: Vec<ModuleMenuAction> = Vec::new();
    let editors = vec![("nvim".to_string(), "Neovim".to_string())];

    let mut rows: Vec<String> = Vec::new();
    for it in [
        WsMenuItem::Close,
        WsMenuItem::Rename,
        WsMenuItem::DeleteWorktree,
        WsMenuItem::NewWorktree,
        WsMenuItem::OpenWorktree,
        WsMenuItem::OpenGit,
        WsMenuItem::OpenOrch,
        WsMenuItem::OpenMission,
    ] {
        rows.push(ws_label(it, &cat, &none));
    }
    for it in PaneMenuItem::all() {
        rows.push(pane_label(it, &cat, &none));
    }
    for it in [
        TabMenuItem::Rename,
        TabMenuItem::MoveLeft,
        TabMenuItem::MoveRight,
        TabMenuItem::SwapWith,
    ] {
        rows.push(tab_label(it, &cat, &none));
    }
    // The "Move to Tab" submenu is part of the pane menu: its tab rows are
    // user content, but the trailing "New Tab" is ours.
    rows.push(cat.menu_new_tab.to_string());
    for it in [AgentMenuItem::Resume, AgentMenuItem::Close] {
        rows.push(agent_label(it, &cat, &none));
    }
    for it in [
        FileMenuItem::OpenReadonly,
        FileMenuItem::OpenWith(0),
        FileMenuItem::NewFile,
        FileMenuItem::NewFolder,
        FileMenuItem::Rename,
        FileMenuItem::CopyPath,
        FileMenuItem::Delete,
    ] {
        rows.push(file_label(it, &editors));
    }

    let bad: Vec<String> = rows
        .iter()
        .filter(|r| !r.is_empty())
        .filter_map(|r| offending_word(r).map(|w| format!("{r:?} (word {w:?})")))
        .collect();
    assert!(bad.is_empty(), "menu rows are not Title Case: {bad:#?}");
}

#[test]
fn labels_are_capitalised() {
    assert_eq!(cap_first("close"), "Close");
    assert_eq!(cap_first("élan"), "Élan");
    assert_eq!(cap_first("ßtart"), "SStart", "one character may become two");
    assert_eq!(cap_first(""), "");
    assert_eq!(cap_first("X"), "X");
    let cat = english();
    assert_eq!(ws_label(WsMenuItem::Close, &cat, &Vec::new()), "Close");
    assert_eq!(ws_label(WsMenuItem::Divider, &cat, &Vec::new()), "");
    assert_eq!(tab_label(TabMenuItem::MoveLeft, &cat, &Vec::new()), "Move Left");
    assert_eq!(tab_label(TabMenuItem::MoveRight, &cat, &Vec::new()), "Move Right");
}

#[test]
fn module_rows_carry_their_titles() {
    let extras = vec![ModuleMenuAction {
        module_id: "m".to_string(),
        action_id: "a".to_string(),
        title: "Deploy".to_string(),
    }];
    let cat = english();
    assert_eq!(module_label(&extras, 0), "Deploy");
    assert_eq!(module_label(&extras, 1), "", "a row beyond the list has no label");
    assert_eq!(ws_label(WsMenuItem::Module(0), &cat, &extras), "Deploy");
    assert_eq!(pane_label(PaneMenuItem::Module(0), &cat, &extras), "Deploy");
    assert_eq!(tab_label(TabMenuItem::Module(0), &cat, &extras), "Deploy");
    assert_eq!(agent_label(AgentMenuItem::Module(0), &cat, &extras), "Deploy");
}

#[test]
fn file_and_diff_labels() {
    let editors = vec![("nvim".to_string(), "Neovim".to_string())];
    assert_eq!(file_label(FileMenuItem::OpenWith(0), &editors), "Open in Neovim");
    for it in build_diff_items() {
        assert!(!diff_label(it).is_empty());
    }
    assert_eq!(
        build_diff_items(),
        vec![
            DiffMenuItem::OpenPreview,
            DiffMenuItem::OpenPane,
            DiffMenuItem::OpenTab,
            DiffMenuItem::CopyPath,
        ]
    );
}

#[test]
fn workspace_rows_follow_what_the_workspace_is() {
    assert_eq!(
        build_ws_items(false, false, false, 0),
        vec![
            WsMenuItem::Close,
            WsMenuItem::Rename,
            WsMenuItem::Pin,
            WsMenuItem::Divider,
            WsMenuItem::OpenOrch,
            WsMenuItem::OpenMission,
        ]
    );
    assert_eq!(
        build_ws_items(true, true, true, 1),
        vec![
            WsMenuItem::Close,
            WsMenuItem::Rename,
            WsMenuItem::Unpin,
            WsMenuItem::DeleteWorktree,
            WsMenuItem::NewWorktree,
            WsMenuItem::OpenWorktree,
            WsMenuItem::Divider,
            WsMenuItem::OpenGit,
            WsMenuItem::OpenOrch,
            WsMenuItem::OpenMission,
            WsMenuItem::Divider,
            WsMenuItem::Module(0),
        ]
    );
}

#[test]
fn pane_rows_are_the_possible_ones() {
    let all = PaneMenuItem::all();
    let shown: Vec<PaneMenuItem> = all
        .iter()
        .copied()
        .filter(|it| !matches!(it, PaneMenuItem::ForkPane | PaneMenuItem::OpenFile))
        .collect();
    assert_eq!(build_pane_items(true, false, true, false, 0), shown);
    assert_eq!(build_pane_items(true, true, true, true, 0), all);
}

#[test]
fn agent_rows_depend_on_the_target() {
    assert_eq!(
        build_agent_items(AgentTarget::Session(0), false, 0),
        vec![AgentMenuItem::Resume, AgentMenuItem::Close]
    );
    let live = build_agent_items(AgentTarget::Live(PaneId(1)), true, 0);
    assert!(live.contains(&AgentMenuItem::Unpin));
    assert!(!live.contains(&AgentMenuItem::Pin));
}

#[test]
fn file_rows_depend_on_the_entry() {
    let menu = |is_dir: bool| FileMenu {
        path: "/x".to_string(),
        is_dir,
        anchor: (0, 0),
        items: Vec::new(),
        editors: vec![("nvim".to_string(), "Neovim".to_string())],
    };
    let file = menu(false).build_items();
    assert_eq!(file[0], FileMenuItem::OpenReadonly);
    assert_eq!(file[1], FileMenuItem::OpenWith(0));
    assert_eq!(file.last(), Some(&FileMenuItem::Delete));
    let dir = menu(true).build_items();
    assert!(!dir.contains(&FileMenuItem::OpenReadonly));
    assert!(dir.contains(&FileMenuItem::NewFolder));
}

#[test]
fn popup_stays_on_screen_and_rows_do_not_overlap() {
    let area = Rect::new(0, 0, 40, 12);
    let widths = vec![5, 9, 4];
    for anchor in [(0, 0), (39, 11), (20, 6)] {
        for mobile in [false, true] {
            let p = lay_out(area, anchor, &widths, mobile);
            assert!(p.outer.right() <= area.right());
            assert!(p.outer.bottom() <= area.bottom());
            assert_eq!(p.rows.len(), 3);
            assert_eq!((p.inner.x, p.inner.y), (p.outer.x + 1, p.outer.y + 1));
            assert_eq!(
                (p.inner.width, p.inner.height),
                (p.outer.width - 2, p.outer.height - 2)
            );
            for pair in p.rows.windows(2) {
                assert!(pair[0].bottom() <= pair[1].y);
            }
            let height = if mobile { 2 } else { 1 };
            assert!(p.rows.iter().all(|r| r.height == height));
        }
    }
}

#[test]
fn rows_look_as_they_are() {
    let row = |divider: bool, destructive: bool| MenuRow {
        text: "x".to_string(),
        divider,
        destructive,
    };
    let r = Rect::new(0, 0, 10, 1);
    assert_eq!(row_look(&row(true, false), r, Some((1, 0))), RowLook::Line);
    assert_eq!(row_look(&row(false, true), r, Some((1, 0))), RowLook::Hovered);
    assert_eq!(row_look(&row(false, true), r, None), RowLook::Destructive);
    assert_eq!(row_look(&row(false, false), r, None), RowLook::Plain);
}

#[test]
fn scopes_come_round() {
    let mut scope = SwitcherScope::All;
    for expected in [
        SwitcherScope::Agents,
        SwitcherScope::Tabs,
        SwitcherScope::Workspaces,
        SwitcherScope::All,
    ] {
        scope = scope.next();
        assert_eq!(scope, expected);
    }
    assert_eq!(SwitcherScope::all().len(), 4);
    assert!(SwitcherScope::All.shows(SwitcherScope::Tabs));
    assert!(SwitcherScope::Tabs.shows(SwitcherScope::Tabs));
    assert!(!SwitcherScope::Tabs.shows(SwitcherScope::Agents));
    assert_eq!(SwitcherScope::All.label(&english()), "all");
    assert_eq!(SwitcherScope::Workspaces.label(&english()), "workspaces");
}

#[test]
fn task_form_edits_its_field() {
    let mut form = OrchForm::default();
    form.active_mut().push_str("title");
    form.field = 2;
    form.active_mut().push('7');
    assert_eq!(form.title, "title");
    assert_eq!(form.deps, "7");
    let values = form.values();
    assert_eq!(values[0], "title");
    assert_eq!(values[2], "7");
    assert_eq!(values[3], "");
}

#[test]
fn rows_are_as_wide_as_their_labels_on_the_screen() {
    let row = |text: &str| MenuRow { text: text.to_string(), divider: false, destructive: false };
    let rows = vec![row("Close"), row("閉じる"), row("")];
    assert_eq!(measure(&rows), vec![5, 6, 0]);
    let area = Rect::new(0, 0, 40, 12);
    let p = lay_out_rows(area, (3, 3), &rows, false).expect("room");
    assert_eq!(p, lay_out(area, (3, 3), &vec![5, 6, 0], false));
    assert!(lay_out_rows(Rect::new(0, 0, 1, 1), (0, 0), &rows, false).is_none());
}
