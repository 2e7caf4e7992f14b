//! Worktree groups, paths, selections and texts.
use luvus::geometry::Rect;
use luvus::grouping::{group_worktrees, pin_order};
use luvus::ids::PaneId;
use luvus::paths::{
    file_name, free_place, git_branch_step, head_branch, join, parent, path_in, plan_worktree, same_path, slug,
    worktrees_dir_for, ws_name, DotGit, HeadSearch,
};
use luvus::ring::wrap;
use luvus::selection::{CopyMode, RetainedSelection, Selection};
use luvus::terminal::row::append_utf8_bounded;
use luvus::text::{byte_len, take_chars, trim};

/// A worktree groups directly under the node it branched from, wherever that
/// parent sits in the list — not at the worktree's raw creation position.
#[test]
fn worktrees_group_under_their_parent() {
    let sudos = "/repo/sudos/.git";
    let agave = "/repo/agave/.git";
    // Creation order: sudos (main), agave (main), a non-git node, then a
    // worktree of sudos added last — which is where the bug put it at the end.
    let nodes = vec![
        (Some(sudos), false), // 0 sudos main
        (Some(agave), false), // 1 agave main
        (None, false),        // 2 videoscript (not a repo)
        (Some(sudos), true),  // 3 test — a linked worktree of sudos
    ];
    // The worktree (3) nests right under sudos (0), not after videoscript.
    assert_eq!(
        group_worktrees(&nodes),
        vec![(0, false), (3, true), (1, false), (2, false)]
    );
}

/// Several worktrees of one repo stack under it, and a worktree whose main
/// checkout is not open still shows (as its own root, second pass).
#[test]
fn multiple_worktrees_and_an_orphan() {
    let a = "/r/a/.git";
    let b = "/r/b/.git";
    let nodes = vec![
        (Some(b), true),  // 0 orphan worktree of b (main b not open)
        (Some(a), false), // 1 main a
        (Some(a), true),  // 2 worktree a1
        (Some(a), true),  // 3 worktree a2
    ];
    assert_eq!(
        group_worktrees(&nodes),
        vec![(1, false), (2, true), (3, true), (0, false)]
    );
}

#[test]
fn pinned_groups_come_first() {
    let rows = vec![(0, false), (1, false), (2, true), (3, false)];
    assert_eq!(
        pin_order(&rows, &vec![false, false, true, false]),
        vec![(1, false), (2, true), (0, false), (3, false)],
        "a pinned worktree takes its group along"
    );
    assert_eq!(pin_order(&rows, &vec![false; 4]), rows);
}

#[test]
fn selection_keeps_the_drag_left_edge_between_lines() {
    // Content rect at (x=2, y=1), 10 wide × 5 tall.
    let content = Rect::new(2, 1, 10, 5);
    let sel = Selection {
        pane: PaneId(1),
        content,
        anchor: (4, 1),
        cursor: (6, 3),
        retained: None,
        scrolled: false,
        dragging: false,
    };
    // First row: from the anchor column to the right edge.
    assert!(sel.contains(4, 1));
    assert!(sel.contains(11, 1)); // last column (right() == 12)
    assert!(!sel.contains(3, 1)); // before the anchor

    // Middle row: it keeps the drag's left edge instead of expanding into the
    // pane's left margin.
    assert!(!sel.contains(2, 2));
    assert!(sel.contains(4, 2) && sel.contains(11, 2));
    // Last row: up to the cursor column.
    assert!(sel.contains(6, 3));
    assert!(!sel.contains(7, 3)); // past the cursor

    // Outside the row range / pane.
    assert!(!sel.contains(5, 0) && !sel.contains(5, 4) && !sel.contains(99, 2));
    // Dragging up-left selects the same range (anchor/cursor order-independent).
    let rev = Selection { anchor: (6, 3), cursor: (4, 1), ..sel };
    assert!(rev.contains(11, 1) && rev.contains(6, 3) && !rev.contains(7, 3));
    assert_eq!(rev.ordered(), sel.ordered());
    assert!(sel.has_range());
    assert!(!Selection { cursor: (4, 1), ..sel }.has_range());
}

#[test]
fn retained_and_keyboard_selections_agree_on_ranges() {
    let r = RetainedSelection { anchor: (7, 3), cursor: (5, 9) };
    assert_eq!(r.ordered(), ((5, 9), (7, 3)));
    assert!(r.contains(5, 9, 20) && r.contains(5, 19, 20));
    assert!(!r.contains(5, 8, 20));
    assert!(r.contains(6, 3, 20) && !r.contains(6, 2, 20), "the left edge of the drag");
    assert!(r.contains(7, 3, 20) && !r.contains(7, 4, 20));
    let c = CopyMode { pane: PaneId(1), anchor: (7, 3), cursor: (5, 9), saved_scroll: 0 };
    assert_eq!(c.ordered(), ((5, 9), (7, 3)));
    assert!(c.contains(5, 9) && !c.contains(5, 8) && c.contains(7, 3) && !c.contains(8, 0));
}

#[test]
fn workspaces_are_named_after_their_directory() {
    assert_eq!(ws_name("/home/me/project"), "project");
    assert_eq!(ws_name("/home/me/project/"), "project");
    assert_eq!(ws_name("/"), "workspace");
    assert_eq!(file_name("/a/.."), None);
    assert_eq!(file_name("/a/."), Some("a".to_string()));
    assert_eq!(parent("/a/b"), Some("/a".to_string()));
    assert_eq!(parent("/a"), Some("/".to_string()));
    assert_eq!(parent("/"), None);
    assert_eq!(join("/a", "b"), "/a/b");
    assert_eq!(join("/a/", "b"), "/a/b");
    assert_eq!(join("/a", "/b"), "/b");
    assert!(path_in("/a/b/c", "/a/b"));
    assert!(path_in("/a/b", "/a/b/"));
    assert!(!path_in("/a/bc", "/a/b"));
}

#[test]
fn worktrees_find_a_free_place() {
    assert_eq!(worktrees_dir_for("/cfg", "/r/site", None), "/cfg/worktrees/site");
    assert_eq!(worktrees_dir_for("/cfg", "/wt/x", Some("/r/site")), "/cfg/worktrees/site");
    assert_eq!(slug("feature/login page"), "feature-login-page");
    let none: Vec<String> = Vec::new();
    assert_eq!(free_place("/t", "a", &none), "/t/a");
    let taken = vec!["/t/a".to_string(), "/t/a-2".to_string()];
    assert_eq!(free_place("/t", "a", &taken), "/t/a-3");
    let plan = plan_worktree(" x ", true, "/t", &none).unwrap();
    assert_eq!((plan.branch.as_str(), plan.path.as_str()), ("x", "/t/x"));
    assert_eq!(plan_worktree("", true, "/t", &none).err(), Some("a branch name is required".to_string()));
    assert_eq!(plan_worktree("x", false, "/t", &none).err(), Some("not a git repository".to_string()));
}

#[test]
fn the_branch_is_read_from_head() {
    assert_eq!(head_branch("ref: refs/heads/feature/x\n"), "feature/x");
    assert_eq!(head_branch("0123456789abcdef\n"), "0123456", "a detached head is shortened");
    assert_eq!(
        git_branch_step("/r/site", &DotGit::Directory),
        HeadSearch::Read("/r/site/.git/HEAD".to_string())
    );
    assert_eq!(
        git_branch_step("/wt/x", &DotGit::File(Some("gitdir: /r/.git/worktrees/x\n".to_string()))),
        HeadSearch::Read("/r/.git/worktrees/x/HEAD".to_string())
    );
    assert_eq!(
        git_branch_step("/r/sub", &DotGit::File(Some("gitdir: ../.git/modules/sub".to_string()))),
        HeadSearch::Read("/r/sub/../.git/modules/sub/HEAD".to_string())
    );
    assert_eq!(git_branch_step("/r", &DotGit::File(None)), HeadSearch::Over);
    assert_eq!(
        git_branch_step("/r", &DotGit::File(Some("nonsense".to_string()))),
        HeadSearch::Over
    );
    assert_eq!(
        git_branch_step("/r/a", &DotGit::Missing),
        HeadSearch::Above("/r".to_string())
    );
    assert_eq!(git_branch_step("/", &DotGit::Missing), HeadSearch::Over);
}

#[test]
fn bounded_appends_never_cut_a_character() {
    let mut out = String::from("ab");
    assert!(!append_utf8_bounded(&mut out, "éé", 5), "not all of it fits");
    assert_eq!(out, "abé");
    assert!(append_utf8_bounded(&mut out, "c", 5));
    assert_eq!(out, "abéc");
    assert!(!append_utf8_bounded(&mut out, "d", 5));
    assert_eq!(byte_len("é€𝄞"), 9);
}

#[test]
fn texts_are_trimmed_and_cut() {
    assert_eq!(trim(" \t x y \n"), "x y");
    assert_eq!(trim("\u{a0}x\u{2003}"), "x");
    assert_eq!(take_chars("héllo", 2), "hé");
}

#[test]
fn positions_go_round() {
    assert_eq!(wrap(0, -1, 3), 2);
    assert_eq!(wrap(2, 1, 3), 0);
    assert_eq!(wrap(1, -7, 3), 0);
    assert_eq!(wrap(0, 5, 1), 0);
}

#[test]
fn nothing_fits_behind_a_text_that_is_too_long_already() {
    let mut out = "abcdef".to_string();
    assert!(!append_utf8_bounded(&mut out, "", 5), "the text itself is over the limit");
    assert!(append_utf8_bounded(&mut out, "", 6));
    assert_eq!(out, "abcdef");
}

#[test]
fn paths_are_compared_by_their_components() {
    let nodes = [(Some("/r/.git"), false), (Some("/x/.git"), false), (Some("/r//./.git/"), true)];
    assert_eq!(group_worktrees(&nodes), vec![(0, false), (2, true), (1, false)]);
    assert!(!path_in("/r/.git", "."), "a dot at the start is a component");
    assert!(path_in("./a/b", "./a/"));
    assert!(!path_in("./a", "a"));
    assert!(path_in("a/./b", "a"));
    assert!(same_path("/w/", "/w/."));
    assert!(!same_path("./w", "w"));
}

#[test]
fn the_first_worktree_leads_where_no_checkout_is_open() {
    let nodes = [(Some("/r/.git"), true), (None, true), (Some("/r/.git"), true)];
    assert_eq!(group_worktrees(&nodes), vec![(0, false), (2, true), (1, false)]);
}
