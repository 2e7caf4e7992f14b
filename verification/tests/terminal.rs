//! The terminal engine on real output.
use std::sync::mpsc::channel;

use luvus::terminal::capture::CaptureMode;
use luvus::terminal::composer::CodexComposerRegion;
use luvus::terminal::engine::{
    estimated_row_bytes, history_rows_for_budget, AlacrittyEngine, GridUsage, InputAction,
};
use luvus::terminal::style::Color;

fn feed_lines(e: &mut AlacrittyEngine, n: usize) {
    for i in 0..n {
        e.advance(format!("line{i}\r\n").as_bytes());
    }
}

fn budget_for_rows(cols: usize, rows: usize) -> usize {
    estimated_row_bytes(cols).saturating_mul(rows)
}

#[test]
fn scrollback_limit_is_honored_and_shrinks_live() {
    let (tx, _rx) = channel();
    let mut e = AlacrittyEngine::new(20, 5, tx, budget_for_rows(20, 100));
    feed_lines(&mut e, 400);
    assert_eq!(e.history_len(), 100, "history is capped at the configured limit");

    // Lowering it reclaims immediately…
    assert!(e.set_history_budget(budget_for_rows(20, 20)), "the budget shrank");
    assert_eq!(e.history_len(), 20, "excess history is dropped on the spot");
    let compacted = e.history_metrics(GridUsage {
        estimated_grid_bytes: 4096,
        cache_bytes: Some(0),
        compacted_rows: Some(0),
        allocated_cells: Some(500),
    });
    assert_eq!(compacted.cache_bytes, Some(0), "the grid's own figures are handed on");
    assert!(!compacted.exact_bytes, "dynamic cell allocations remain estimated");
    assert_eq!(compacted.estimated_grid_bytes, 4096, "the grid's own figures are handed on");
    assert_eq!(compacted.retained_rows, 20);
    assert_eq!(compacted.retained_bytes, budget_for_rows(20, 20));
    assert_eq!(compacted.budget_bytes, budget_for_rows(20, 20));
    assert_eq!(compacted.offset, 0);
    // …and the viewport can't be left scrolled past the new end.
    e.scroll_to_top();
    assert!(e.scroll_offset() <= 20);

    // Raising it takes effect as new output accumulates.
    assert!(!e.set_history_budget(budget_for_rows(20, 200)));
    feed_lines(&mut e, 400);
    assert_eq!(e.history_len(), 200, "the raised limit is used");
}

#[test]
fn rows_of_a_budget_depend_on_the_width() {
    let narrow = estimated_row_bytes(20);
    let wide = estimated_row_bytes(200);
    assert!(wide > narrow);
    assert_eq!(history_rows_for_budget(narrow * 7, 20), 7);
    assert_eq!(history_rows_for_budget(narrow * 8 - 1, 20), 7);
    assert_eq!(history_rows_for_budget(0, 20), 1, "one row is always kept");
}

#[test]
fn features_survive_history_and_reflow() {
    let (tx, _rx) = channel();
    let mut e = AlacrittyEngine::new(40, 5, tx, budget_for_rows(40, 500));
    e.advance(b"\x1b[38;2;12;200;155mCOLOR\x1b[0m cafe\xcc\x81 \x1b]8;;https://luvus.dev\x1b\\LINK\x1b]8;;\x1b\\\r\n");
    assert!(e.detection_text(100).contains("cafe\u{301}"));
    feed_lines(&mut e, 80);

    e.scroll_to_top();
    let rendered: Vec<(String, Color)> = e
        .for_each_cell()
        .iter()
        .filter(|c| c.symbol != " ")
        .map(|c| (c.symbol.clone(), c.style.fg))
        .collect();
    assert!(rendered.iter().any(|(symbol, _)| symbol == "e\u{301}"));
    assert!(rendered
        .iter()
        .any(|(symbol, color)| symbol == "C" && *color == Color::Rgb(12, 200, 155)));
    assert!(e.visible_rows().join("\n").contains("LINK"));
    let retained = e.retained_row_text(0).expect("oldest feature row remains readable");
    assert!(retained.contains("cafe\u{301}"));

    e.resize(80, 8);
    e.scroll_to_top();
    assert!(e.visible_rows().join("\n").contains("COLOR"));
    assert!(e.visible_rows().join("\n").contains("LINK"));
}

#[test]
fn output_generation_advances_only_with_parser_input() {
    let (tx, _rx) = channel();
    let mut e = AlacrittyEngine::new(20, 5, tx, budget_for_rows(20, 20));
    assert_eq!(e.output_generation(), 0);
    e.advance(b"hello");
    assert_eq!(e.output_generation(), 1);
    e.resize(40, 10);
    assert_eq!(e.output_generation(), 1, "resize uses the explicit force path");
    e.advance(b" world");
    assert_eq!(e.output_generation(), 2);
}

#[test]
fn retained_selection_preserves_unicode_scripts_and_clusters() {
    let samples = [
        "你好，世界",
        "こんにちは",
        "안녕하세요",
        "مرحبا",
        "שלום",
        "नमस्ते",
        "สวัสดี",
        "cafe\u{301}",
        "🖥️ coding",
        "👩‍💻 pair",
    ];

    for sample in samples {
        let (tx, _rx) = channel();
        let mut engine = AlacrittyEngine::new(80, 3, tx, budget_for_rows(80, 20));
        engine.advance(format!("\x1b[H\x1b[2J{sample}").as_bytes());
        let row = (0..engine.retained_row_count())
            .find(|row| engine.retained_row_text(*row).as_deref() == Some(sample))
            .expect("sample retained row");
        let layout = engine.retained_row_layout(row).expect("retained row layout");
        let selected = engine
            .retained_selection_text(((row, 0), (row, layout.last_column())))
            .expect("selected row");
        assert_eq!(selected, sample, "Unicode selection changed {sample:?}");
    }
}

#[test]
fn retained_selection_uses_visual_columns_for_mixed_cjk_text() {
    let (tx, _rx) = channel();
    let mut engine = AlacrittyEngine::new(40, 4, tx, budget_for_rows(40, 20));
    engine.advance("\x1b[H\x1b[2J你好，hello.\r\nمرحبا world".as_bytes());
    let first = (0..engine.retained_row_count())
        .find(|row| engine.retained_row_text(*row).as_deref() == Some("你好，hello."))
        .expect("first retained row");
    let second = (0..engine.retained_row_count())
        .find(|row| engine.retained_row_text(*row).as_deref() == Some("مرحبا world"))
        .expect("second retained row");

    assert_eq!(
        engine.retained_selection_text(((first, 0), (first, 3))).as_deref(),
        Some("你好")
    );
    assert_eq!(
        engine.retained_selection_text(((first, 1), (first, 2))).as_deref(),
        Some("你好"),
        "starting on a wide spacer still includes its complete glyph"
    );
    let second_layout = engine.retained_row_layout(second).expect("second row layout");
    assert_eq!(
        engine
            .retained_selection_text(((first, 0), (second, second_layout.last_column())))
            .as_deref(),
        Some("你好，hello.\nمرحبا world")
    );
}

#[test]
fn retained_selection_keeps_the_drag_left_edge_on_middle_rows() {
    let (tx, _rx) = channel();
    let mut engine = AlacrittyEngine::new(40, 5, tx, budget_for_rows(40, 20));
    engine.advance(b"\x1b[H\x1b[2J - first\r\n - second\r\n - third");
    let rows: Vec<usize> = engine
        .for_each_retained_row()
        .iter()
        .filter(|(_, text)| text.starts_with(" - "))
        .map(|(row, _)| *row)
        .collect();
    assert_eq!(rows.len(), 3);

    assert_eq!(
        engine.retained_selection_text(((rows[0], 1), (rows[2], 7))).as_deref(),
        Some("- first\n- second\n- third")
    );
    assert_eq!(
        engine.retained_selection_text(((rows[2], 0), (rows[0], 7))),
        None,
        "a selection that runs backwards has no text"
    );
}

#[test]
fn scrolled_back_still_renders_and_copies_history() {
    let (tx, _rx) = channel();
    let mut e = AlacrittyEngine::new(40, 6, tx, budget_for_rows(40, 2_000));
    e.advance(b"OLDEST\r\n");
    feed_lines(&mut e, 40);

    let cells = |e: &AlacrittyEngine| e.for_each_cell().iter().filter(|c| c.symbol != " ").count();
    assert!(cells(&e) > 0, "live screen draws");

    e.scroll_to_top();
    assert!(e.scroll_offset() > 0, "we are in history");
    assert!(cells(&e) > 0, "the top of history must still draw — this rendered blank before");
    let visible = e.visible_rows().join("\n");
    assert!(visible.contains("OLDEST"), "history text is selectable/copyable: {visible:?}");
}

#[test]
fn rows_text_dumps_full_history_oldest_first() {
    let (tx, _rx) = channel();
    let mut e = AlacrittyEngine::new(40, 6, tx, budget_for_rows(40, 2_000));
    feed_lines(&mut e, 40); // line0..line39; only ~6 fit the live screen
    let rows: Vec<String> = e.for_each_retained_row().into_iter().map(|(_, line)| line).collect();
    assert_eq!(e.retained_row_count(), rows.len());
    for (index, row) in rows.iter().enumerate() {
        assert_eq!(e.retained_row_text(index).as_ref(), Some(row));
    }
    assert_eq!(e.retained_row_text(rows.len()), None);
    let i0 = rows.iter().position(|r| r.contains("line0")).expect("oldest history line present");
    let i39 = rows.iter().position(|r| r.contains("line39")).expect("newest live line present");
    assert!(i0 < i39, "oldest first: {i0} < {i39}");
    assert_eq!(e.scroll_offset(), 0, "reading rows_text is read-only");
}

#[test]
fn scroll_to_lands_and_clamps() {
    let (tx, _rx) = channel();
    let mut e = AlacrittyEngine::new(40, 6, tx, budget_for_rows(40, 2_000));
    feed_lines(&mut e, 40);
    let hist = e.history_len();
    assert!(hist > 0, "there is history to land in");
    e.scroll_to(hist);
    assert_eq!(e.scroll_offset(), hist, "landed at the requested offset");
    e.scroll_to(hist + 100);
    assert_eq!(e.scroll_offset(), hist, "clamped to the history length");
    e.scroll_to(0);
    assert_eq!(e.scroll_offset(), 0, "offset 0 returns to the live bottom");
}

#[test]
fn for_each_cell_emits_the_whole_grapheme_cluster() {
    let (tx, _rx) = channel();
    let mut e = AlacrittyEngine::new(40, 3, tx, budget_for_rows(40, 200));
    // 🖥️ = U+1F5A5 (desktop computer) + U+FE0F (VS16). The grid keeps the VS16
    // as a zero-width attachment on the base cell; the base char alone renders
    // as a bare monochrome glyph or a tofu box.
    e.advance("🖥️A".as_bytes());

    let syms: Vec<(u16, String)> = e
        .for_each_cell()
        .into_iter()
        .filter(|c| c.symbol != " ")
        .map(|c| (c.column, c.symbol))
        .collect();

    let emoji = syms.iter().find(|(c, _)| *c == 0).map(|(_, s)| s.as_str());
    assert_eq!(
        emoji,
        Some("🖥\u{fe0f}"),
        "the base char and its VS16 must arrive together as one symbol"
    );
    assert!(
        syms.iter().any(|(_, s)| s == "A"),
        "the following glyph still renders: {syms:?}"
    );
}

#[test]
fn detection_text_ignores_scrollback_offset() {
    let (tx, _rx) = channel();
    let mut e = AlacrittyEngine::new(40, 5, tx, budget_for_rows(40, 2_000));
    // An old turn that was working, now scrolled far above the live screen.
    e.advance(b"\xE2\xA0\xB9 Thinking... (esc to interrupt)\r\n");
    feed_lines(&mut e, 40);
    // The live bottom is quiet.
    e.advance(b"$ \r\n");

    let live = e.detection_text(14);
    assert!(
        !live.contains("esc to interrupt"),
        "live screen has no stale marker: {live:?}"
    );

    // Walk the whole history: at *every* offset the detection window must
    // still describe the live screen, so no scroll position can fabricate a
    // working marker.
    e.scroll_to_top();
    let top = e.scroll_offset();
    assert!(top > 0, "there is history to scroll through");
    e.scroll_to_bottom();
    for _ in 0..top {
        e.scroll(1);
        let at = e.detection_text(14);
        assert_eq!(
            at,
            live,
            "detection text changed at scroll offset {}",
            e.scroll_offset()
        );
        assert!(
            !at.contains("esc to interrupt"),
            "scrolling resurrected an old working marker at offset {}",
            e.scroll_offset()
        );
    }
}

#[test]
fn scrollback_offset_moves_clamps_and_resets() {
    let (tx, _rx) = channel();
    let mut e = AlacrittyEngine::new(20, 5, tx, budget_for_rows(20, 2_000)); // 5 visible rows
    feed_lines(&mut e, 50); // 50 lines → ~45 in scrollback

    assert_eq!(e.scroll_offset(), 0, "starts live at the bottom");

    e.scroll(10);
    assert_eq!(e.scroll_offset(), 10, "scrolls up 10 lines into history");
    assert!(!e.cursor().visible, "cursor hidden while scrolled back");

    e.scroll_to_top();
    let top = e.scroll_offset();
    assert!(top > 10, "top of history is well above the live bottom");
    e.scroll(1000);
    assert_eq!(e.scroll_offset(), top, "cannot scroll past the top of history");

    e.scroll(-1000);
    assert_eq!(e.scroll_offset(), 0, "cannot scroll below the live bottom");
    e.scroll(5);
    e.scroll_to_bottom();
    assert_eq!(e.scroll_offset(), 0, "snaps back to live");
    assert!(e.cursor().visible, "cursor returns once live");
}

#[test]
fn alternate_screen_is_never_scrolled() {
    let (tx, _rx) = channel();
    let mut e = AlacrittyEngine::new(20, 5, tx, budget_for_rows(20, 20));
    e.advance(b"\x1b[?1049h"); // enter the alternate screen
    assert!(e.alt_screen());
    for i in 0..20 {
        e.advance(format!("alternate {i}\r\n").as_bytes());
    }
    e.scroll(5);
    assert_eq!(
        e.scroll_offset(),
        0,
        "the host viewport still never scrolls an alternate-screen app"
    );

    e.advance(b"\x1b[?1049l");
    assert!(!e.alt_screen());
    assert_eq!(e.history_len(), 0);
}

#[test]
fn alternate_scroll_mode_is_reported() {
    let (tx, _rx) = channel();
    let mut e = AlacrittyEngine::new(20, 5, tx, budget_for_rows(20, 2_000));
    // Alternate scrolling starts enabled, and an application can explicitly
    // turn it off.
    assert!(e.alternate_scroll());
    e.advance(b"\x1b[?1007l");
    assert!(!e.alternate_scroll());
    e.advance(b"\x1b[?1007h");
    assert!(e.alternate_scroll());
}

#[test]
fn mouse_tracking_modes_are_detected() {
    let (tx, _rx) = channel();
    let mut e = AlacrittyEngine::new(20, 5, tx, budget_for_rows(20, 2_000));
    assert!(!e.mouse_report(), "no tracking by default");
    assert!(!e.sgr_mouse());
    // A TUI agent enabling normal + SGR mouse reporting (DECSET 1000, 1006).
    e.advance(b"\x1b[?1000h\x1b[?1006h");
    assert!(e.mouse_report(), "wheel should be forwarded to the app");
    assert!(e.sgr_mouse(), "reports use the SGR encoding");
    assert!(!e.mouse_drag(), "click-only tracking: no drag reports");
    // Button-event tracking (1002) adds press-and-move reporting.
    e.advance(b"\x1b[?1002h");
    assert!(e.mouse_drag(), "drag tracking requested");
    assert!(!e.mouse_motion(), "1002 is not any-motion hover tracking");
    // Any-motion tracking (1003) adds hover reporting too.
    e.advance(b"\x1b[?1003h");
    assert!(e.mouse_motion());
    // Disabling it hands the wheel back to luvus's scrollback.
    e.advance(b"\x1b[?1003l\x1b[?1002l\x1b[?1000l");
    assert!(!e.mouse_report());
    assert!(!e.mouse_drag());
    assert!(!e.mouse_motion());
}

#[test]
fn pi_fullscreen_mouse_modes_are_detected() {
    let (tx, _rx) = channel();
    let mut e = AlacrittyEngine::new(20, 5, tx, budget_for_rows(20, 2_000));

    // Pi fullscreen enters the alternate screen, disables autowrap, and
    // enables normal, button-motion, focus, and SGR mouse reporting.
    e.advance(b"\x1b[?1049h\x1b[?7l\x1b[?1000h\x1b[?1002h\x1b[?1004h\x1b[?1006h");

    assert!(e.alt_screen());
    assert!(e.mouse_report());
    assert!(e.sgr_mouse());
}

#[test]
fn other_modes_are_reported() {
    let (tx, _rx) = channel();
    let mut e = AlacrittyEngine::new(20, 5, tx, budget_for_rows(20, 20));
    assert!(!e.bracketed_paste());
    assert!(!e.application_cursor());
    e.advance(b"\x1b[?2004h\x1b[?1h");
    assert!(e.bracketed_paste());
    assert!(e.application_cursor());
}

#[test]
fn codex_composer_region_finds_the_real_default_background_layout() {
    let (tx, _rx) = channel();
    let mut e = AlacrittyEngine::new(40, 8, tx, budget_for_rows(40, 2_000));
    // Codex leaves one blank padding row above and below its `›` prompt.
    e.advance("\x1b[2;1H› Write tests".as_bytes());

    assert_eq!(
        e.codex_composer_region(),
        Some(CodexComposerRegion { top: 0, bottom: 2 })
    );

    // A prompt-looking transcript line without the padding geometry must
    // not be restyled as the active composer.
    e.advance(b"\x1b[1;1Htranscript\x1b[2;1H");
    assert_eq!(e.codex_composer_region(), None);
}

#[test]
fn backend_capture_is_bounded_and_never_replays_unsafe_controls() {
    let (tx, _rx) = channel();
    let mut engine = AlacrittyEngine::new(30, 4, tx, budget_for_rows(30, 200));
    engine.advance(b"\x1b[31mred\x1b[0m\r\n\x1b]52;c;SECRET\x1b\\safe\r\n");

    let ansi = engine.backend_capture(CaptureMode::Visible, 4, true, 512);
    assert!(ansi.text.contains("\x1b["), "safe SGR styling is retained");
    assert!(!ansi.text.contains("\x1b]"), "OSC is never replayed");
    assert!(!ansi.text.contains("SECRET"), "OSC payload is not terminal text");
    assert!(ansi.text.contains("safe"));

    let bounded = engine.backend_capture(CaptureMode::Visible, 4, false, 5);
    assert!(bounded.text.len() <= 5);
    assert!(bounded.truncated);
    assert!(std::str::from_utf8(bounded.text.as_bytes()).is_ok());
}

#[test]
fn recent_capture_joins_soft_wrapped_rows() {
    let (tx, _rx) = channel();
    let mut engine = AlacrittyEngine::new(5, 3, tx, budget_for_rows(5, 200));
    engine.advance(b"abcdefghij\r\nnext\r\n");
    let capture = engine.backend_capture(CaptureMode::RecentUnwrapped, 3, false, 512);
    assert!(capture.text.contains("abcdefghij"), "{:?}", capture.text);
    assert!(capture.text.contains("next"), "{:?}", capture.text);
    assert!(capture.lines <= 3);
}

#[test]
fn detection_capture_is_never_styled() {
    let (tx, _rx) = channel();
    let mut engine = AlacrittyEngine::new(30, 4, tx, budget_for_rows(30, 200));
    engine.advance(b"\x1b[31mred\x1b[0m");
    let capture = engine.backend_capture(CaptureMode::Detection, 4, true, 512);
    assert!(!capture.text.contains('\x1b'));
    assert!(capture.text.contains("red"));
}

#[test]
fn replies_and_titles_leave_the_terminal() {
    let (tx, rx) = channel();
    let mut e = AlacrittyEngine::new(20, 5, tx, budget_for_rows(20, 20));
    assert_eq!(e.title(), None);
    e.advance(b"\x1b]2;build\x07");
    assert_eq!(e.title().as_deref(), Some("build"));
    // A cursor report is asked for and answered.
    e.advance(b"ab\x1b[6n");
    match rx.try_recv() {
        Ok(InputAction::Bytes(bytes)) => assert_eq!(bytes, b"\x1b[1;3R"),
        Err(_) => panic!("no reply"),
    }
    assert!(rx.try_recv().is_err());
}

#[test]
fn snapshot_replays_styles_and_plain_text() {
    let (tx, _rx) = channel();
    let mut e = AlacrittyEngine::new(20, 5, tx, budget_for_rows(20, 20));
    e.advance(b"plain \x1b[1;31mbold\x1b[0m end");
    let shot = e.snapshot_ansi();
    assert!(shot.contains("plain "));
    assert!(shot.contains("bold"));
    assert!(shot.contains("\x1b["));

    // Fed to another terminal it shows the same text.
    let (tx, _rx) = channel();
    let mut other = AlacrittyEngine::new(20, 5, tx, budget_for_rows(20, 20));
    other.advance(shot.as_bytes());
    assert_eq!(other.visible_rows()[0], e.visible_rows()[0]);
}

#[test]
fn aligned_rows_keep_one_character_per_column() {
    let (tx, _rx) = channel();
    let mut e = AlacrittyEngine::new(10, 2, tx, budget_for_rows(10, 20));
    e.advance("你a".as_bytes());
    let row = &e.visible_rows_aligned()[0];
    let chars: Vec<char> = row.chars().collect();
    assert_eq!(chars[0], '你');
    assert_eq!(chars[2], 'a', "the glyph behind a wide one keeps its column");
    assert_eq!(e.visible_rows()[0].trim_end(), "你a");
}

#[test]
fn cursor_follows_output() {
    let (tx, _rx) = channel();
    let mut e = AlacrittyEngine::new(10, 4, tx, budget_for_rows(10, 20));
    e.advance(b"ab\r\ncde");
    let c = e.cursor();
    assert_eq!((c.x, c.y, c.visible), (3, 1, true));
    e.advance(b"\x1b[?25l");
    assert!(!e.cursor().visible);
}

#[test]
fn scrolling_brings_the_view_back_to_what_is_retained() {
    let (tx, _rx) = channel();
    let mut e = AlacrittyEngine::new(80, 5, tx, budget_for_rows(80, 20));
    e.advance(b"1\r\n2\r\n3\r\n4\r\n5\r\n6");
    assert_eq!(e.history_len(), 1);
    e.scroll_to_top();
    assert_eq!(e.scroll_offset(), 1);
    // Deleting a line scrolls a region that puts nothing into the history.
    e.advance(b"\x1b[2;1H\x1b[M");
    assert_eq!(e.history_len(), 1);
    assert_eq!(e.scroll_offset(), 2, "the view moves as it does for a whole screen");
    e.scroll(0);
    assert_eq!(e.scroll_offset(), 1, "back to the oldest row");
    let rows = e.visible_rows();
    assert_eq!(rows[0].trim_end(), "1");
    assert_eq!(rows[1].trim_end(), "2");
    assert_eq!(rows[2].trim_end(), "4");
}

#[test]
fn titles_are_set_reset_and_announced_again() {
    let (tx, _rx) = channel();
    let mut e = AlacrittyEngine::new(20, 5, tx, budget_for_rows(20, 20));
    e.advance(b"\x1b]2;one\x07text\x1b]2;two\x07");
    assert_eq!(e.title().as_deref(), Some("two"), "the last title counts");
    e.advance(b"more text");
    assert_eq!(e.title().as_deref(), Some("two"), "text leaves it");
    e.scroll_to_top();
    assert_eq!(e.title().as_deref(), Some("two"));
    e.resize(30, 5);
    assert_eq!(e.title().as_deref(), Some("two"), "the terminal keeps it");
    // Saved and restored.
    e.advance(b"\x1b[22t\x1b]2;three\x07\x1b[23t");
    assert_eq!(e.title().as_deref(), Some("two"));
    // A full reset forgets it without a word; a new size announces what is kept.
    e.advance(b"\x1bc");
    assert_eq!(e.title().as_deref(), Some("two"));
    e.resize(20, 5);
    assert_eq!(e.title(), None);
}

#[test]
fn a_terminal_can_be_one_column_wide() {
    let (tx, _rx) = channel();
    let mut e = AlacrittyEngine::new(1, 3, tx, budget_for_rows(1, 20));
    e.advance("ab\u{e9}".as_bytes());
    let rows: Vec<String> = e.visible_rows().iter().map(|r| r.trim_end().to_string()).collect();
    assert_eq!(rows, vec!["a", "b", "\u{e9}"]);
    e.advance(b"\x1b[2J\x1b[Hxy");
    assert_eq!(e.visible_rows()[0].trim_end(), "x");
    assert_eq!(e.visible_rows()[1].trim_end(), "y");

    let (tx, _rx) = channel();
    let mut e = AlacrittyEngine::new(4, 3, tx, budget_for_rows(4, 20));
    e.advance(b"abc");
    assert!(e.can_be_one_column());
    e.resize(0, 3);
    assert_eq!(e.retained_row_count(), e.history_len() + 3);
    let all: Vec<String> = e.for_each_retained_row().into_iter().map(|(_, t)| t).collect();
    assert!(all.concat().contains("abc"));

    let (tx, _rx) = channel();
    let mut e = AlacrittyEngine::new(4, 3, tx, budget_for_rows(4, 20));
    e.advance("\u{4f60}".as_bytes());
    assert!(!e.can_be_one_column(), "a wide character needs two columns");
    e.advance(b"\x1b[2J\x1b[3J\x1b[H\x1b[?1049h");
    assert!(!e.can_be_one_column(), "the other screen is hidden");
}

#[test]
fn a_snapshot_shows_the_same_screen_again() {
    let (tx, _rx) = channel();
    let mut e = AlacrittyEngine::new(12, 5, tx, budget_for_rows(12, 20));
    assert_eq!(e.snapshot_ansi(), "\x1b[2J\x1b[H", "a blank screen is only cleared");
    e.advance(b"  first\r\n\r\n\x1b[32mthird line\x1b[0m!\x1b[4;5Hx");
    let shot = e.snapshot_ansi();
    assert_eq!(shot.matches("\r\n").count(), 3, "the blank row at the bottom is not written");
    let (tx, _rx) = channel();
    let mut other = AlacrittyEngine::new(12, 5, tx, budget_for_rows(12, 20));
    other.advance(shot.as_bytes());
    assert_eq!(other.visible_rows(), e.visible_rows());
    assert_eq!(other.snapshot_ansi(), shot);
}

#[test]
fn styled_captures_hold_nothing_but_styles() {
    let (tx, _rx) = channel();
    let mut e = AlacrittyEngine::new(30, 4, tx, budget_for_rows(30, 200));
    e.advance(b"\x1b[1;38;2;1;2;3mone\x1b[0m two \x1b[48;5;9mthree\x1b[0m");
    let text = e.backend_capture(CaptureMode::Visible, 4, true, 4096).text;
    assert!(text.contains('\x1b'));
    for part in text.split('\x1b').skip(1) {
        let end = part.find('m').expect("every sequence ends");
        assert!(part.starts_with('['));
        assert!(part[1..end].chars().all(|c| c.is_ascii_digit() || c == ';'));
    }
}
