use epycell::config::{Config, KeyCode, KeyModifiers, Keys};
use epycell::kernel::Output;
use epycell::layout::{Cell, OutputView};
use epycell::notebook::{demo_cells, App, EditView, KeyAction, KeyChoice, RunStart};

fn none() -> KeyModifiers {
    KeyModifiers::none()
}

fn ctrl() -> KeyModifiers {
    KeyModifiers::control_only()
}

fn three_cells() -> App {
    App::new(
        vec![Cell::new("a = 1"), Cell::markdown("# notes"), Cell::new("print(a)")],
        None,
        Config::default(),
    )
}

fn key(app: &mut App, c: char) -> KeyAction {
    app.handle_key(KeyCode::Char(c), none())
}

#[test]
fn new_app_with_no_cells_has_one_blank_cell() {
    let app = App::new(Vec::new(), None, Config::default());
    assert_eq!(app.cells.len(), 1);
    assert_eq!(app.cells[0].source, "");
    assert!(!app.cells[0].markdown);
    assert_eq!(app.selected, 0);
    assert_eq!(app.status, format!("{}   ", Keys::default().help_line()));
    assert!(!app.dirty);
}

#[test]
fn new_app_reports_opened_path() {
    let app = App::new(vec![Cell::new("x")], Some("nb.ipynb".to_string()), Config::default());
    assert!(app.status.ends_with("   opened nb.ipynb"));
    assert_eq!(app.path, Some("nb.ipynb".to_string()));
    assert_eq!(app.save_target(), "nb.ipynb");
}

#[test]
fn save_target_defaults_to_untitled() {
    let app = three_cells();
    assert_eq!(app.save_target(), "untitled.ipynb");
}

#[test]
fn demo_notebook_has_two_code_cells() {
    let cells = demo_cells();
    assert_eq!(cells.len(), 2);
    assert!(cells[0].source.starts_with("import numpy as np"));
    assert!(cells[1].source.ends_with("print('figure shows even with a trailing print now')"));
    assert!(!cells[0].markdown && !cells[1].markdown);
}

#[test]
fn move_keys_stay_in_range() {
    let mut app = three_cells();
    assert_eq!(key(&mut app, 'k'), KeyAction::Nothing);
    assert_eq!(app.selected, 0);
    key(&mut app, 'j');
    key(&mut app, 'j');
    key(&mut app, 'j');
    assert_eq!(app.selected, 2);
    app.handle_key(KeyCode::Up, none());
    assert_eq!(app.selected, 1);
    assert!(!app.free_scroll);
    assert_eq!(app.scroll_offset, 0);
}

#[test]
fn dd_deletes_selected_cell() {
    let mut app = three_cells();
    key(&mut app, 'j');
    key(&mut app, 'd');
    assert!(app.pending_d);
    assert_eq!(app.cells.len(), 3);
    key(&mut app, 'd');
    assert!(!app.pending_d);
    assert_eq!(app.cells.len(), 2);
    assert_eq!(app.cells[1].source, "print(a)");
    assert_eq!(app.selected, 1);
    assert!(app.dirty);
}

#[test]
fn dd_on_last_cell_moves_selection_up() {
    let mut app = three_cells();
    key(&mut app, 'j');
    key(&mut app, 'j');
    key(&mut app, 'd');
    key(&mut app, 'd');
    assert_eq!(app.cells.len(), 2);
    assert_eq!(app.selected, 1);
}

#[test]
fn dd_keeps_the_only_cell() {
    let mut app = App::new(vec![Cell::new("only")], None, Config::default());
    key(&mut app, 'd');
    key(&mut app, 'd');
    assert_eq!(app.cells.len(), 1);
    assert!(!app.dirty);
    assert!(!app.pending_d);
}

#[test]
fn other_key_cancels_pending_d() {
    let mut app = three_cells();
    key(&mut app, 'd');
    key(&mut app, 'z');
    assert!(!app.pending_d);
    key(&mut app, 'd');
    assert_eq!(app.cells.len(), 3);
}

#[test]
fn new_cell_below_and_above() {
    let mut app = three_cells();
    key(&mut app, 'o');
    assert_eq!(app.cells.len(), 4);
    assert_eq!(app.selected, 1);
    assert_eq!(app.cells[1].source, "");
    assert_eq!(app.cells[2].source, "# notes");
    key(&mut app, 'O');
    assert_eq!(app.cells.len(), 5);
    assert_eq!(app.selected, 1);
    assert_eq!(app.cells[0].source, "a = 1");
    assert!(app.dirty);
}

#[test]
fn new_cell_then_dd_restores_cells() {
    let mut app = three_cells();
    key(&mut app, 'o');
    key(&mut app, 'd');
    key(&mut app, 'd');
    let sources: Vec<&str> = app.cells.iter().map(|c| c.source.as_str()).collect();
    assert_eq!(sources, vec!["a = 1", "# notes", "print(a)"]);
}

#[test]
fn x_toggles_output_expansion() {
    let mut app = three_cells();
    app.cells[0].output_scroll = 4;
    key(&mut app, 'x');
    assert!(app.cells[0].output_expanded);
    assert_eq!(app.cells[0].output_scroll, 4);
    key(&mut app, 'x');
    assert!(!app.cells[0].output_expanded);
    assert_eq!(app.cells[0].output_scroll, 0);
    assert_eq!(app.key_choice(KeyCode::Char('x'), ctrl()), KeyChoice::Other);
}

#[test]
fn run_key_on_markdown_does_nothing() {
    let mut app = three_cells();
    key(&mut app, 'j');
    assert_eq!(key(&mut app, 'R'), KeyAction::Nothing);
    assert_eq!(app.status, "markdown cell — nothing to run");
    assert_eq!(app.exec_counter, 0);
}

#[test]
fn run_key_starts_a_run() {
    let mut app = three_cells();
    let r = key(&mut app, 'R');
    assert_eq!(r, KeyAction::Start(RunStart { idx: 0, code: "a = 1".to_string(), exec_num: 1 }));
    assert!(app.cells[0].running);
    assert_eq!(app.cells[0].exec_count, Some(1));
    assert_eq!(app.exec_counter, 1);
    assert_eq!(app.status, "running cell [1]…");
}

#[test]
fn run_while_running_is_refused() {
    let mut app = three_cells();
    let start = match key(&mut app, 'R') {
        KeyAction::Start(s) => s,
        other => panic!("unexpected {other:?}"),
    };
    app.run_sent(start, "msg-1".to_string());
    key(&mut app, 'j');
    key(&mut app, 'j');
    assert_eq!(key(&mut app, 'R'), KeyAction::Nothing);
    assert_eq!(app.status, "a cell is already running");
    assert_eq!(app.exec_counter, 1);
}

#[test]
fn run_all_and_run_above_queue_code_cells() {
    let mut app = three_cells();
    app.handle_key(KeyCode::Char('r'), ctrl());
    assert_eq!(app.run_queue, vec![0, 2]);
    assert_eq!(app.status, "running all 2 code cells…");
    let mut app2 = three_cells();
    key(&mut app2, 'j');
    app2.handle_key(KeyCode::Char('a'), ctrl());
    assert_eq!(app2.run_queue, vec![0]);
    assert_eq!(app2.status, "running 1 cells up to selected…");
}

#[test]
fn run_above_with_only_markdown_changes_nothing() {
    let mut app = App::new(vec![Cell::markdown("# a"), Cell::new("b")], None, Config::default());
    let before = app.status.clone();
    app.handle_key(KeyCode::Char('a'), ctrl());
    assert!(app.run_queue.is_empty());
    assert_eq!(app.status, before);
}

#[test]
fn next_queued_pops_in_order() {
    let mut app = three_cells();
    app.handle_key(KeyCode::Char('r'), ctrl());
    assert_eq!(app.next_queued(), Some(0));
    assert_eq!(app.next_queued(), Some(2));
    assert_eq!(app.next_queued(), None);
}

#[test]
fn interrupt_stops_running_cell() {
    let mut app = three_cells();
    assert_eq!(app.handle_key(KeyCode::Char('c'), ctrl()), KeyAction::Nothing);
    assert_eq!(app.status, "nothing running");
    app.handle_key(KeyCode::Char('r'), ctrl());
    let idx = app.next_queued().unwrap();
    let start = app.begin_run(idx).unwrap();
    app.run_sent(start, "m".to_string());
    assert_eq!(app.handle_key(KeyCode::Char('c'), ctrl()), KeyAction::Interrupt);
    assert!(app.running_cell.is_none());
    assert!(!app.cells[0].running);
    assert!(app.run_queue.is_empty());
    assert_eq!(app.status, "interrupted cell [1]");
}

#[test]
fn quit_clean_and_dirty() {
    let mut app = three_cells();
    assert_eq!(key(&mut app, 'q'), KeyAction::Quit);
    key(&mut app, 'o');
    assert_eq!(key(&mut app, 'q'), KeyAction::Nothing);
    assert!(app.pending_quit);
    assert_eq!(
        app.status,
        "Unsaved changes — save before quitting?  y = save & quit · n = quit · Esc = cancel"
    );
    assert_eq!(key(&mut app, 'j'), KeyAction::Nothing);
    assert_eq!(app.selected, 1);
    assert_eq!(key(&mut app, 'Y'), KeyAction::SaveThenQuit);
    let mut failed = App::new(vec![Cell::new("x")], None, Config::default());
    failed.pending_quit = true;
    failed.quit_save_failed();
    assert!(!failed.pending_quit);
    assert_eq!(key(&mut app, 'n'), KeyAction::Quit);
    assert_eq!(app.handle_key(KeyCode::Esc, none()), KeyAction::Nothing);
    assert!(!app.pending_quit);
    assert_eq!(app.status, "cancelled — still editing");
}

#[test]
fn save_and_edit_keys() {
    let mut app = three_cells();
    assert_eq!(key(&mut app, 'w'), KeyAction::Save);
    assert_eq!(key(&mut app, 'i'), KeyAction::EditInCell(0));
    assert_eq!(app.handle_key(KeyCode::Enter, none()), KeyAction::EditInCell(0));
    key(&mut app, 'j');
    assert_eq!(key(&mut app, 'e'), KeyAction::EditFullScreen(1));
}

#[test]
fn record_save_outcomes() {
    let mut app = three_cells();
    key(&mut app, 'o');
    assert!(!app.record_save("x.ipynb".to_string(), Err("disk full".to_string())));
    assert_eq!(app.status, "save failed: disk full");
    assert!(app.dirty);
    assert!(app.record_save("x.ipynb".to_string(), Ok(())));
    assert_eq!(app.status, "saved x.ipynb");
    assert!(!app.dirty);
    assert_eq!(app.path, Some("x.ipynb".to_string()));
}

#[test]
fn cells_to_save_keeps_source_and_kind() {
    let app = three_cells();
    let cells = app.cells_to_save();
    assert_eq!(cells.len(), 3);
    assert_eq!(cells[1].source, "# notes");
    assert!(cells[1].markdown);
    assert!(!cells[2].markdown);
}

#[test]
fn cell_height_counts_header_box_and_output() {
    let mut app = three_cells();
    // header + (1 source row + 2 borders)
    assert_eq!(app.cell_height(0), 4);
    app.cells[2].outputs.push(OutputView::Text { text: "x\ny".to_string(), color: Config::default().theme.output });
    assert_eq!(app.cell_height(2), 6);
    app.edit = Some(EditView { idx: 2, rows: 10 });
    assert_eq!(app.cell_height(2), 13);
}

#[test]
fn ensure_visible_scrolls_to_selection() {
    let mut cells = Vec::new();
    for i in 0..10 {
        cells.push(Cell::new(&format!("x = {i}")));
    }
    let mut app = App::new(cells, None, Config::default());
    // each cell is 4 rows plus a separator
    app.selected = 5;
    app.ensure_visible(12);
    assert_eq!(app.scroll_top, 4);
    app.selected = 2;
    app.ensure_visible(12);
    assert_eq!(app.scroll_top, 2);
    app.ensure_visible(100);
    assert_eq!(app.scroll_top, 2);
}

#[test]
fn wheel_scrolls_by_three_rows() {
    let mut app = three_cells();
    app.wheel_down();
    assert_eq!(app.scroll_offset, 3);
    assert!(app.free_scroll);
    app.wheel_down();
    // cell 0 is 4 rows plus separator: offset 6 >= 5 moves to the next cell
    assert_eq!(app.scroll_top, 1);
    assert_eq!(app.scroll_offset, 0);
    app.wheel_up();
    assert_eq!(app.scroll_top, 0);
    assert_eq!(app.scroll_offset, 4);
    app.wheel_up();
    assert_eq!(app.scroll_offset, 1);
    app.wheel_up();
    assert_eq!(app.scroll_offset, 0);
    assert_eq!(app.scroll_top, 0);
}

#[test]
fn edit_wheel_moves_view_start() {
    let mut app = three_cells();
    app.edit_wheel(true);
    app.edit_wheel(true);
    app.edit_wheel(true);
    assert_eq!(app.scroll_top, 2);
    app.edit_wheel(false);
    assert_eq!(app.scroll_top, 1);
}

#[test]
fn stream_output_is_merged_with_carriage_returns() {
    let mut app = three_cells();
    let start = app.begin_run(0).unwrap();
    app.run_sent(start, "m1".to_string());
    app.on_stream("Stdout", "step 1");
    app.on_stream("Stdout", "\rstep 2\n");
    assert_eq!(app.cells[0].outputs.len(), 1);
    let inactive = app.cfg.theme.inactive;
    assert_eq!(app.cells[0].outputs[0], OutputView::Text { text: "step 2\n".to_string(), color: inactive });
    app.on_stream("Stderr", "oops");
    assert_eq!(app.cells[0].outputs.len(), 2);
    let error = app.cfg.theme.error;
    assert_eq!(app.cells[0].outputs[1], OutputView::Text { text: "oops".to_string(), color: error });
    app.on_views(vec![OutputView::Image { image: 7, rows: 5 }]);
    assert_eq!(app.cells[0].outputs.len(), 3);
    app.on_idle();
    assert!(!app.cells[0].running);
    assert!(app.running_cell.is_none());
    assert_eq!(app.status, "cell [1] done");
    assert_eq!(app.cells[0].exec_count, Some(1));
}

#[test]
fn expanded_output_follows_the_end() {
    let mut app = three_cells();
    app.cells[0].output_expanded = true;
    let start = app.begin_run(0).unwrap();
    app.run_sent(start, "m".to_string());
    let mut long = String::new();
    for i in 0..60 {
        long.push_str(&format!("line {i}\n"));
    }
    app.on_stream("Stdout", &long);
    // 60 lines: 10 scrolled past so the last 50 show
    assert_eq!(app.cells[0].output_scroll, 10);
}

#[test]
fn text_view_of_outputs() {
    let app = three_cells();
    let t = app.cfg.theme.clone();
    assert_eq!(
        app.text_view(Output::Text("42".to_string())),
        Some(OutputView::Text { text: "42".to_string(), color: t.output })
    );
    assert_eq!(
        app.text_view(Output::Stream { name: "Stderr".to_string(), text: "w".to_string() }),
        Some(OutputView::Text { text: "w".to_string(), color: t.error })
    );
    assert_eq!(
        app.text_view(Output::Error {
            ename: "ValueError".to_string(),
            evalue: "bad".to_string(),
            traceback: vec![],
        }),
        Some(OutputView::Text { text: "ValueError: bad".to_string(), color: t.error })
    );
    assert_eq!(
        app.text_view(Output::Error {
            ename: "E".to_string(),
            evalue: "v".to_string(),
            traceback: vec!["\x1b[31mTraceback\x1b[0m".to_string(), "line 1".to_string()],
        }),
        Some(OutputView::Text { text: "Traceback\nline 1".to_string(), color: t.error })
    );
    assert_eq!(app.text_view(Output::Png(vec![1, 2, 3])), None);
}

#[test]
fn live_edit_lifecycle() {
    let mut app = three_cells();
    app.begin_edit(2, 9, "hx");
    assert_eq!(app.scroll_top, 2);
    assert_eq!(app.edit, Some(EditView { idx: 2, rows: 9 }));
    assert_eq!(app.status, "editing in hx — save & quit to return");
    app.resize_edit(11);
    assert_eq!(app.edit, Some(EditView { idx: 2, rows: 11 }));
    app.end_edit();
    assert_eq!(app.edit, None);
    app.apply_edited_source(2, "print(a + 1)\n".to_string(), "hx");
    assert_eq!(app.cells[2].source, "print(a + 1)");
    assert!(app.dirty);
    assert_eq!(app.status, "edited cell 3 in hx");
}

#[test]
fn unchanged_edit_keeps_notebook_clean() {
    let mut app = three_cells();
    app.apply_edited_source(0, "a = 1\n".to_string(), "vi");
    assert!(!app.dirty);
    app.apply_full_edit("a = 1".to_string(), "vi");
    assert!(!app.dirty);
    assert_eq!(app.status, "edited in vi");
    app.apply_full_edit("a = 2\n".to_string(), "vi");
    assert_eq!(app.cells[0].source, "a = 2\n");
    assert!(app.dirty);
}

#[test]
fn d_then_other_bound_key_cancels_pending_d() {
    let mut app = three_cells();
    key(&mut app, 'd');
    assert_eq!(key(&mut app, 'w'), KeyAction::Save);
    assert!(!app.pending_d);
    key(&mut app, 'd');
    assert_eq!(app.cells.len(), 3);
    assert!(app.pending_d);
    key(&mut app, 'x');
    key(&mut app, 'd');
    assert_eq!(app.cells.len(), 3);
}

#[test]
fn begin_run_while_running_with_any_index() {
    let mut app = three_cells();
    let start = app.begin_run(0).unwrap();
    app.run_sent(start, "m".to_string());
    assert!(app.begin_run(99).is_none());
    assert_eq!(app.status, "a cell is already running");
}
