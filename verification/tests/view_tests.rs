use epycell::config::{Config, KeyCode, KeyModifiers};
use epycell::editor::{emacs_dir_locals, editor_argv, helix_languages, nvim_lua, pick_editor, split_words};
use epycell::layout::{centered_rect, follow_output, Cell, OutputView, Rect};
use epycell::notebook::{App, EditView};
use epycell::pty::{editor_pty_size, key_to_bytes};
use epycell::view::{body_fits_check, cell_placements, cell_plan, image_cols, Border, OutputPlace, Placement};

fn text(t: &str) -> OutputView {
    OutputView::Text { text: t.to_string(), color: Config::default().theme.output }
}

fn lines(n: usize) -> String {
    (0..n).map(|i| format!("l{i}")).collect::<Vec<_>>().join("\n")
}

fn app_of(cells: Vec<Cell>) -> App {
    App::new(cells, None, Config::default())
}

#[test]
fn placements_stack_cells_with_separators() {
    let app = app_of(vec![Cell::new("a"), Cell::new("b\nc"), Cell::new("d")]);
    // heights: 4, 5, 4
    let ps = cell_placements(&app, 20);
    assert_eq!(
        ps,
        vec![
            Placement { idx: 0, y: 0, height: 4, clip_top: 0 },
            Placement { idx: 1, y: 5, height: 5, clip_top: 0 },
            Placement { idx: 2, y: 11, height: 4, clip_top: 0 },
        ]
    );
}

#[test]
fn placements_clip_at_top_and_bottom() {
    let mut app = app_of(vec![Cell::new("a"), Cell::new("b\nc"), Cell::new("d")]);
    app.scroll_offset = 2;
    let ps = cell_placements(&app, 8);
    assert_eq!(
        ps,
        vec![
            Placement { idx: 0, y: 0, height: 2, clip_top: 2 },
            Placement { idx: 1, y: 3, height: 5, clip_top: 0 },
        ]
    );
    app.scroll_top = 2;
    app.scroll_offset = 0;
    assert_eq!(cell_placements(&app, 3), vec![Placement { idx: 2, y: 0, height: 3, clip_top: 0 }]);
    assert_eq!(cell_placements(&app, 0), vec![]);
}

#[test]
fn plan_of_a_plain_cell() {
    let mut app = app_of(vec![Cell::new("x = 1"), Cell::markdown("# t")]);
    app.cells[0].exec_count = Some(12);
    let area = Rect { x: 0, y: 0, width: 40, height: 4 };
    let p = cell_plan(&app, 0, area, 0);
    assert_eq!(p.header, Some("In [12]:".to_string()));
    assert!(p.selected);
    assert_eq!(p.border, Border::Selected);
    assert_eq!((p.src_y, p.src_height, p.src_clip), (1, 3, 0));
    assert!(p.outputs.is_empty());
    assert_eq!(p.more_lines, None);
    assert_eq!(p.scroll_marker, None);
    let q = cell_plan(&app, 1, Rect { x: 0, y: 5, width: 40, height: 4 }, 0);
    assert_eq!(q.header, Some("Markdown:".to_string()));
    assert_eq!(q.border, Border::Inactive);
}

#[test]
fn plan_labels_running_and_fresh_cells() {
    let mut app = app_of(vec![Cell::new("a"), Cell::new("b")]);
    app.cells[1].running = true;
    let area = Rect { x: 0, y: 0, width: 40, height: 4 };
    assert_eq!(cell_plan(&app, 0, area, 0).header, Some("In [ ]:".to_string()));
    assert_eq!(cell_plan(&app, 1, area, 0).header, Some("In [*]:".to_string()));
    assert_eq!(cell_plan(&app, 1, area, 1).header, None);
}

#[test]
fn plan_places_outputs_below_source() {
    let mut app = app_of(vec![Cell::new("a")]);
    app.cells[0].outputs = vec![text("o1\no2"), text("o3")];
    let area = Rect { x: 2, y: 10, width: 30, height: 7 };
    let p = cell_plan(&app, 0, area, 0);
    assert_eq!(
        p.outputs,
        vec![OutputPlace { block: 0, y: 14, height: 2, skip: 0 }, OutputPlace { block: 1, y: 16, height: 1, skip: 0 }]
    );
}

#[test]
fn plan_clipped_from_above() {
    let mut app = app_of(vec![Cell::new("a\nb\nc")]);
    app.cells[0].outputs = vec![text("o1\no2")];
    // cell height 1 + 5 + 2 = 8; 3 rows cut off
    let area = Rect { x: 0, y: 0, width: 30, height: 5 };
    let p = cell_plan(&app, 0, area, 3);
    assert_eq!(p.header, None);
    assert_eq!((p.src_y, p.src_height, p.src_clip), (0, 3, 2));
    assert_eq!(p.outputs, vec![OutputPlace { block: 0, y: 3, height: 2, skip: 0 }]);
}

#[test]
fn plan_truncated_and_scrolled_output() {
    let mut app = app_of(vec![Cell::new("a")]);
    app.cells[0].outputs = vec![text(&lines(30)), text(&lines(30)), text(&lines(5))];
    app.cells[0].output_scroll = 10;
    let area = Rect { x: 0, y: 0, width: 40, height: 60 };
    let p = cell_plan(&app, 0, area, 0);
    // only the first block fits in the cap; 10 of its rows scrolled past
    assert_eq!(p.outputs, vec![OutputPlace { block: 0, y: 4, height: 20, skip: 10 }]);
    assert_eq!(p.more_lines, Some((24, "▼ 35 more lines (x to expand)".to_string())));
    assert_eq!(p.scroll_marker, Some((32, 4, "[40/30]".to_string())));
}

#[test]
fn plan_scroll_skips_whole_blocks() {
    let mut app = app_of(vec![Cell::new("a")]);
    app.cells[0].outputs = vec![text("1\n2"), text("3\n4\n5")];
    app.cells[0].output_scroll = 3;
    let area = Rect { x: 0, y: 0, width: 20, height: 20 };
    let p = cell_plan(&app, 0, area, 0);
    assert_eq!(p.outputs, vec![OutputPlace { block: 1, y: 4, height: 2, skip: 1 }]);
    assert_eq!(p.scroll_marker, Some((14, 4, "[8/5]".to_string())));
}

#[test]
fn plan_while_editing_uses_editor_box() {
    let mut app = app_of(vec![Cell::new("a")]);
    app.edit = Some(EditView { idx: 0, rows: 9 });
    let p = cell_plan(&app, 0, Rect { x: 0, y: 0, width: 20, height: 10 }, 0);
    assert_eq!(p.border, Border::Editing);
    assert_eq!(p.src_height, 9);
}

#[test]
fn image_columns() {
    assert_eq!(image_cols(640, 8), 80);
    assert_eq!(image_cols(100, 8), 13);
    assert_eq!(image_cols(96, 8), 12);
    assert_eq!(image_cols(0, 8), 1);
}

#[test]
fn centered_rect_fits_area() {
    let area = Rect { x: 0, y: 0, width: 100, height: 30 };
    assert_eq!(centered_rect(area, 56, 6), Rect { x: 22, y: 12, width: 56, height: 6 });
    let small = Rect { x: 5, y: 5, width: 40, height: 4 };
    assert_eq!(centered_rect(small, 56, 6), Rect { x: 5, y: 5, width: 40, height: 4 });
}

#[test]
fn visible_layout_and_follow() {
    let mut c = Cell::new("a");
    c.outputs = vec![text(&lines(40)), text(&lines(20))];
    assert_eq!(c.visible_output_layout(), (1, 40, true));
    c.output_expanded = true;
    assert_eq!(c.visible_output_layout(), (2, 60, false));
    follow_output(&mut c);
    assert_eq!(c.output_scroll, 10);
    c.output_expanded = false;
    follow_output(&mut c);
    assert_eq!(c.output_scroll, 10);
    assert_eq!(OutputView::Image { image: 0, rows: 7 }.rows(), 7);
    assert_eq!(text("").rows(), 1);
}

#[test]
fn editor_words_and_argv() {
    assert_eq!(split_words("  nvim   -u  NONE "), vec!["nvim", "-u", "NONE"]);
    assert_eq!(split_words(""), Vec::<String>::new());
    assert_eq!(editor_argv("hx"), ("hx".to_string(), vec![]));
    assert_eq!(editor_argv("code --wait"), ("code".to_string(), vec!["--wait".to_string()]));
    assert_eq!(editor_argv("   "), ("vi".to_string(), vec![]));
}

#[test]
fn editor_choice() {
    assert_eq!(pick_editor(Some("hx".to_string()), Some("nano".to_string())), "hx");
    assert_eq!(pick_editor(None, Some("nano".to_string())), "nano");
    assert_eq!(pick_editor(None, None), "vi");
}

#[test]
fn editor_config_files() {
    let lsp = "/usr/bin/epycell-lsp";
    let conn = "/tmp/kernel.json";
    assert_eq!(
        helix_languages(lsp, conn),
        format!(
            r#"[language-server.epycell-lsp]
command = "{}"
args = ["{}"]

[[language]]
name = "python"
language-servers = ["epycell-lsp"]
"#,
            lsp, conn
        )
    );
    assert_eq!(
        nvim_lua(lsp, conn),
        format!(
            r#"vim.api.nvim_create_autocmd("FileType", {{
  pattern = "python",
  callback = function()
    vim.lsp.start({{
      name = "epycell-lsp",
      cmd = {{ "{}", "{}" }},
    }})
  end,
}})
"#,
            lsp, conn
        )
    );
    assert_eq!(
        emacs_dir_locals(lsp, conn),
        format!(
            r#"((python-mode . ((eglot-server-programs . ((python-mode . ("{}")))))))
"#,
            format!("{} {}", lsp, conn)
        )
    );
}

#[test]
fn key_bytes() {
    let none = KeyModifiers::none();
    let ctrl = KeyModifiers::control_only();
    assert_eq!(key_to_bytes(KeyCode::Char('a'), none), b"a".to_vec());
    assert_eq!(key_to_bytes(KeyCode::Char('a'), ctrl), vec![1]);
    assert_eq!(key_to_bytes(KeyCode::Char('['), ctrl), vec![0x1b]);
    assert_eq!(key_to_bytes(KeyCode::Char('?'), ctrl), vec![0x7f]);
    assert_eq!(key_to_bytes(KeyCode::Char('é'), none), "é".as_bytes().to_vec());
    assert_eq!(key_to_bytes(KeyCode::Char('€'), ctrl), "€".as_bytes().to_vec());
    assert_eq!(key_to_bytes(KeyCode::Enter, none), vec![b'\r']);
    assert_eq!(key_to_bytes(KeyCode::BackTab, none), b"\x1b[Z".to_vec());
    assert_eq!(key_to_bytes(KeyCode::Up, none), b"\x1b[A".to_vec());
    assert_eq!(key_to_bytes(KeyCode::PageDown, none), b"\x1b[6~".to_vec());
    assert_eq!(key_to_bytes(KeyCode::F(1), none), Vec::<u8>::new());
}

#[test]
fn pty_size_for_terminal() {
    assert_eq!(editor_pty_size(41, 80, 3), (8, 78, 6));
    assert_eq!(editor_pty_size(11, 2, 50), (6, 1, 4));
}

#[test]
fn selected_cell_drawn_after_ensure_visible() {
    let cells: Vec<Cell> = (0..10).map(|i| Cell::new(&format!("x = {i}"))).collect();
    let mut app = app_of(cells);
    app.selected = 5;
    app.ensure_visible(12);
    let ps = cell_placements(&app, 12);
    assert!(ps.contains(&Placement { idx: 5, y: 5, height: 4, clip_top: 0 }));
    assert_eq!(ps[0], Placement { idx: 4, y: 0, height: 4, clip_top: 0 });
}

#[test]
fn row_sums_checked_only_where_taken() {
    // A huge output far below the view: neither drawing nor scrolling to the first
    // cell takes its height.
    let mut cells: Vec<Cell> = (0..3).map(|i| Cell::new(&format!("x = {i}"))).collect();
    cells[2].output_expanded = true;
    cells[2].outputs = (0..2).map(|_| OutputView::Image { image: 0, rows: 40000 }).collect();
    let mut app = app_of(cells);
    assert!(body_fits_check(&app, 8));
    assert!(!body_fits_check(&app, 40));
    assert!(app.visible_check(8));
    app.ensure_visible(8);
    assert_eq!(app.scroll_top, 0);
    app.selected = 2;
    assert!(!app.visible_check(8));
    assert!(!app.cell_fits_check(2));
    assert!(app.cell_fits_check(1));
}
