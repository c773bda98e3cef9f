//! The notebook's state and its rules: which cell is selected and scrolled to, how keys
//! and mouse wheel move and change it, how a run is queued, started, fed output and
//! finished, and how editing and saving update it. The front end performs the
//! terminal, kernel and file work these decisions call for.

use vstd::prelude::*;
use crate::config::{Config, KeyBind, KeyCode, KeyModifiers, Rgb, decimal, usize_decimal};
use crate::layout::{Cell, OutputView, OUTPUT_CAP, follow_output, rows_sum};
use crate::text::{applied_cr, apply_cr, markdown_row_count, markdown_rows, source_row_count, strip_ansi, ansi_scan};
use crate::kernel::Output;
use crate::nb::NbCell;
use crate::chars::{chars_of, chars_eq_str};

verus! {

/// A cell being edited live: its index and the height of its editor box.
#[derive(Clone, Copy, Debug, PartialEq, Eq, Structural)]
pub struct EditView {
    pub idx: usize,
    pub rows: u16,
}

/// The cell whose execution is in progress.
#[derive(Debug, PartialEq)]
pub struct RunningCell {
    pub idx: usize,
    pub msg_id: String,
    pub exec_num: usize,
}

/// The whole notebook state.
pub struct App {
    pub cells: Vec<Cell>,
    pub selected: usize,
    /// First visible cell.
    pub scroll_top: usize,
    /// Rows of the first visible cell scrolled past.
    pub scroll_offset: u16,
    pub status: String,
    pub exec_counter: usize,
    /// First `d` of the `dd` chord seen.
    pub pending_d: bool,
    /// Where the notebook is saved, as shown to the user.
    pub path: Option<String>,
    /// Unsaved source changes.
    pub dirty: bool,
    /// The save-before-quit prompt is showing.
    pub pending_quit: bool,
    pub edit: Option<EditView>,
    pub running_cell: Option<RunningCell>,
    pub run_queue: Vec<usize>,
    /// The wheel has moved the view away from the selection.
    pub free_scroll: bool,
    pub cfg: Config,
}

impl App {
    /// At least one cell, and the selection is one of them.
    pub open spec fn wf(&self) -> bool {
        self.cells@.len() >= 1 && self.selected < self.cells@.len()
    }

    /// Rows of a cell's source box (borders included): the live editor's box when the
    /// cell is being edited, else the rendered markdown or source rows plus two.
    pub open spec fn src_rows(&self, idx: int) -> int {
        let cell = self.cells@[idx];
        if self.edit is Some && self.edit->0.idx == idx {
            self.edit->0.rows as int
        } else if cell.markdown {
            markdown_row_count(cell.source@) + 2
        } else {
            source_row_count(cell.source@) + 2
        }
    }

    /// Output rows a cell shows: the visible rows less those scrolled past, plus one
    /// for the "more lines" indicator when truncated.
    pub open spec fn out_rows(&self, idx: int) -> int {
        let l = self.cells@[idx].spec_layout();
        let scroll = self.cells@[idx].output_scroll as int;
        (if l.1 > scroll {
            l.1 - scroll
        } else {
            0
        }) + (if l.2 {
            1int
        } else {
            0int
        })
    }

    /// Rendered height of a cell: header, source box, outputs.
    pub open spec fn height(&self, idx: int) -> int {
        1 + self.src_rows(idx) + self.out_rows(idx)
    }

    /// Rows from the top of cell `a` to the top of cell `b`, one separator row per cell.
    pub open spec fn span(&self, a: int, b: int) -> int
        decreases b - a,
    {
        if b <= a {
            0
        } else {
            self.span(a, b - 1) + self.height(b - 1) + 1
        }
    }

    /// The height of cell `idx` fits the `u16` it is computed in.
    pub open spec fn cell_fits(&self, idx: int) -> bool {
        &&& self.cells@[idx].out_total() <= u16::MAX
        &&& self.height(idx) <= u16::MAX
    }

    /// Rendered height of cell `idx`, accounting for live-edit expansion.
    pub fn cell_height(&self, idx: usize) -> (h: u16)
        requires
            idx < self.cells@.len(),
            self.cell_fits(idx as int),
        ensures
            h == self.height(idx as int),
    {
        let cell = &self.cells[idx];
        let (_, out_rows, truncated) = cell.visible_output_layout();
        let visible_out = out_rows.saturating_sub(cell.output_scroll);
        let out = visible_out + if truncated {
            1
        } else {
            0
        };
        let src = match &self.edit {
            Some(e) if e.idx == idx => e.rows,
            _ => if cell.markdown {
                markdown_rows(cell.source.as_str()) + 2
            } else {
                cell.source_rows() + 2
            },
        };
        1 + src + out
    }
}

pub proof fn lemma_span_split(app: &App, a: int, m: int, b: int)
    requires
        a <= m <= b,
    ensures
        app.span(a, b) == app.span(a, m) + app.span(m, b),
    decreases b - m,
{
    if m < b {
        lemma_span_split(app, a, m, b - 1);
    }
}

pub proof fn lemma_span_nonneg(app: &App, a: int, b: int)
    requires
        forall|i: int| a <= i < b ==> app.height(i) >= 0,
    ensures
        app.span(a, b) >= 0,
        b > a ==> app.span(a, b) >= b - a,
    decreases b - a,
{
    if b > a {
        lemma_span_nonneg(app, a, b - 1);
    }
}

pub proof fn lemma_heights_nonneg(app: &App)
    ensures
        forall|i: int| 0 <= i < app.cells@.len() ==> #[trigger] app.height(i) >= 1,
{
    assert forall|i: int| 0 <= i < app.cells@.len() implies #[trigger] app.height(i) >= 1 by {
        let cell = app.cells@[i];
        crate::layout::lemma_rows_sum_mono(cell.outputs@, 0, cell.outputs@.len() as int);
        if !(cell.output_expanded || cell.out_total() <= OUTPUT_CAP) {
            crate::layout::lemma_blocks_that_fit_range(cell.outputs@, 0);
            let k = crate::layout::blocks_that_fit(cell.outputs@, 0);
            crate::layout::lemma_rows_sum_mono(cell.outputs@, 0, k);
        }
    }
}

/// Within one notebook, a later cell's top plus its height is below an earlier one's.
proof fn lemma_fit_mono(app: &App, t: int, k: int, j: int)
    requires
        t <= k <= j < app.cells@.len(),
        0 <= t,
    ensures
        app.span(t, k) + app.height(k) <= app.span(t, j) + app.height(j),
{
    lemma_heights_nonneg(app);
    if k < j {
        lemma_span_split(app, t, k + 1, j);
        lemma_span_nonneg(app, k + 1, j);
    }
}

impl App {
    /// With the view starting at cell `t`, cell `s` ends within `area` rows.
    pub open spec fn fits_from(&self, t: int, s: int, area: int) -> bool {
        self.span(t, s) + self.height(s) <= area
    }

    /// With the view starting at cell `t`, the cells through `s` and their separators
    /// take at most `area` rows.
    pub open spec fn through_fits(&self, t: int, s: int, area: int) -> bool {
        self.span(t, s + 1) <= area
    }

    /// The fields other than `scroll_top` are those of `other`.
    pub open spec fn same_but_scroll_top(&self, other: &App) -> bool {
        &&& self.cells == other.cells
        &&& self.selected == other.selected
        &&& self.scroll_offset == other.scroll_offset
        &&& self.status == other.status
        &&& self.exec_counter == other.exec_counter
        &&& self.pending_d == other.pending_d
        &&& self.path == other.path
        &&& self.dirty == other.dirty
        &&& self.pending_quit == other.pending_quit
        &&& self.edit == other.edit
        &&& self.running_cell == other.running_cell
        &&& self.run_queue == other.run_queue
        &&& self.free_scroll == other.free_scroll
        &&& self.cfg == other.cfg
    }

    /// Walking down from cell `i` with `y` rows used, the row counts stay within the
    /// `u16` they are summed in: each cell's height fits, and so does `y` plus it, and,
    /// while the cell ends within `area`, `y` plus it and a separator row.
    pub open spec fn walk_ok(&self, i: int, y: int, area: int) -> bool
        decreases self.cells@.len() - i,
    {
        if i < 0 || i >= self.cells@.len() {
            true
        } else {
            let h = self.height(i);
            &&& self.cell_fits(i)
            &&& y + h <= u16::MAX
            &&& (y + h > area || (y + h + 1 <= u16::MAX && self.walk_ok(i + 1, y + h + 1, area)))
        }
    }

    /// The walks from view starts `t`, `t + 1`, ... stay within `u16`, up to the first
    /// start from which cell `s` ends within `area` (at the latest `s`).
    pub open spec fn walks_ok(&self, t: int, s: int, area: int) -> bool
        decreases s - t,
    {
        if t < s && !self.fits_from(t, s, area) {
            self.walk_ok(t, 0, area) && self.walks_ok(t + 1, s, area)
        } else {
            self.walk_ok(t, 0, area)
        }
    }

    /// The rows `ensure_visible` sums fit the `u16` they are summed in: none when the
    /// selected cell is above the view; for a running cell with expanded output, the
    /// cells from the view start through it; otherwise those of each walk it makes.
    pub open spec fn visible_sums_fit(&self, area: int) -> bool {
        let o = self.scroll_top as int;
        let s = self.selected as int;
        let cell = self.cells@[s];
        if s < o {
            true
        } else if cell.output_expanded && cell.running {
            &&& forall|i: int| o <= i <= s ==> #[trigger] self.cell_fits(i)
            &&& self.span(o, s + 1) <= u16::MAX
        } else {
            self.walks_ok(o, s, area)
        }
    }

    /// Scrolls so that the selected cell shows. Above the view: the view starts at it.
    /// Otherwise the view start moves down to the first cell (from the current one) from
    /// which the selected cell ends within the area; for a running cell with expanded
    /// output, from which the cells through it and their separators fit; at the latest,
    /// the selected cell itself.
    pub fn ensure_visible(&mut self, area_height: u16)
        requires
            old(self).wf(),
            old(self).visible_sums_fit(area_height as int),
        ensures
            final(self).same_but_scroll_top(old(self)),
            ({
                let o = old(self).scroll_top as int;
                let s = old(self).selected as int;
                let r = final(self).scroll_top as int;
                let a = area_height as int;
                let cell = old(self).cells@[s];
                if s < o {
                    r == s
                } else if cell.output_expanded && cell.running {
                    &&& o <= r <= s
                    &&& (r == s || old(self).through_fits(r, s, a))
                    &&& forall|t: int| o <= t < r ==> !#[trigger] old(self).through_fits(t, s, a)
                } else {
                    &&& o <= r <= s
                    &&& (r == s || old(self).fits_from(r, s, a))
                    &&& forall|t: int| o <= t < r ==> !#[trigger] old(self).fits_from(t, s, a)
                }
            }),
    {
        if self.selected < self.scroll_top {
            self.scroll_top = self.selected;
            return;
        }
        let ghost g = *old(self);
        let n = self.cells.len();
        let sel = self.selected;
        let o = self.scroll_top;
        proof {
            lemma_heights_nonneg(&g);
        }
        let expanded_running = self.cells[sel].output_expanded && self.cells[sel].running;
        if expanded_running {
            loop
                invariant
                    self.same_but_scroll_top(&g),
                    g.wf(),
                    n == g.cells@.len(),
                    sel == g.selected,
                    o == g.scroll_top,
                    o <= self.scroll_top <= sel,
                    forall|i: int| o <= i <= sel ==> #[trigger] g.cell_fits(i),
                    g.span(o as int, sel + 1) <= u16::MAX,
                    forall|t: int|
                        o <= t < self.scroll_top ==> !#[trigger] g.through_fits(t, sel as int, area_height as int),
                ensures
                    self.same_but_scroll_top(&g),
                    o <= self.scroll_top <= sel,
                    self.scroll_top == sel || g.through_fits(
                        self.scroll_top as int,
                        sel as int,
                        area_height as int,
                    ),
                    forall|t: int|
                        o <= t < self.scroll_top ==> !#[trigger] g.through_fits(t, sel as int, area_height as int),
                decreases sel - self.scroll_top,
            {
                let t = self.scroll_top;
                let mut y: u16 = 0;
                let mut idx = t;
                proof {
                    lemma_span_split(&g, o as int, t as int, sel + 1);
                    lemma_span_nonneg(&g, o as int, t as int);
                }
                while idx <= sel
                    invariant
                        self.same_but_scroll_top(&g),
                        n == g.cells@.len(),
                        o <= t <= idx <= sel + 1,
                        sel < n,
                        forall|i: int| o <= i <= sel ==> #[trigger] g.cell_fits(i),
                        y == g.span(t as int, idx as int),
                        g.span(t as int, sel + 1) <= u16::MAX,
                    decreases sel + 1 - idx,
                {
                    assert(g.cell_fits(idx as int));
                    proof {
                        lemma_span_split(&g, t as int, idx + 1, sel + 1);
                        lemma_span_nonneg(&g, idx + 1, sel + 1);
                    }
                    y = y + self.cell_height(idx) + 1;
                    idx = idx + 1;
                }
                if y <= area_height || self.scroll_top >= self.selected {
                    break;
                }
                self.scroll_top = self.scroll_top + 1;
            }
            return;
        }
        loop
            invariant
                self.same_but_scroll_top(&g),
                g.wf(),
                n == g.cells@.len(),
                sel == g.selected,
                o <= self.scroll_top <= sel,
                g.walks_ok(self.scroll_top as int, sel as int, area_height as int),
                forall|t: int|
                    o <= t < self.scroll_top ==> !#[trigger] g.fits_from(t, sel as int, area_height as int),
            ensures
                self.same_but_scroll_top(&g),
                o <= self.scroll_top <= sel,
                self.scroll_top == sel || g.fits_from(
                    self.scroll_top as int,
                    sel as int,
                    area_height as int,
                ),
                forall|t: int|
                    o <= t < self.scroll_top ==> !#[trigger] g.fits_from(t, sel as int, area_height as int),
            decreases sel - self.scroll_top,
        {
            let t = self.scroll_top;
            let mut y: u16 = 0;
            let mut last_visible = t;
            let mut idx = t;
            assert(g.walk_ok(t as int, 0, area_height as int));
            assert(g.span(t as int, t as int) == 0);
            while idx < n
                invariant
                    self.same_but_scroll_top(&g),
                    n == g.cells@.len(),
                    t <= idx <= n,
                    t < n,
                    y == g.span(t as int, idx as int),
                    g.walk_ok(idx as int, y as int, area_height as int),
                    last_visible == (if idx == t {
                        t as int
                    } else {
                        idx - 1
                    }),
                    forall|k: int|
                        t <= k < idx ==> #[trigger] g.fits_from(t as int, k, area_height as int),
                ensures
                    t <= idx <= n,
                    last_visible == (if idx == t {
                        t as int
                    } else {
                        idx - 1
                    }),
                    forall|k: int|
                        t <= k < idx ==> #[trigger] g.fits_from(t as int, k, area_height as int),
                    idx < n ==> !g.fits_from(t as int, idx as int, area_height as int),
                decreases n - idx,
            {
                assert(g.cell_fits(idx as int));
                let h = self.cell_height(idx);
                assert(g.span(t as int, idx + 1) == g.span(t as int, idx as int) + g.height(idx as int) + 1);
                if y + h > area_height {
                    break;
                }
                y = y + h + 1;
                last_visible = idx;
                idx = idx + 1;
            }
            proof {
                let s = sel as int;
                if t < sel {
                    if s < idx {
                        assert(g.fits_from(t as int, s, area_height as int));
                    } else {
                        assert(idx < n);
                        lemma_fit_mono(&g, t as int, idx as int, s);
                    }
                }
            }
            if self.selected <= last_visible || self.scroll_top >= self.selected {
                break;
            }
            self.scroll_top = self.scroll_top + 1;
        }
    }
}

impl App {
    fn set_running_flag(&mut self, idx: usize, running: bool)
        requires
            idx < old(self).cells@.len(),
        ensures
            final(self).cells@.len() == old(self).cells@.len(),
            forall|i: int|
                0 <= i < old(self).cells@.len() && i != idx ==> final(self).cells@[i] == old(
                    self,
                ).cells@[i],
            final(self).cells@[idx as int] == (Cell { running, ..old(self).cells@[idx as int] }),
            *final(self) == (App { cells: final(self).cells, ..*old(self) }),
    {
        self.cells[idx].running = running;
    }
}

/// Which action a key selects: the first whose bindings hold the key (with exactly its
/// modifiers), in this order; an unmodified `x` toggles the output.
#[derive(Clone, Copy, Debug, PartialEq, Eq, Structural)]
pub enum KeyChoice {
    Quit,
    Save,
    RunAll,
    RunAbove,
    Interrupt,
    Run,
    MoveDown,
    MoveUp,
    Edit,
    EditFull,
    NewBelow,
    NewAbove,
    Delete,
    ToggleOutput,
    Other,
}

/// A run the front end is to start: send `code` to the kernel for cell `idx`.
#[derive(Debug, PartialEq)]
pub struct RunStart {
    pub idx: usize,
    pub code: String,
    pub exec_num: usize,
}

/// What the front end does after a key.
#[derive(Debug, PartialEq)]
pub enum KeyAction {
    Nothing,
    Quit,
    /// Save, ignoring the outcome.
    Save,
    /// Save, then quit if that succeeded or close the prompt if not.
    SaveThenQuit,
    Start(RunStart),
    /// Signal the kernel to interrupt.
    Interrupt,
    /// Open the cell in a live editor inside its box.
    EditInCell(usize),
    /// Open the cell in a full-screen editor.
    EditFullScreen(usize),
}

/// Whether the list holds the key with exactly these modifiers.
pub open spec fn bound(binds: Seq<KeyBind>, code: KeyCode, mods: KeyModifiers) -> bool {
    binds.contains(KeyBind { code, mods })
}

fn any_matches(binds: &Vec<KeyBind>, code: KeyCode, mods: KeyModifiers) -> (b: bool)
    ensures
        b == bound(binds@, code, mods),
{
    for i in 0..binds.len()
        invariant
            forall|k: int| 0 <= k < i ==> binds@[k] != (KeyBind { code, mods }),
    {
        if binds[i].matches(code, mods) {
            assert(binds@[i as int] == KeyBind { code, mods });
            return true;
        }
    }
    false
}

/// Indices of the code (non-markdown) cells among the first `end`.
pub open spec fn code_cells(cells: Seq<Cell>, end: int) -> Seq<usize>
    decreases end,
{
    if end <= 0 {
        Seq::empty()
    } else {
        let r = code_cells(cells, end - 1);
        if cells[end - 1].markdown {
            r
        } else {
            r.push((end - 1) as usize)
        }
    }
}

pub open spec fn quit_prompt() -> Seq<char> {
    "Unsaved changes — save before quitting?  y = save & quit · n = quit · Esc = cancel"@
}

/// A fresh empty code cell.
pub open spec fn blank_cell(c: Cell) -> bool {
    &&& c.source@.len() == 0
    &&& c.outputs@.len() == 0
    &&& c.exec_count is None
    &&& !c.running && !c.markdown && !c.output_expanded
    &&& c.output_scroll == 0
}

impl App {
    pub open spec fn choice(&self, code: KeyCode, mods: KeyModifiers) -> KeyChoice {
        let k = self.cfg.keys;
        if bound(k.quit@, code, mods) {
            KeyChoice::Quit
        } else if bound(k.save@, code, mods) {
            KeyChoice::Save
        } else if bound(k.run_all@, code, mods) {
            KeyChoice::RunAll
        } else if bound(k.run_above@, code, mods) {
            KeyChoice::RunAbove
        } else if bound(k.interrupt@, code, mods) {
            KeyChoice::Interrupt
        } else if bound(k.run@, code, mods) {
            KeyChoice::Run
        } else if bound(k.move_down@, code, mods) {
            KeyChoice::MoveDown
        } else if bound(k.move_up@, code, mods) {
            KeyChoice::MoveUp
        } else if bound(k.edit@, code, mods) {
            KeyChoice::Edit
        } else if bound(k.edit_full@, code, mods) {
            KeyChoice::EditFull
        } else if bound(k.new_below@, code, mods) {
            KeyChoice::NewBelow
        } else if bound(k.new_above@, code, mods) {
            KeyChoice::NewAbove
        } else if bound(k.delete@, code, mods) {
            KeyChoice::Delete
        } else if code == KeyCode::Char('x') && mods == KeyModifiers::spec_none() {
            KeyChoice::ToggleOutput
        } else {
            KeyChoice::Other
        }
    }

    /// Which action a key selects in the navigation mode.
    pub fn key_choice(&self, code: KeyCode, mods: KeyModifiers) -> (c: KeyChoice)
        ensures
            c == self.choice(code, mods),
    {
        let k = &self.cfg.keys;
        if any_matches(&k.quit, code, mods) {
            KeyChoice::Quit
        } else if any_matches(&k.save, code, mods) {
            KeyChoice::Save
        } else if any_matches(&k.run_all, code, mods) {
            KeyChoice::RunAll
        } else if any_matches(&k.run_above, code, mods) {
            KeyChoice::RunAbove
        } else if any_matches(&k.interrupt, code, mods) {
            KeyChoice::Interrupt
        } else if any_matches(&k.run, code, mods) {
            KeyChoice::Run
        } else if any_matches(&k.move_down, code, mods) {
            KeyChoice::MoveDown
        } else if any_matches(&k.move_up, code, mods) {
            KeyChoice::MoveUp
        } else if any_matches(&k.edit, code, mods) {
            KeyChoice::Edit
        } else if any_matches(&k.edit_full, code, mods) {
            KeyChoice::EditFull
        } else if any_matches(&k.new_below, code, mods) {
            KeyChoice::NewBelow
        } else if any_matches(&k.new_above, code, mods) {
            KeyChoice::NewAbove
        } else if any_matches(&k.delete, code, mods) {
            KeyChoice::Delete
        } else if code == KeyCode::Char('x') && mods == KeyModifiers::none() {
            KeyChoice::ToggleOutput
        } else {
            KeyChoice::Other
        }
    }

    /// The run of cell `idx` starts: counted, marked running, outputs cleared.
    pub open spec fn began_run(old: App, new: App, idx: int, r: Option<RunStart>) -> bool {
        if old.running_cell is Some {
            &&& r is None
            &&& new.status@ == "a cell is already running"@
            &&& new == App { status: new.status, ..old }
        } else {
            let n = old.exec_counter + 1;
            &&& r is Some
            &&& r->0.idx == idx
            &&& r->0.code@ == old.cells@[idx].source@
            &&& r->0.exec_num == n
            &&& new.exec_counter == n
            &&& new.cells@.len() == old.cells@.len()
            &&& forall|i: int| 0 <= i < old.cells@.len() && i != idx ==> new.cells@[i] == old.cells@[i]
            &&& new.cells@[idx].running
            &&& new.cells@[idx].outputs@.len() == 0
            &&& new.cells@[idx].exec_count == Some(n as usize)
            &&& new.cells@[idx].source == old.cells@[idx].source
            &&& new.cells@[idx].markdown == old.cells@[idx].markdown
            &&& new.cells@[idx].output_expanded == old.cells@[idx].output_expanded
            &&& new.cells@[idx].output_scroll == old.cells@[idx].output_scroll
            &&& new.status@ == "running cell ["@ + decimal(n as nat) + "]…"@
            &&& new == App { cells: new.cells, exec_counter: new.exec_counter, status: new.status, ..old }
        }
    }

    /// Starts running cell `idx` unless a run is in progress. The front end sends the
    /// returned code to the kernel and then reports the request with `run_sent`.
    pub fn begin_run(&mut self, idx: usize) -> (r: Option<RunStart>)
        requires
            old(self).running_cell is None ==> idx < old(self).cells@.len(),
            old(self).running_cell is None ==> old(self).exec_counter < usize::MAX,
        ensures
            App::began_run(*old(self), *final(self), idx as int, r),
    {
        if self.running_cell.is_some() {
            self.status = String::from_str("a cell is already running");
            return None;
        }
        let code = self.cells[idx].source.clone();
        self.exec_counter = self.exec_counter + 1;
        let n = self.exec_counter;
        self.cells[idx].running = true;
        self.cells[idx].outputs = Vec::new();
        self.cells[idx].exec_count = Some(n);
        let mut st = String::from_str("running cell [");
        st.append(usize_decimal(n).as_str());
        st.append("]…");
        self.status = st;
        Some(RunStart { idx, code, exec_num: n })
    }

    /// The run `start` became the running cell, awaited under `msg_id`.
    pub open spec fn sent(old: App, new: App, start: RunStart, msg_id: String) -> bool {
        &&& new.running_cell matches Some(rc) && rc.idx == start.idx && rc.msg_id == msg_id
            && rc.exec_num == start.exec_num
        &&& new == App { running_cell: new.running_cell, ..old }
    }

    /// The execute request for a started run was sent under `msg_id`.
    pub fn run_sent(&mut self, start: RunStart, msg_id: String)
        ensures
            App::sent(*old(self), *final(self), start, msg_id),
    {
        self.running_cell = Some(RunningCell { idx: start.idx, msg_id, exec_num: start.exec_num });
    }

    /// A move of the selection to `sel`, which also reattaches the view and drops a
    /// pending `d`.
    pub open spec fn moved(old: App, new: App, sel: int) -> bool {
        &&& new.selected == sel
        &&& !new.free_scroll
        &&& new.scroll_offset == 0
        &&& !new.pending_d
        &&& new == App {
            selected: new.selected,
            free_scroll: false,
            scroll_offset: 0,
            pending_d: false,
            ..old
        }
    }

    /// Queueing the code cells among the first `end`; nothing changes when there are none.
    pub open spec fn queued(old: App, new: App, end: int, all: bool) -> bool {
        let q = code_cells(old.cells@, end);
        if q.len() == 0 {
            new == old
        } else {
            &&& new.run_queue@ == q
            &&& new.status@ == (if all {
                "running all "@ + decimal(q.len()) + " code cells…"@
            } else {
                "running "@ + decimal(q.len()) + " cells up to selected…"@
            })
            &&& new == App { run_queue: new.run_queue, status: new.status, ..old }
        }
    }

    fn queue_code_cells(&mut self, end: usize, all: bool)
        requires
            end <= old(self).cells@.len(),
        ensures
            App::queued(*old(self), *final(self), end as int, all),
    {
        let mut q: Vec<usize> = Vec::new();
        for i in 0..end
            invariant
                end <= self.cells@.len(),
                q@ == code_cells(self.cells@, i as int),
        {
            if !self.cells[i].markdown {
                q.push(i);
            }
        }
        if q.len() > 0 {
            let n = q.len();
            let mut st = if all {
                String::from_str("running all ")
            } else {
                String::from_str("running ")
            };
            st.append(usize_decimal(n).as_str());
            if all {
                st.append(" code cells…");
            } else {
                st.append(" cells up to selected…");
            }
            self.run_queue = q;
            self.status = st;
        }
    }

    /// The interrupt key: a running cell stops being marked running, the queue empties.
    pub open spec fn interrupted(old: App, new: App) -> bool {
        match old.running_cell {
            Some(rc) => {
                &&& new.running_cell is None
                &&& new.run_queue@.len() == 0
                &&& new.cells@ == old.cells@.update(
                    rc.idx as int,
                    Cell { running: false, ..old.cells@[rc.idx as int] },
                )
                &&& new.status@ == "interrupted cell ["@ + decimal(rc.exec_num as nat) + "]"@
                &&& new == App {
                    running_cell: None,
                    run_queue: new.run_queue,
                    cells: new.cells,
                    status: new.status,
                    ..old
                }
            },
            None => {
                &&& new.status@ == "nothing running"@
                &&& new == App { status: new.status, ..old }
            },
        }
    }

    fn interrupt_run(&mut self) -> (was_running: bool)
        requires
            old(self).running_cell matches Some(rc) ==> rc.idx < old(self).cells@.len(),
        ensures
            App::interrupted(*old(self), *final(self)),
            was_running == old(self).running_cell is Some,
    {
        match self.running_cell.take() {
            Some(rc) => {
                self.cells[rc.idx].running = false;
                self.run_queue = Vec::new();
                let mut st = String::from_str("interrupted cell [");
                st.append(usize_decimal(rc.exec_num).as_str());
                st.append("]");
                self.status = st;
                assert(self.cells@ =~= old(self).cells@.update(
                    rc.idx as int,
                    Cell { running: false, ..old(self).cells@[rc.idx as int] },
                ));
                true
            },
            None => {
                self.status = String::from_str("nothing running");
                false
            },
        }
    }

    /// The delete key: the second of two removes the selected cell (never the last
    /// one left), keeps the selection in range and marks the notebook changed.
    pub open spec fn delete_pressed(old: App, new: App) -> bool {
        if old.pending_d {
            let len = old.cells@.len();
            if len > 1 {
                &&& new.cells@ == old.cells@.remove(old.selected as int)
                &&& new.selected == (if old.selected >= len - 1 {
                    (len - 2) as usize
                } else {
                    old.selected
                })
                &&& new == App {
                    cells: new.cells,
                    selected: new.selected,
                    dirty: true,
                    pending_d: false,
                    ..old
                }
            } else {
                new == App { pending_d: false, ..old }
            }
        } else {
            new == App { pending_d: true, ..old }
        }
    }

    fn press_delete(&mut self)
        requires
            old(self).wf(),
        ensures
            App::delete_pressed(*old(self), *final(self)),
    {
        if self.pending_d {
            if self.cells.len() > 1 {
                self.cells.remove(self.selected);
                if self.selected >= self.cells.len() {
                    self.selected = self.cells.len() - 1;
                }
                self.dirty = true;
            }
            self.pending_d = false;
        } else {
            self.pending_d = true;
        }
    }

    /// A blank code cell is inserted at `at` and `sel` selected; the notebook changed.
    pub open spec fn inserted(old: App, new: App, at: int, sel: int) -> bool {
        &&& blank_cell(new.cells@[at])
        &&& new.cells@ == old.cells@.insert(at, new.cells@[at])
        &&& new.selected == sel
        &&& new == App { cells: new.cells, selected: new.selected, dirty: true, ..old }
    }

    fn insert_blank(&mut self, at: usize, sel: usize)
        requires
            at <= old(self).cells@.len(),
        ensures
            App::inserted(*old(self), *final(self), at as int, sel as int),
    {
        let c = Cell {
            source: String::new(),
            outputs: Vec::new(),
            exec_count: None,
            running: false,
            markdown: false,
            output_expanded: false,
            output_scroll: 0,
        };
        self.cells.insert(at, c);
        self.selected = sel;
        self.dirty = true;
    }

    /// `x` flips the selected cell's expansion; collapsing scrolls its output back.
    pub open spec fn toggled(old: App, new: App) -> bool {
        let c = old.cells@[old.selected as int];
        let e = !c.output_expanded;
        &&& new.cells@ == old.cells@.update(
            old.selected as int,
            Cell {
                output_expanded: e,
                output_scroll: if e {
                    c.output_scroll
                } else {
                    0
                },
                ..c
            },
        )
        &&& new == App { cells: new.cells, ..old }
    }

    fn toggle_output(&mut self)
        requires
            old(self).wf(),
        ensures
            App::toggled(*old(self), *final(self)),
    {
        let i = self.selected;
        let e = !self.cells[i].output_expanded;
        self.cells[i].output_expanded = e;
        if !e {
            self.cells[i].output_scroll = 0;
        }
        assert(self.cells@ =~= old(self).cells@.update(
            i as int,
            Cell {
                output_expanded: e,
                output_scroll: if e {
                    old(self).cells@[i as int].output_scroll
                } else {
                    0
                },
                ..old(self).cells@[i as int]
            },
        ));
    }

    /// Whether a key in the navigation mode would index a missing cell: interrupting a
    /// run whose cell was deleted since it started.
    pub open spec fn key_faults(&self, code: KeyCode, mods: KeyModifiers) -> bool {
        !self.pending_quit && self.choice(code, mods) == KeyChoice::Interrupt && (
        self.running_cell matches Some(rc) && rc.idx >= self.cells@.len())
    }

    /// Whether the key starts a run, which takes the next execution count.
    pub open spec fn key_runs(&self, code: KeyCode, mods: KeyModifiers) -> bool {
        &&& !self.pending_quit
        &&& self.choice(code, mods) == KeyChoice::Run
        &&& self.running_cell is None
        &&& !self.cells@[self.selected as int].markdown
    }

    /// What a key press does. With the save-before-quit prompt showing: `y`/`Y` saves
    /// and quits, `n`/`N` quits, Esc or `c` closes the prompt, other keys do nothing.
    /// Otherwise the chosen action (see `choice`) applies, and a pending `d` stays only
    /// as the first half of `dd`: any key but the delete key drops it.
    pub fn handle_key(&mut self, code: KeyCode, mods: KeyModifiers) -> (r: KeyAction)
        requires
            old(self).wf(),
            !old(self).key_faults(code, mods),
            old(self).key_runs(code, mods) ==> old(self).exec_counter < usize::MAX,
        ensures
            final(self).wf(),
            old(self).pending_quit ==> (if code == KeyCode::Char('y') || code == KeyCode::Char('Y') {
                r is SaveThenQuit && *final(self) == *old(self)
            } else if code == KeyCode::Char('n') || code == KeyCode::Char('N') {
                r is Quit && *final(self) == *old(self)
            } else if code == KeyCode::Esc || code == KeyCode::Char('c') {
                &&& r is Nothing
                &&& final(self).status@ == "cancelled — still editing"@
                &&& *final(self) == (App {
                    pending_quit: false,
                    status: final(self).status,
                    ..*old(self)
                })
            } else {
                r is Nothing && *final(self) == *old(self)
            }),
            !old(self).pending_quit ==> final(self).pending_d == (old(self).choice(code, mods)
                == KeyChoice::Delete && !old(self).pending_d),
            !old(self).pending_quit ==> ({
                let o = if old(self).choice(code, mods) == KeyChoice::Delete {
                    *old(self)
                } else {
                    App { pending_d: false, ..*old(self) }
                };
                let n = *final(self);
                let sel = o.selected as int;
                match o.choice(code, mods) {
                    KeyChoice::Quit => if o.dirty {
                        &&& r is Nothing
                        &&& n.status@ == quit_prompt()
                        &&& n == App { pending_quit: true, status: n.status, ..o }
                    } else {
                        r is Quit && n == o
                    },
                    KeyChoice::Save => r is Save && n == o,
                    KeyChoice::RunAll => r is Nothing && App::queued(
                        o,
                        n,
                        o.cells@.len() as int,
                        true,
                    ),
                    KeyChoice::RunAbove => r is Nothing && App::queued(o, n, sel + 1, false),
                    KeyChoice::Interrupt => App::interrupted(o, n) && (if o.running_cell is Some {
                        r is Interrupt
                    } else {
                        r is Nothing
                    }),
                    KeyChoice::Run => if o.cells@[sel].markdown {
                        &&& r is Nothing
                        &&& n.status@ == "markdown cell — nothing to run"@
                        &&& n == App { status: n.status, ..o }
                    } else {
                        App::began_run(
                            o,
                            n,
                            sel,
                            match r {
                                KeyAction::Start(s) => Some(s),
                                _ => None,
                            },
                        ) && (r is Start || r is Nothing)
                    },
                    KeyChoice::MoveDown => r is Nothing && App::moved(
                        o,
                        n,
                        if sel + 1 < o.cells@.len() {
                            sel + 1
                        } else {
                            sel
                        },
                    ),
                    KeyChoice::MoveUp => r is Nothing && App::moved(
                        o,
                        n,
                        if sel > 0 {
                            sel - 1
                        } else {
                            sel
                        },
                    ),
                    KeyChoice::Edit => r == KeyAction::EditInCell(o.selected) && n == o,
                    KeyChoice::EditFull => r == KeyAction::EditFullScreen(o.selected) && n == o,
                    KeyChoice::NewBelow => r is Nothing && App::inserted(o, n, sel + 1, sel + 1),
                    KeyChoice::NewAbove => r is Nothing && App::inserted(o, n, sel, sel),
                    KeyChoice::Delete => r is Nothing && App::delete_pressed(o, n),
                    KeyChoice::ToggleOutput => r is Nothing && App::toggled(o, n),
                    KeyChoice::Other => r is Nothing && n == App { pending_d: false, ..o },
                }
            }),
    {
        if self.pending_quit {
            if code == KeyCode::Char('y') || code == KeyCode::Char('Y') {
                return KeyAction::SaveThenQuit;
            } else if code == KeyCode::Char('n') || code == KeyCode::Char('N') {
                return KeyAction::Quit;
            } else if code == KeyCode::Esc || code == KeyCode::Char('c') {
                self.pending_quit = false;
                self.status = String::from_str("cancelled — still editing");
            }
            return KeyAction::Nothing;
        }
        let choice = self.key_choice(code, mods);
        if choice != KeyChoice::Delete {
            self.pending_d = false;
        }
        match choice {
            KeyChoice::Quit => {
                if self.dirty {
                    self.pending_quit = true;
                    self.status = String::from_str(
                        "Unsaved changes — save before quitting?  y = save & quit · n = quit · Esc = cancel",
                    );
                    KeyAction::Nothing
                } else {
                    KeyAction::Quit
                }
            },
            KeyChoice::Save => KeyAction::Save,
            KeyChoice::RunAll => {
                let n = self.cells.len();
                self.queue_code_cells(n, true);
                KeyAction::Nothing
            },
            KeyChoice::RunAbove => {
                let len = self.cells.len();
                assert(self.selected < len);
                let end = self.selected + 1;
                self.queue_code_cells(end, false);
                KeyAction::Nothing
            },
            KeyChoice::Interrupt => {
                if self.interrupt_run() {
                    KeyAction::Interrupt
                } else {
                    KeyAction::Nothing
                }
            },
            KeyChoice::Run => {
                if self.cells[self.selected].markdown {
                    self.status = String::from_str("markdown cell — nothing to run");
                    KeyAction::Nothing
                } else {
                    let sel = self.selected;
                    match self.begin_run(sel) {
                        Some(s) => KeyAction::Start(s),
                        None => KeyAction::Nothing,
                    }
                }
            },
            KeyChoice::MoveDown => {
                let len = self.cells.len();
                if self.selected + 1 < len {
                    self.selected = self.selected + 1;
                }
                self.free_scroll = false;
                self.scroll_offset = 0;
                self.pending_d = false;
                KeyAction::Nothing
            },
            KeyChoice::MoveUp => {
                if self.selected > 0 {
                    self.selected = self.selected - 1;
                }
                self.free_scroll = false;
                self.scroll_offset = 0;
                self.pending_d = false;
                KeyAction::Nothing
            },
            KeyChoice::Edit => KeyAction::EditInCell(self.selected),
            KeyChoice::EditFull => KeyAction::EditFullScreen(self.selected),
            KeyChoice::NewBelow => {
                let len = self.cells.len();
                assert(self.selected < len);
                let at = self.selected + 1;
                self.insert_blank(at, at);
                KeyAction::Nothing
            },
            KeyChoice::NewAbove => {
                let at = self.selected;
                self.insert_blank(at, at);
                KeyAction::Nothing
            },
            KeyChoice::Delete => {
                self.press_delete();
                KeyAction::Nothing
            },
            KeyChoice::ToggleOutput => {
                self.toggle_output();
                KeyAction::Nothing
            },
            KeyChoice::Other => {
                self.pending_d = false;
                KeyAction::Nothing
            },
        }
    }
}

/// The scratch notebook shown when no file is given: an import cell and a plotting cell.
pub fn demo_cells() -> (v: Vec<Cell>)
    ensures
        v@.len() == 2,
        v@[0].source@ == "import numpy as np\nimport matplotlib.pyplot as plt\nprint('ready')"@,
        v@[1].source@
            == "x = np.linspace(0, 6.28, 300)\nplt.figure()\nplt.plot(x, np.sin(x), label='sin')\nplt.plot(x, np.cos(x), label='cos')\nplt.legend()\nplt.title('epycell')\nprint('figure shows even with a trailing print now')"@,
        forall|i: int|
            0 <= i < 2 ==> {
                let c = #[trigger] v@[i];
                &&& c.outputs@.len() == 0
                &&& c.exec_count is None
                &&& !c.running && !c.markdown && !c.output_expanded
                &&& c.output_scroll == 0
            },
{
    let mut v: Vec<Cell> = Vec::new();
    v.push(Cell::new("import numpy as np\nimport matplotlib.pyplot as plt\nprint('ready')"));
    v.push(
        Cell::new(
            "x = np.linspace(0, 6.28, 300)\nplt.figure()\nplt.plot(x, np.sin(x), label='sin')\nplt.plot(x, np.cos(x), label='cos')\nplt.legend()\nplt.title('epycell')\nprint('figure shows even with a trailing print now')",
        ),
    );
    v
}

impl App {
    /// A notebook showing these cells (one empty code cell when there are none), saved to
    /// `path` if given, with the key help (and the opened path) in the status bar.
    pub fn new(cells: Vec<Cell>, path: Option<String>, cfg: Config) -> (a: App)
        ensures
            a.wf(),
            cells@.len() > 0 ==> a.cells@ == cells@,
            cells@.len() == 0 ==> a.cells@.len() == 1 && blank_cell(a.cells@[0]),
            a.selected == 0 && a.scroll_top == 0 && a.scroll_offset == 0,
            a.status@ == cfg.keys.spec_help_line() + "   "@ + match path {
                Some(p) => "opened "@ + p@,
                None => Seq::empty(),
            },
            a.exec_counter == 0,
            !a.pending_d && !a.dirty && !a.pending_quit && !a.free_scroll,
            a.path == path,
            a.edit is None && a.running_cell is None && a.run_queue@.len() == 0,
            a.cfg == cfg,
    {
        let mut status = cfg.keys.help_line();
        status.append("   ");
        match &path {
            Some(p) => {
                status.append("opened ");
                status.append(p.as_str());
            },
            None => {},
        }
        let cells = if cells.len() == 0 {
            let mut v: Vec<Cell> = Vec::new();
            v.push(
                Cell {
                    source: String::new(),
                    outputs: Vec::new(),
                    exec_count: None,
                    running: false,
                    markdown: false,
                    output_expanded: false,
                    output_scroll: 0,
                },
            );
            v
        } else {
            cells
        };
        App {
            cells,
            selected: 0,
            scroll_top: 0,
            scroll_offset: 0,
            status,
            exec_counter: 0,
            pending_d: false,
            path,
            dirty: false,
            pending_quit: false,
            edit: None,
            running_cell: None,
            run_queue: Vec::new(),
            free_scroll: false,
            cfg,
        }
    }

    /// A save asked for on quitting failed: the prompt closes and the notebook stays
    /// open, showing the failure.
    pub fn quit_save_failed(&mut self)
        ensures
            *final(self) == (App { pending_quit: false, ..*old(self) }),
    {
        self.pending_quit = false;
    }

    /// Where a save writes: the notebook's path, else `untitled.ipynb`.
    pub fn save_target(&self) -> (p: String)
        ensures
            p@ == match self.path {
                Some(q) => q@,
                None => "untitled.ipynb"@,
            },
    {
        match &self.path {
            Some(q) => q.clone(),
            None => String::from_str("untitled.ipynb"),
        }
    }

    /// The cells to save: each source with its kind.
    pub fn cells_to_save(&self) -> (v: Vec<NbCell>)
        ensures
            v@.len() == self.cells@.len(),
            forall|i: int|
                0 <= i < v@.len() ==> #[trigger] v@[i]@ == (
                self.cells@[i].source@,
                self.cells@[i].markdown,
            ),
    {
        let mut v: Vec<NbCell> = Vec::new();
        for i in 0..self.cells.len()
            invariant
                v@.len() == i,
                i <= self.cells@.len(),
                forall|k: int|
                    0 <= k < i ==> #[trigger] v@[k]@ == (
                    self.cells@[k].source@,
                    self.cells@[k].markdown,
                ),
        {
            v.push(NbCell { source: self.cells[i].source.clone(), markdown: self.cells[i].markdown });
        }
        v
    }

    /// Records the outcome of saving to `path`: on success the path is kept, the
    /// notebook is clean and the status says so; on failure the status gives the error.
    pub fn record_save(&mut self, path: String, outcome: Result<(), String>) -> (ok: bool)
        ensures
            ok == outcome is Ok,
            match outcome {
                Ok(_) => {
                    &&& final(self).status@ == "saved "@ + path@
                    &&& final(self).path == Some(path)
                    &&& !final(self).dirty
                    &&& *final(self) == (App {
                        status: final(self).status,
                        path: Some(path),
                        dirty: false,
                        ..*old(self)
                    })
                },
                Err(e) => {
                    &&& final(self).status@ == "save failed: "@ + e@
                    &&& *final(self) == (App { status: final(self).status, ..*old(self) })
                },
            },
    {
        match outcome {
            Ok(()) => {
                let mut st = String::from_str("saved ");
                st.append(path.as_str());
                self.status = st;
                self.path = Some(path);
                self.dirty = false;
                true
            },
            Err(e) => {
                let mut st = String::from_str("save failed: ");
                st.append(e.as_str());
                self.status = st;
                false
            },
        }
    }

    /// Mouse wheel down: three rows further into the first visible cell; past its end
    /// (and separator) the view moves to the next cell, if any, at its top. The view no
    /// longer follows the selection.
    pub fn wheel_down(&mut self)
        requires
            old(self).scroll_top < old(self).cells@.len(),
            old(self).cell_fits(old(self).scroll_top as int),
            old(self).height(old(self).scroll_top as int) + 1 <= u16::MAX,
            old(self).scroll_offset + 3 <= u16::MAX,
        ensures
            ({
                let o = *old(self);
                let off = o.scroll_offset + 3;
                let ch = o.height(o.scroll_top as int) + 1;
                &&& final(self).free_scroll
                &&& if off >= ch {
                    &&& final(self).scroll_offset == 0
                    &&& final(self).scroll_top == (if o.scroll_top + 1 < o.cells@.len() {
                        o.scroll_top + 1
                    } else {
                        o.scroll_top as int
                    })
                } else {
                    final(self).scroll_offset == off && final(self).scroll_top == o.scroll_top
                }
                &&& *final(self) == (App {
                    scroll_offset: final(self).scroll_offset,
                    scroll_top: final(self).scroll_top,
                    free_scroll: true,
                    ..o
                })
            }),
    {
        let ch = self.cell_height(self.scroll_top) + 1;
        self.scroll_offset = self.scroll_offset + 3;
        if self.scroll_offset >= ch {
            let len = self.cells.len();
            if self.scroll_top + 1 < len {
                self.scroll_top = self.scroll_top + 1;
            }
            self.scroll_offset = 0;
        }
        self.free_scroll = true;
    }

    /// Mouse wheel up: three rows back within the first visible cell; at its top, the
    /// view moves to the previous cell's last row. The view no longer follows the
    /// selection.
    pub fn wheel_up(&mut self)
        requires
            old(self).scroll_offset == 0 && old(self).scroll_top > 0 ==> {
                let p = old(self).scroll_top - 1;
                &&& p < old(self).cells@.len()
                &&& old(self).cell_fits(p)
                &&& old(self).height(p) + 1 <= u16::MAX
            },
        ensures
            ({
                let o = *old(self);
                &&& final(self).free_scroll
                &&& if o.scroll_offset >= 3 {
                    final(self).scroll_offset == o.scroll_offset - 3 && final(self).scroll_top
                        == o.scroll_top
                } else if o.scroll_offset > 0 {
                    final(self).scroll_offset == 0 && final(self).scroll_top == o.scroll_top
                } else if o.scroll_top > 0 {
                    &&& final(self).scroll_top == o.scroll_top - 1
                    &&& final(self).scroll_offset == o.height(o.scroll_top - 1)
                } else {
                    final(self).scroll_offset == 0 && final(self).scroll_top == 0
                }
                &&& *final(self) == (App {
                    scroll_offset: final(self).scroll_offset,
                    scroll_top: final(self).scroll_top,
                    free_scroll: true,
                    ..o
                })
            }),
    {
        if self.scroll_offset >= 3 {
            self.scroll_offset = self.scroll_offset - 3;
        } else if self.scroll_offset > 0 {
            self.scroll_offset = 0;
        } else if self.scroll_top > 0 {
            let st = self.scroll_top - 1;
            let ch = self.cell_height(st) + 1;
            self.scroll_top = st;
            self.scroll_offset = ch.saturating_sub(1);
        }
        self.free_scroll = true;
    }

    /// Mouse wheel while a cell is edited live: the view start moves one cell down
    /// (not past the last) or up (not before the first).
    pub fn edit_wheel(&mut self, down: bool)
        ensures
            *final(self) == (App { scroll_top: final(self).scroll_top, ..*old(self) }),
            final(self).scroll_top == (if down {
                if old(self).scroll_top + 1 < old(self).cells@.len() {
                    old(self).scroll_top + 1
                } else {
                    old(self).scroll_top as int
                }
            } else {
                if old(self).scroll_top > 0 {
                    old(self).scroll_top - 1
                } else {
                    0
                }
            }),
    {
        if down {
            let len = self.cells.len();
            if self.scroll_top < len && self.scroll_top + 1 < len {
                self.scroll_top = self.scroll_top + 1;
            }
        } else if self.scroll_top > 0 {
            self.scroll_top = self.scroll_top - 1;
        }
    }

    /// With no run in progress, takes the next queued cell index, if any.
    pub fn next_queued(&mut self) -> (r: Option<usize>)
        ensures
            if old(self).running_cell is None && old(self).run_queue@.len() > 0 {
                &&& r == Some(old(self).run_queue@[0])
                &&& final(self).run_queue@ == old(self).run_queue@.drop_first()
                &&& *final(self) == (App { run_queue: final(self).run_queue, ..*old(self) })
            } else {
                r is None && *final(self) == *old(self)
            },
    {
        if self.running_cell.is_none() && self.run_queue.len() > 0 {
            let idx = self.run_queue.remove(0);
            assert(self.run_queue@ =~= old(self).run_queue@.drop_first());
            Some(idx)
        } else {
            None
        }
    }
}

/// Whether `sub` occurs in `s`.
pub open spec fn has_sub(s: Seq<char>, sub: Seq<char>) -> bool {
    exists|i: int| 0 <= i && i + sub.len() <= s.len() && #[trigger] s.subrange(i, i + sub.len()) == sub
}

fn contains_str(s: &str, sub: &str) -> (b: bool)
    ensures
        b == has_sub(s@, sub@),
{
    let a = chars_of(s);
    let p = chars_of(sub);
    if p.len() > a.len() {
        return false;
    }
    let mut i: usize = 0;
    while i <= a.len() - p.len()
        invariant
            a@ == s@,
            p@ == sub@,
            p.len() <= a.len(),
            i <= a.len() - p.len() + 1,
            forall|j: int| 0 <= j < i ==> #[trigger] s@.subrange(j, j + sub@.len()) != sub@,
        decreases a.len() - i,
    {
        let mut k: usize = 0;
        let mut same = true;
        while k < p.len()
            invariant
                a@ == s@,
                p@ == sub@,
                i + p.len() <= a.len(),
                k <= p.len(),
                same == forall|m: int| 0 <= m < k ==> a@[i + m] == p@[m],
            decreases p.len() - k,
        {
            if a[i + k] != p[k] {
                same = false;
            }
            k = k + 1;
        }
        if same {
            assert(s@.subrange(i as int, i + sub@.len()) =~= sub@);
            return true;
        }
        assert(s@.subrange(i as int, i + sub@.len()) != sub@) by {
            let m = choose|m: int| 0 <= m < p.len() && a@[i + m] != p@[m];
            assert(s@.subrange(i as int, i + sub@.len())[m] == a@[i + m]);
        }
        i = i + 1;
    }
    false
}

/// The colour of a stream's output: the error colour for `Stderr`, else the inactive one.
pub open spec fn stream_color(cfg: Config, name: Seq<char>) -> Rgb {
    if has_sub(name, "Stderr"@) {
        cfg.theme.error
    } else {
        cfg.theme.inactive
    }
}

/// `traceback.join("\n")`.
pub open spec fn joined_lines(ts: Seq<Seq<char>>) -> Seq<char>
    decreases ts.len(),
{
    if ts.len() == 0 {
        Seq::empty()
    } else if ts.len() == 1 {
        ts[0]
    } else {
        joined_lines(ts.drop_last()) + "\n"@ + ts.last()
    }
}

/// A text output block: its text and colour.
pub open spec fn text_block(v: OutputView, text: Seq<char>, color: Rgb) -> bool {
    v matches OutputView::Text { text: t, color: c } && t@ == text && c == color
}

impl App {
    /// The text block an output is shown as (a PNG is the front end's to render): stream
    /// text in the stream's colour, results in the output colour, an error as its
    /// traceback without escape sequences (or `name: value` when it has none).
    pub fn text_view(&self, o: Output) -> (r: Option<OutputView>)
        ensures
            match o@ {
                crate::kernel::OutputModel::Stream { name, text } => r matches Some(v) && text_block(
                    v,
                    text,
                    stream_color(self.cfg, name),
                ),
                crate::kernel::OutputModel::Text(t) => r matches Some(v) && text_block(
                    v,
                    t,
                    self.cfg.theme.output,
                ),
                crate::kernel::OutputModel::Error { ename, evalue, traceback } => r matches Some(
                    v,
                ) && text_block(
                    v,
                    if traceback.len() == 0 {
                        ename + ": "@ + evalue
                    } else {
                        ansi_scan(joined_lines(traceback)).0
                    },
                    self.cfg.theme.error,
                ),
                crate::kernel::OutputModel::Png(_) => r is None,
            },
    {
        match o {
            Output::Stream { name, text } => {
                let color = if contains_str(name.as_str(), "Stderr") {
                    self.cfg.theme.error
                } else {
                    self.cfg.theme.inactive
                };
                Some(OutputView::Text { text, color })
            },
            Output::Text(text) => Some(OutputView::Text { text, color: self.cfg.theme.output }),
            Output::Error { ename, evalue, traceback } => {
                let text = if traceback.len() == 0 {
                    let mut t = ename.clone();
                    t.append(": ");
                    t.append(evalue.as_str());
                    t
                } else {
                    let ghost tv = traceback@.map_values(|t: String| t@);
                    let mut j = traceback[0].clone();
                    assert(tv.take(1) =~= seq![tv[0]]);
                    for i in 1..traceback.len()
                        invariant
                            tv == traceback@.map_values(|t: String| t@),
                            traceback@.len() >= 1,
                            j@ == joined_lines(tv.take(i as int)),
                    {
                        assert(tv.take(i + 1).drop_last() == tv.take(i as int));
                        j.append("\n");
                        j.append(traceback[i].as_str());
                    }
                    assert(tv.take(traceback.len() as int) == tv);
                    strip_ansi(j.as_str())
                };
                Some(OutputView::Text { text, color: self.cfg.theme.error })
            },
            Output::Png(_) => None,
        }
    }
}

/// The outputs after a stream chunk: merged (carriage returns applied) into the last
/// block when that is text of the same colour, else appended as a new block.
pub open spec fn stream_merged(
    old_outs: Seq<OutputView>,
    new_outs: Seq<OutputView>,
    text: Seq<char>,
    color: Rgb,
) -> bool {
    if old_outs.len() > 0 && (old_outs.last() matches OutputView::Text { color: c, .. } && c
        == color) {
        &&& new_outs.len() == old_outs.len()
        &&& forall|i: int| 0 <= i < old_outs.len() - 1 ==> new_outs[i] == old_outs[i]
        &&& (old_outs.last() matches OutputView::Text { text: t, .. } && text_block(
            new_outs.last(),
            applied_cr(t@, text),
            color,
        ))
    } else {
        &&& new_outs.len() == old_outs.len() + 1
        &&& forall|i: int| 0 <= i < old_outs.len() ==> new_outs[i] == old_outs[i]
        &&& text_block(new_outs.last(), applied_cr(Seq::empty(), text), color)
    }
}

/// Output rows of a cell after a stream chunk is merged in.
pub open spec fn rows_after_stream(outs: Seq<OutputView>, text: Seq<char>, color: Rgb) -> int {
    if outs.len() > 0 && (outs.last() matches OutputView::Text { color: c, .. } && c == color) {
        rows_sum(outs, outs.len() - 1) + crate::layout::text_rows(
            applied_cr(
                match outs.last() {
                    OutputView::Text { text: t, .. } => t@,
                    _ => Seq::empty(),
                },
                text,
            ),
        )
    } else {
        rows_sum(outs, outs.len() as int) + crate::layout::text_rows(
            applied_cr(Seq::empty(), text),
        )
    }
}

/// The running cell's outputs were replaced by `outs`, then followed (see `follow_output`).
pub open spec fn outputs_became(old: App, new: App, outs_ok: bool) -> bool {
    let idx = old.running_cell->0.idx as int;
    let c = old.cells@[idx];
    let nc = new.cells@[idx];
    let total = rows_sum(nc.outputs@, nc.outputs@.len() as int);
    &&& outs_ok
    &&& new.cells@.len() == old.cells@.len()
    &&& forall|i: int| 0 <= i < old.cells@.len() && i != idx ==> new.cells@[i] == old.cells@[i]
    &&& nc.source == c.source && nc.exec_count == c.exec_count && nc.running == c.running
    &&& nc.markdown == c.markdown && nc.output_expanded == c.output_expanded
    &&& nc.output_scroll == (if c.output_expanded {
        if total > OUTPUT_CAP {
            (total - OUTPUT_CAP) as u16
        } else {
            0u16
        }
    } else {
        c.output_scroll
    })
    &&& new == App { cells: new.cells, ..old }
}

proof fn lemma_rows_sum_prefix(a: Seq<OutputView>, b: Seq<OutputView>, k: int)
    requires
        0 <= k <= a.len(),
        k <= b.len(),
        forall|i: int| 0 <= i < k ==> a[i] == b[i],
    ensures
        rows_sum(a, k) == rows_sum(b, k),
    decreases k,
{
    if k > 0 {
        lemma_rows_sum_prefix(a, b, k - 1);
    }
}

impl App {
    /// A stream chunk of the running cell: merged into its output and followed.
    pub fn on_stream(&mut self, name: &str, text: &str)
        requires
            old(self).running_cell matches Some(rc) && rc.idx < old(self).cells@.len(),
            ({
                let c = old(self).cells@[old(self).running_cell->0.idx as int];
                c.output_expanded ==> rows_after_stream(
                    c.outputs@,
                    text@,
                    stream_color(old(self).cfg, name@),
                ) <= u16::MAX
            }),
        ensures
            outputs_became(
                *old(self),
                *final(self),
                stream_merged(
                    old(self).cells@[old(self).running_cell->0.idx as int].outputs@,
                    final(self).cells@[old(self).running_cell->0.idx as int].outputs@,
                    text@,
                    stream_color(old(self).cfg, name@),
                ),
            ),
    {
        let idx = match &self.running_cell {
            Some(rc) => rc.idx,
            None => 0,
        };
        let color = if contains_str(name, "Stderr") {
            self.cfg.theme.error
        } else {
            self.cfg.theme.inactive
        };
        let ghost outs = self.cells@[idx as int].outputs@;
        let n = self.cells[idx].outputs.len();
        let merge = n > 0 && match &self.cells[idx].outputs[n - 1] {
            OutputView::Text { color: c, .. } => *c == color,
            _ => false,
        };
        if merge {
            let last = self.cells[idx].outputs.pop();
            match last {
                Some(OutputView::Text { text: mut t, color: c }) => {
                    apply_cr(&mut t, text);
                    self.cells[idx].outputs.push(OutputView::Text { text: t, color: c });
                },
                _ => {},
            }
        } else {
            let mut buf = String::new();
            apply_cr(&mut buf, text);
            self.cells[idx].outputs.push(OutputView::Text { text: buf, color });
        }
        let ghost nouts = self.cells@[idx as int].outputs@;
        proof {
            if merge {
                lemma_rows_sum_prefix(outs, nouts, n - 1);
                assert(rows_sum(nouts, nouts.len() as int) == rows_after_stream(outs, text@, color));
            } else {
                lemma_rows_sum_prefix(outs, nouts, n as int);
                assert(rows_sum(nouts, nouts.len() as int) == rows_after_stream(outs, text@, color));
            }
        }
        follow_output(&mut self.cells[idx]);
    }

    /// Rendered output blocks of the running cell: appended and followed.
    pub fn on_views(&mut self, views: Vec<OutputView>)
        requires
            old(self).running_cell matches Some(rc) && rc.idx < old(self).cells@.len(),
            ({
                let c = old(self).cells@[old(self).running_cell->0.idx as int];
                c.output_expanded ==> rows_sum(
                    c.outputs@ + views@,
                    (c.outputs@ + views@).len() as int,
                ) <= u16::MAX
            }),
        ensures
            outputs_became(
                *old(self),
                *final(self),
                final(self).cells@[old(self).running_cell->0.idx as int].outputs@ == old(
                    self,
                ).cells@[old(self).running_cell->0.idx as int].outputs@ + views@,
            ),
    {
        let idx = match &self.running_cell {
            Some(rc) => rc.idx,
            None => 0,
        };
        let mut views = views;
        self.cells[idx].outputs.append(&mut views);
        follow_output(&mut self.cells[idx]);
    }

    /// The running cell finished: it is no longer marked running, no run is in progress,
    /// and the status reports it done.
    pub open spec fn idled(old: App, new: App) -> bool {
        let rc = old.running_cell->0;
        &&& new.cells@ == old.cells@.update(
            rc.idx as int,
            Cell { running: false, ..old.cells@[rc.idx as int] },
        )
        &&& new.status@ == "cell ["@ + decimal(rc.exec_num as nat) + "] done"@
        &&& new == App { cells: new.cells, status: new.status, running_cell: None, ..old }
    }

    /// The running cell's execution finished.
    pub fn on_idle(&mut self)
        requires
            old(self).running_cell matches Some(rc) && rc.idx < old(self).cells@.len(),
        ensures
            App::idled(*old(self), *final(self)),
    {
        let (idx, n) = match &self.running_cell {
            Some(rc) => (rc.idx, rc.exec_num),
            None => (0, 0),
        };
        self.cells[idx].running = false;
        let mut st = String::from_str("cell [");
        st.append(usize_decimal(n).as_str());
        st.append("] done");
        self.status = st;
        self.running_cell = None;
        assert(self.cells@ =~= old(self).cells@.update(
            idx as int,
            Cell { running: false, ..old(self).cells@[idx as int] },
        ));
    }

    /// Live editing of cell `idx` starts: the view starts at it and its box gets `rows`.
    pub fn begin_edit(&mut self, idx: usize, rows: u16, editor: &str)
        ensures
            final(self).status@ == "editing in "@ + editor@ + " — save & quit to return"@,
            *final(self) == (App {
                scroll_top: idx,
                edit: Some(EditView { idx, rows }),
                status: final(self).status,
                ..*old(self)
            }),
    {
        self.scroll_top = idx;
        self.edit = Some(EditView { idx, rows });
        let mut st = String::from_str("editing in ");
        st.append(editor);
        st.append(" — save & quit to return");
        self.status = st;
    }

    /// The terminal was resized during live editing: the box gets `rows`.
    pub fn resize_edit(&mut self, rows: u16)
        ensures
            *final(self) == (App {
                edit: match old(self).edit {
                    Some(e) => Some(EditView { rows, ..e }),
                    None => None,
                },
                ..*old(self)
            }),
    {
        match self.edit {
            Some(e) => {
                self.edit = Some(EditView { rows, ..e });
            },
            None => {},
        }
    }

    /// Live editing ended.
    pub fn end_edit(&mut self)
        ensures
            *final(self) == (App { edit: None, ..*old(self) }),
    {
        self.edit = None;
    }

    /// The live editor of cell `idx` saved `text`: one trailing line feed is dropped;
    /// a different source replaces the cell's and marks the notebook changed.
    pub fn apply_edited_source(&mut self, idx: usize, text: String, editor: &str)
        requires
            idx < old(self).cells@.len(),
        ensures
            ({
                let t = if text@.len() > 0 && text@.last() == '\n' {
                    text@.drop_last()
                } else {
                    text@
                };
                let c = old(self).cells@[idx as int];
                &&& final(self).status@ == "edited cell "@ + decimal((idx + 1) as nat) + " in "@
                    + editor@
                &&& if t != c.source@ {
                    &&& final(self).cells@.len() == old(self).cells@.len()
                    &&& forall|i: int|
                        0 <= i < old(self).cells@.len() && i != idx ==> final(self).cells@[i]
                            == old(self).cells@[i]
                    &&& final(self).cells@[idx as int].source@ == t
                    &&& final(self).cells@[idx as int] == (Cell {
                        source: final(self).cells@[idx as int].source,
                        ..c
                    })
                    &&& *final(self) == (App {
                        cells: final(self).cells,
                        status: final(self).status,
                        dirty: true,
                        ..*old(self)
                    })
                } else {
                    *final(self) == (App { status: final(self).status, ..*old(self) })
                }
            }),
    {
        let len = self.cells.len();
        let mut text = text;
        let cs = chars_of(text.as_str());
        if cs.len() > 0 && cs[cs.len() - 1] == '\n' {
            let mut v = cs;
            v.pop();
            text = crate::chars::string_of(v.as_slice());
        }
        if text != self.cells[idx].source {
            self.cells[idx].source = text;
            self.dirty = true;
        }
        let mut st = String::from_str("edited cell ");
        st.append(usize_decimal(idx + 1).as_str());
        st.append(" in ");
        st.append(editor);
        self.status = st;
    }

    /// The full-screen editor returned `text` for the selected cell: a different source
    /// replaces it and marks the notebook changed.
    pub fn apply_full_edit(&mut self, text: String, editor: &str)
        requires
            old(self).wf(),
        ensures
            ({
                let sel = old(self).selected as int;
                let c = old(self).cells@[sel];
                &&& final(self).status@ == "edited in "@ + editor@
                &&& if text@ != c.source@ {
                    &&& final(self).cells@ == old(self).cells@.update(
                        sel,
                        Cell { source: text, ..c },
                    )
                    &&& *final(self) == (App {
                        cells: final(self).cells,
                        status: final(self).status,
                        dirty: true,
                        ..*old(self)
                    })
                } else {
                    *final(self) == (App { status: final(self).status, ..*old(self) })
                }
            }),
    {
        let sel = self.selected;
        if text != self.cells[sel].source {
            let ghost t = text;
            self.cells[sel].source = text;
            self.dirty = true;
            assert(self.cells@ =~= old(self).cells@.update(
                sel as int,
                Cell { source: t, ..old(self).cells@[sel as int] },
            ));
        }
        let mut st = String::from_str("edited in ");
        st.append(editor);
        self.status = st;
    }
}

/// `a` capped at `cap`.
pub open spec fn capped(a: int, cap: int) -> int {
    if a < cap {
        a
    } else {
        cap
    }
}

/// Rows of the first `k` blocks of `a` followed by `b`, capped at 65536.
fn rows_capped(a: &Vec<OutputView>, b: &Vec<OutputView>) -> (r: u64)
    ensures
        r == capped(rows_sum(a@ + b@, (a@ + b@).len() as int), 65536),
{
    let ghost all = a@ + b@;
    let mut total: u64 = 0;
    let n = a.len();
    for i in 0..n
        invariant
            n == a@.len(),
            all == a@ + b@,
            total == capped(rows_sum(all, i as int), 65536),
    {
        assert(all[i as int] == a@[i as int]);
        let r = a[i].rows() as u64;
        total = if total + r < 65536 {
            total + r
        } else {
            65536
        };
    }
    let m = b.len();
    for j in 0..m
        invariant
            n == a@.len(),
            m == b@.len(),
            all == a@ + b@,
            total == capped(rows_sum(all, n + j), 65536),
    {
        assert(all[n + j] == b@[j as int]);
        let r = b[j].rows() as u64;
        total = if total + r < 65536 {
            total + r
        } else {
            65536
        };
    }
    total
}

impl App {
    /// Whether cell `idx`'s rows fit the `u16` they are counted in (`cell_fits`).
    pub fn cell_fits_check(&self, idx: usize) -> (b: bool)
        requires
            idx < self.cells@.len(),
        ensures
            b == self.cell_fits(idx as int),
    {
        let cell = &self.cells[idx];
        let total = rows_capped(&cell.outputs, &Vec::new());
        assert(cell.outputs@ + Seq::<OutputView>::empty() =~= cell.outputs@);
        if total > 65535 {
            return false;
        }
        let (_, out_rows, truncated) = cell.visible_output_layout();
        let visible: u64 = if out_rows > cell.output_scroll {
            (out_rows - cell.output_scroll) as u64
        } else {
            0
        };
        let out = visible + if truncated {
            1
        } else {
            0
        };
        let src: u64 = match &self.edit {
            Some(e) if e.idx == idx => e.rows as u64,
            _ => if cell.markdown {
                markdown_rows(cell.source.as_str()) as u64 + 2
            } else {
                cell.source_rows() as u64 + 2
            },
        };
        1 + src + out <= 65535
    }

    /// The walk from view start `t`: whether its sums stay within `u16` (`walk_ok`), and
    /// where it stops: the cells before that end within `area`, the one there does not.
    fn walk_check(&self, t: usize, area: u16) -> (r: (bool, usize))
        requires
            t < self.cells@.len(),
        ensures
            r.0 == self.walk_ok(t as int, 0, area as int),
            r.0 ==> {
                &&& t <= r.1 <= self.cells@.len()
                &&& forall|k: int| t <= k < r.1 ==> #[trigger] self.fits_from(t as int, k, area as int)
                &&& r.1 < self.cells@.len() ==> !self.fits_from(t as int, r.1 as int, area as int)
            },
    {
        let n = self.cells.len();
        let mut y: u64 = 0;
        let mut idx = t;
        assert(self.span(t as int, t as int) == 0);
        while idx < n
            invariant
                n == self.cells@.len(),
                t <= idx <= n,
                y == self.span(t as int, idx as int),
                y <= 65535,
                self.walk_ok(t as int, 0, area as int) == self.walk_ok(idx as int, y as int, area as int),
                forall|k: int| t <= k < idx ==> #[trigger] self.fits_from(t as int, k, area as int),
            decreases n - idx,
        {
            if !self.cell_fits_check(idx) {
                return (false, idx);
            }
            let h = self.cell_height(idx) as u64;
            assert(self.span(t as int, idx + 1) == self.span(t as int, idx as int) + self.height(idx as int) + 1);
            if y + h > 65535 {
                return (false, idx);
            }
            if y + h > area as u64 {
                return (true, idx);
            }
            if y + h + 1 > 65535 {
                return (false, idx);
            }
            y = y + h + 1;
            idx = idx + 1;
        }
        (true, idx)
    }

    /// Whether the rows `ensure_visible` sums for an area of `area` rows fit the `u16`
    /// they are summed in (`visible_sums_fit`).
    pub fn visible_check(&self, area: u16) -> (b: bool)
        requires
            self.wf(),
        ensures
            b == self.visible_sums_fit(area as int),
    {
        let o = self.scroll_top;
        let sel = self.selected;
        if sel < o {
            return true;
        }
        proof {
            lemma_heights_nonneg(self);
        }
        if self.cells[sel].output_expanded && self.cells[sel].running {
            assert(self.visible_sums_fit(area as int) == ((forall|k: int|
                o <= k <= sel ==> #[trigger] self.cell_fits(k)) && self.span(o as int, sel + 1)
                <= u16::MAX));
            let n = self.cells.len();
            let mut y: u64 = 0;
            let mut i = o;
            assert(self.span(o as int, o as int) == 0);
            while i <= sel
                invariant
                    o <= i <= sel + 1,
                    sel < n,
                    n == self.cells@.len(),
                    y == self.span(o as int, i as int),
                    y <= 65535,
                    forall|k: int| o <= k < i ==> #[trigger] self.cell_fits(k),
                    self.visible_sums_fit(area as int) == ((forall|k: int|
                        o <= k <= sel ==> #[trigger] self.cell_fits(k)) && self.span(o as int, sel + 1)
                        <= u16::MAX),
                decreases sel + 1 - i,
            {
                if !self.cell_fits_check(i) {
                    assert(!self.cell_fits(i as int));
                    return false;
                }
                let h = self.cell_height(i) as u64;
                assert(self.span(o as int, i + 1) == self.span(o as int, i as int) + self.height(i as int) + 1);
                if y + h + 1 > 65535 {
                    proof {
                        lemma_span_split(self, o as int, i + 1, sel + 1);
                        lemma_span_nonneg(self, i + 1, sel + 1);
                        assert(self.span(o as int, sel + 1) > u16::MAX);
                    }
                    return false;
                }
                y = y + h + 1;
                i = i + 1;
            }
            return true;
        }
        assert(self.visible_sums_fit(area as int) == self.walks_ok(o as int, sel as int, area as int));
        let mut t = o;
        loop
            invariant
                o <= t <= sel,
                sel < self.cells@.len(),
                sel == self.selected,
                o == self.scroll_top,
                self.walks_ok(o as int, sel as int, area as int) == self.walks_ok(t as int, sel as int, area as int),
                self.visible_sums_fit(area as int) == self.walks_ok(o as int, sel as int, area as int),
            decreases sel - t,
        {
            let (ok, end) = self.walk_check(t, area);
            if !ok {
                assert(!self.walks_ok(t as int, sel as int, area as int));
                return false;
            }
            let fits = sel < end;
            proof {
                if !fits && end < self.cells@.len() {
                    lemma_fit_mono(self, t as int, end as int, sel as int);
                }
            }
            if t < sel && !fits {
                t = t + 1;
            } else {
                return true;
            }
        }
    }

    /// Whether a stream chunk can be merged into the running cell's output without its
    /// rows passing `u16::MAX` when the output is expanded (what `on_stream` needs).
    pub fn stream_fits(&self, name: &str, text: &str) -> (b: bool)
        requires
            self.running_cell matches Some(rc) && rc.idx < self.cells@.len(),
        ensures
            b == ({
                let c = self.cells@[self.running_cell->0.idx as int];
                c.output_expanded ==> rows_after_stream(
                    c.outputs@,
                    text@,
                    stream_color(self.cfg, name@),
                ) <= u16::MAX
            }),
    {
        let idx = match &self.running_cell {
            Some(rc) => rc.idx,
            None => 0,
        };
        let cell = &self.cells[idx];
        if !cell.output_expanded {
            return true;
        }
        let color = if contains_str(name, "Stderr") {
            self.cfg.theme.error
        } else {
            self.cfg.theme.inactive
        };
        let n = cell.outputs.len();
        let merge = n > 0 && match &cell.outputs[n - 1] {
            OutputView::Text { color: c, .. } => *c == color,
            _ => false,
        };
        let mut before: Vec<OutputView> = Vec::new();
        let keep = if merge {
            n - 1
        } else {
            n
        };
        for i in 0..keep
            invariant
                keep <= n,
                n == cell.outputs@.len(),
                before@ == cell.outputs@.take(i as int),
        {
            let o = match &cell.outputs[i] {
                OutputView::Text { text: t, color: c } => OutputView::Text {
                    text: t.clone(),
                    color: *c,
                },
                OutputView::Image { image, rows } => OutputView::Image { image: *image, rows: *rows },
            };
            proof {
                assert(o == cell.outputs@[i as int]);
            }
            before.push(o);
            assert(before@ =~= cell.outputs@.take(i + 1));
        }
        let mut buf = if merge {
            match &cell.outputs[n - 1] {
                OutputView::Text { text: t, .. } => t.clone(),
                _ => String::new(),
            }
        } else {
            String::new()
        };
        apply_cr(&mut buf, text);
        let merged = vec![OutputView::Text { text: buf, color }];
        let total = rows_capped(&before, &merged);
        proof {
            let all = before@ + merged@;
            assert(all.drop_last() =~= before@);
            lemma_rows_sum_prefix(all, cell.outputs@, keep as int);
            assert(rows_sum(all, all.len() as int) == rows_sum(all, keep as int) + all[keep as int].spec_rows());
        }
        total <= 65535
    }

    /// Whether rendered blocks can be appended to the running cell's output without its
    /// rows passing `u16::MAX` when the output is expanded (what `on_views` needs).
    pub fn views_fit(&self, views: &Vec<OutputView>) -> (b: bool)
        requires
            self.running_cell matches Some(rc) && rc.idx < self.cells@.len(),
        ensures
            b == ({
                let c = self.cells@[self.running_cell->0.idx as int];
                c.output_expanded ==> rows_sum(c.outputs@ + views@, (c.outputs@ + views@).len() as int)
                    <= u16::MAX
            }),
    {
        let idx = match &self.running_cell {
            Some(rc) => rc.idx,
            None => 0,
        };
        let cell = &self.cells[idx];
        if !cell.output_expanded {
            return true;
        }
        rows_capped(&cell.outputs, views) <= 65535
    }
}

/// `dd` deletes the selected cell: from no pending `d`, two presses of the delete key
/// remove it (unless it is the only cell), mark the notebook changed and leave no `d`
/// pending.
pub proof fn lemma_dd_deletes(a: App, b: App, c: App)
    requires
        a.wf(),
        !a.pending_d,
        a.cells@.len() > 1,
        App::delete_pressed(a, b),
        App::delete_pressed(b, c),
    ensures
        c.cells@ == a.cells@.remove(a.selected as int),
        c.dirty,
        !c.pending_d,
        c.wf(),
{
}

/// A new cell deleted at once leaves the cells as they were: `o` then `dd` (from no
/// pending `d`) gives back the same cells, marked changed.
pub proof fn lemma_new_then_delete(a: App, b: App, c: App, d: App)
    requires
        a.wf(),
        !a.pending_d,
        App::inserted(a, b, a.selected + 1, a.selected + 1),
        App::delete_pressed(b, c),
        App::delete_pressed(c, d),
    ensures
        d.cells@ == a.cells@,
        d.dirty,
        d.wf(),
{
    assert(b.cells@.len() == a.cells@.len() + 1);
    assert(d.cells@ =~= a.cells@);
}

/// Pressing `x` twice restores the cell's expansion and leaves every other cell and the
/// rest of the notebook as they were; the output ends scrolled to the top when it ends
/// collapsed.
pub proof fn lemma_toggle_twice(a: App, b: App, c: App)
    requires
        a.wf(),
        App::toggled(a, b),
        App::toggled(b, c),
    ensures
        c.cells@.len() == a.cells@.len(),
        c.cells@[a.selected as int].output_expanded == a.cells@[a.selected as int].output_expanded,
        !c.cells@[a.selected as int].output_expanded ==> c.cells@[a.selected as int].output_scroll
            == 0,
        forall|i: int| 0 <= i < a.cells@.len() && i != a.selected ==> c.cells@[i] == a.cells@[i],
        c == (App { cells: c.cells, ..a }),
{
}

/// Running all (or all up to a cell) queues exactly the code cells, in order: each
/// queued cell is a code cell, the indices increase, and every code cell among the
/// first `end` is queued.
pub proof fn lemma_code_cells_exact(cells: Seq<Cell>, end: int)
    requires
        0 <= end <= cells.len(),
        cells.len() <= usize::MAX,
    ensures
        forall|k: int| 0 <= k < code_cells(cells, end).len() ==> {
            let i = #[trigger] code_cells(cells, end)[k] as int;
            0 <= i < end && !cells[i].markdown
        },
        forall|k: int, l: int|
            0 <= k < l < code_cells(cells, end).len() ==> code_cells(cells, end)[k] < code_cells(
                cells,
                end,
            )[l],
        forall|i: int| 0 <= i < end && !cells[i].markdown ==> code_cells(cells, end).contains(i as usize),
    decreases end,
{
    if end > 0 {
        lemma_code_cells_exact(cells, end - 1);
        let r = code_cells(cells, end - 1);
        if !cells[end - 1].markdown {
            let q = r.push((end - 1) as usize);
            assert(code_cells(cells, end) == q);
            assert forall|k: int| 0 <= k < q.len() implies {
                let i = #[trigger] q[k] as int;
                0 <= i < end && !cells[i].markdown
            } by {
                if k < r.len() {
                    assert(q[k] == r[k]);
                }
            }
            assert forall|k: int, l: int| 0 <= k < l < q.len() implies q[k] < q[l] by {
                assert(q[k] == r[k]);
                assert(0 <= r[k] < end - 1);
                if l < r.len() {
                    assert(q[l] == r[l]);
                }
            }
            assert forall|i: int| 0 <= i < end && !cells[i].markdown implies q.contains(i as usize) by {
                if i < end - 1 {
                    let k = choose|k: int| 0 <= k < r.len() && r[k] == i as usize;
                    assert(q[k] == i as usize);
                } else {
                    assert(q[r.len() as int] == i as usize);
                }
            }
        }
    }
}

/// A run, once sent and finished, leaves its cell numbered with the next execution
/// count and no longer running, the other cells untouched, and no run in progress.
pub proof fn lemma_run_lifecycle(a: App, b: App, c: App, d: App, idx: int, start: RunStart, msg_id: String)
    requires
        0 <= idx < a.cells@.len(),
        a.running_cell is None,
        App::began_run(a, b, idx, Some(start)),
        App::sent(b, c, start, msg_id),
        App::idled(c, d),
    ensures
        d.exec_counter == a.exec_counter + 1,
        d.cells@.len() == a.cells@.len(),
        d.cells@[idx].exec_count == Some((a.exec_counter + 1) as usize),
        !d.cells@[idx].running,
        d.cells@[idx].outputs@.len() == 0,
        d.cells@[idx].source == a.cells@[idx].source,
        forall|i: int| 0 <= i < a.cells@.len() && i != idx ==> d.cells@[i] == a.cells@[i],
        d.running_cell is None,
        d.status@ == "cell ["@ + decimal((a.exec_counter + 1) as nat) + "] done"@,
{
}

} // verus!
