//! Where things go on screen: which cells are drawn in the notebook body and at what
//! rows, and, within a cell, its header label, the source box, the output blocks with
//! the rows scrolled off each, and the "more lines" and scroll-position markers.
//! The front end paints what these plans place.

use vstd::prelude::*;
use crate::chars::chars_of;
use crate::config::{decimal, usize_decimal};
use crate::layout::{Cell, OutputView, Rect};
use crate::notebook::App;

verus! {

/// A cell drawn in the body: its index, its top row and height on screen, and how many
/// of its rows are cut off above the body.
#[derive(Clone, Copy, Debug, PartialEq, Eq, Structural)]
pub struct Placement {
    pub idx: usize,
    pub y: u16,
    pub height: u16,
    pub clip_top: u16,
}

/// The cells drawn from cell `idx` on, when its top lies at row `y` (negative when
/// scrolled above the body) and the body ends at row `bottom`. A cell is drawn when its
/// top is above the bottom and some of it shows; a blank row separates cells.
pub open spec fn placements_from(app: &App, idx: int, y: int, bottom: int) -> Seq<Placement>
    decreases app.cells@.len() - idx,
{
    if idx < 0 || idx >= app.cells@.len() || y >= bottom {
        Seq::empty()
    } else {
        let h = app.height(idx);
        let rest = placements_from(app, idx + 1, y + h + 1, bottom);
        let cell_bottom = y + h;
        let draw_y = if y > 0 {
            y
        } else {
            0
        };
        let draw_h = (if cell_bottom < bottom {
            cell_bottom
        } else {
            bottom
        }) - draw_y;
        if cell_bottom > 0 && draw_h > 0 {
            seq![
                Placement {
                    idx: idx as usize,
                    y: draw_y as u16,
                    height: draw_h as u16,
                    clip_top: (if y < 0 {
                        -y
                    } else {
                        0
                    }) as u16,
                },
            ] + rest
        } else {
            rest
        }
    }
}

/// The cells to draw in a body whose last row is `bottom - 1`, starting with the first
/// visible cell scrolled up by `scroll_offset` rows.
pub open spec fn body_placements(app: &App, bottom: int) -> Seq<Placement> {
    placements_from(app, app.scroll_top as int, -(app.scroll_offset as int), bottom)
}

/// The cells whose heights are taken while laying out from cell `idx` at row `y` fit
/// the `u16` their heights are counted in: each cell reached while the rows above it
/// stay above the bottom.
pub open spec fn placements_fit(app: &App, idx: int, y: int, bottom: int) -> bool
    decreases app.cells@.len() - idx,
{
    if idx < 0 || idx >= app.cells@.len() || y >= bottom {
        true
    } else {
        app.cell_fits(idx) && placements_fit(app, idx + 1, y + app.height(idx) + 1, bottom)
    }
}

/// The heights taken while laying out the body fit their `u16`.
pub open spec fn body_fits(app: &App, bottom: int) -> bool {
    placements_fit(app, app.scroll_top as int, -(app.scroll_offset as int), bottom)
}

/// Whether the heights taken while laying out the body fit their `u16` (`body_fits`).
pub fn body_fits_check(app: &App, bottom: u16) -> (b: bool)
    ensures
        b == body_fits(app, bottom as int),
{
    let n = app.cells.len();
    let mut y: i64 = 0 - (app.scroll_offset as i64);
    let mut idx = app.scroll_top;
    while idx < n && y < bottom as i64
        invariant
            n == app.cells@.len(),
            -65536 <= y <= 65536 * 2,
            body_fits(app, bottom as int) == placements_fit(app, idx as int, y as int, bottom as int),
        decreases n - idx,
    {
        if !app.cell_fits_check(idx) {
            return false;
        }
        let h = app.cell_height(idx) as i64;
        y = y + h + 1;
        idx = idx + 1;
    }
    true
}

/// Lays out the notebook body: which cells show, where, and how much of each is cut off.
pub fn cell_placements(app: &App, bottom: u16) -> (ps: Vec<Placement>)
    requires
        body_fits(app, bottom as int),
    ensures
        ps@ == body_placements(app, bottom as int),
{
    let n = app.cells.len();
    let mut ps: Vec<Placement> = Vec::new();
    let mut y: i64 = 0 - (app.scroll_offset as i64);
    let mut idx = app.scroll_top;
    while idx < n && y < bottom as i64
        invariant
            n == app.cells@.len(),
            placements_fit(app, idx as int, y as int, bottom as int),
            -65536 <= y <= 65536 * 2,
            ps@ + placements_from(app, idx as int, y as int, bottom as int) == body_placements(
                app,
                bottom as int,
            ),
        decreases n - idx,
    {
        assert(app.cell_fits(idx as int));
        let h = app.cell_height(idx) as i64;
        let cell_bottom = y + h;
        let draw_y = if y > 0 {
            y
        } else {
            0
        };
        let lower = if cell_bottom < bottom as i64 {
            cell_bottom
        } else {
            bottom as i64
        };
        let draw_h = lower - draw_y;
        let ghost before = ps@;
        if cell_bottom > 0 && draw_h > 0 {
            let clip = if y < 0 {
                0 - y
            } else {
                0
            };
            ps.push(
                Placement { idx, y: draw_y as u16, height: draw_h as u16, clip_top: clip as u16 },
            );
            assert(ps@ + placements_from(app, idx + 1, y + h + 1, bottom as int) =~= before
                + placements_from(app, idx as int, y as int, bottom as int));
        }
        y = y + h + 1;
        idx = idx + 1;
    }
    assert(placements_from(app, idx as int, y as int, bottom as int) =~= Seq::empty());
    ps
}

#[verifier::spinoff_prover]
proof fn lemma_placements_ordered(app: &App, idx: int, y: int, bottom: int)
    requires
        0 <= bottom <= u16::MAX,
        0 <= idx,
        app.cells@.len() <= usize::MAX,
    ensures
        ({
            let ps = placements_from(app, idx, y, bottom);
            &&& forall|k: int|
                0 <= k < ps.len() ==> {
                    &&& (if y > 0 {
                        y
                    } else {
                        0
                    }) <= #[trigger] ps[k].y
                    &&& ps[k].y + ps[k].height <= bottom
                    &&& ps[k].height > 0
                    &&& idx <= ps[k].idx < app.cells@.len()
                }
            &&& forall|k: int, l: int|
                0 <= k < l < ps.len() ==> #[trigger] ps[k].y + ps[k].height < #[trigger] ps[l].y
                    && ps[k].idx < ps[l].idx
        }),
    decreases app.cells@.len() - idx,
{
    if !(idx >= app.cells@.len() || y >= bottom) {
        crate::notebook::lemma_heights_nonneg(app);
        let h = app.height(idx);
        assert(h >= 1);
        lemma_placements_ordered(app, idx + 1, y + h + 1, bottom);
        let rest = placements_from(app, idx + 1, y + h + 1, bottom);
        let ps = placements_from(app, idx, y, bottom);
        let cell_bottom = y + h;
        let draw_y = if y > 0 {
            y
        } else {
            0
        };
        let draw_h = (if cell_bottom < bottom {
            cell_bottom
        } else {
            bottom
        }) - draw_y;
        if cell_bottom > 0 && draw_h > 0 {
            assert(ps == seq![
                Placement {
                    idx: idx as usize,
                    y: draw_y as u16,
                    height: draw_h as u16,
                    clip_top: (if y < 0 {
                        -y
                    } else {
                        0
                    }) as u16,
                },
            ] + rest);
            assert forall|k: int| 0 < k < ps.len() implies ps[k] == rest[k - 1] by {}
            assert(ps[0].y == draw_y && ps[0].height == draw_h && ps[0].idx == idx);
            assert forall|k: int, l: int|
                0 <= k < l < ps.len() implies #[trigger] ps[k].y + ps[k].height < #[trigger] ps[l].y
                && ps[k].idx < ps[l].idx by {
                assert(ps[l] == rest[l - 1]);
                if k > 0 {
                    assert(ps[k] == rest[k - 1]);
                }
            }
        }
    }
}

/// The cells drawn lie within the body, from top to bottom in notebook order, each at
/// least one row tall and separated from the next by at least one row.
pub proof fn lemma_placements_in_body(app: &App, bottom: int)
    requires
        0 <= bottom <= u16::MAX,
        app.cells@.len() <= usize::MAX,
    ensures
        ({
            let ps = body_placements(app, bottom);
            &&& forall|k: int|
                0 <= k < ps.len() ==> {
                    &&& #[trigger] ps[k].y + ps[k].height <= bottom
                    &&& ps[k].height > 0
                    &&& app.scroll_top <= ps[k].idx < app.cells@.len()
                }
            &&& forall|k: int, l: int|
                0 <= k < l < ps.len() ==> #[trigger] ps[k].y + ps[k].height < #[trigger] ps[l].y
                    && ps[k].idx < ps[l].idx
        }),
{
    lemma_placements_ordered(app, app.scroll_top as int, -(app.scroll_offset as int), bottom);
}

proof fn lemma_cell_drawn_from(app: &App, t: int, s: int, y: int, bottom: int)
    requires
        0 <= t <= s < app.cells@.len(),
        app.cells@.len() <= usize::MAX,
        0 <= y,
        y + app.span(t, s) + app.height(s) <= bottom <= u16::MAX,
    ensures
        placements_from(app, t, y, bottom).contains(
            Placement {
                idx: s as usize,
                y: (y + app.span(t, s)) as u16,
                height: app.height(s) as u16,
                clip_top: 0,
            },
        ),
    decreases s - t,
{
    crate::notebook::lemma_heights_nonneg(app);
    let h = app.height(t);
    let ps = placements_from(app, t, y, bottom);
    let rest = placements_from(app, t + 1, y + h + 1, bottom);
    assert(app.span(t, t + 1) == h + 1) by {
        assert(app.span(t, t) == 0);
    }
    let first = Placement { idx: t as usize, y: y as u16, height: h as u16, clip_top: 0 };
    if t == s {
        assert(app.span(t, s) == 0);
        assert(ps == seq![first] + rest);
        assert(ps[0] == first);
    } else {
        crate::notebook::lemma_span_split(app, t, t + 1, s);
        crate::notebook::lemma_span_nonneg(app, t + 1, s);
        lemma_cell_drawn_from(app, t + 1, s, y + h + 1, bottom);
        let target = Placement {
            idx: s as usize,
            y: (y + app.span(t, s)) as u16,
            height: app.height(s) as u16,
            clip_top: 0,
        };
        assert(y + h + 1 + app.span(t + 1, s) == y + app.span(t, s));
        let k = choose|k: int| 0 <= k < rest.len() && rest[k] == target;
        assert(ps == seq![first] + rest);
        assert(ps[k + 1] == target);
    }
}

/// A selected cell that ends within the body when the view starts at the first visible
/// cell with no rows scrolled past (what `ensure_visible` brings about) is drawn whole,
/// at the rows the cells above it take.
pub proof fn lemma_selected_drawn(app: &App, bottom: int)
    requires
        app.wf(),
        app.cells@.len() <= usize::MAX,
        0 <= bottom <= u16::MAX,
        app.scroll_offset == 0,
        app.scroll_top <= app.selected,
        app.fits_from(app.scroll_top as int, app.selected as int, bottom),
    ensures
        body_placements(app, bottom).contains(
            Placement {
                idx: app.selected,
                y: app.span(app.scroll_top as int, app.selected as int) as u16,
                height: app.height(app.selected as int) as u16,
                clip_top: 0,
            },
        ),
{
    lemma_cell_drawn_from(app, app.scroll_top as int, app.selected as int, 0, bottom);
}

/// How a cell's source box is framed.
#[derive(Clone, Copy, Debug, PartialEq, Eq, Structural)]
pub enum Border {
    /// The cell is being edited live.
    Editing,
    /// The cell is selected.
    Selected,
    Inactive,
}

/// An output block drawn at row `y`, `height` rows tall, with its first `skip` rows
/// scrolled off.
#[derive(Clone, Copy, Debug, PartialEq, Eq, Structural)]
pub struct OutputPlace {
    pub block: usize,
    pub y: u16,
    pub height: u16,
    pub skip: u16,
}

/// What to draw of one cell.
#[derive(Debug, PartialEq)]
pub struct CellPlan {
    /// The header label, when the header row is not cut off.
    pub header: Option<String>,
    /// The header is highlighted.
    pub selected: bool,
    pub border: Border,
    /// Top row and height of the source box, and the rows of it cut off above.
    pub src_y: u16,
    pub src_height: u16,
    pub src_clip: u16,
    pub outputs: Vec<OutputPlace>,
    /// Row and text of the "more lines" marker of a truncated output.
    pub more_lines: Option<(u16, String)>,
    /// Column, row and text of the scroll-position marker.
    pub scroll_marker: Option<(u16, u16, String)>,
}

/// The header label: `Markdown:` or `In [n]:`, with `*` while running and a blank
/// before the first run.
pub open spec fn cell_label(cell: &Cell) -> Seq<char> {
    if cell.markdown {
        "Markdown:"@
    } else {
        let marker = if cell.running {
            "*"@
        } else {
            match cell.exec_count {
                Some(c) => decimal(c as nat),
                None => " "@,
            }
        };
        "In ["@ + marker + "]:"@
    }
}

/// `a - b`, or 0 when `b` is larger.
pub open spec fn sat_sub(a: int, b: int) -> int {
    if a > b {
        a - b
    } else {
        0
    }
}

pub open spec fn min_int(a: int, b: int) -> int {
    if a < b {
        a
    } else {
        b
    }
}

/// The output blocks drawn from block `i` on (of the first `k`), starting at row `oy`
/// above `bottom`, when `skipped` of the `scroll` rows to scroll past are behind; with
/// the row below the last one drawn.
pub open spec fn output_walk(
    outs: Seq<OutputView>,
    i: int,
    k: int,
    oy: int,
    bottom: int,
    skipped: int,
    scroll: int,
) -> (Seq<OutputPlace>, int)
    decreases k - i,
{
    if i < 0 || i >= k || i >= outs.len() || oy >= bottom {
        (Seq::empty(), oy)
    } else {
        let h = outs[i].spec_rows();
        if skipped + h <= scroll {
            output_walk(outs, i + 1, k, oy, bottom, skipped + h, scroll)
        } else {
            let skip = sat_sub(scroll, skipped);
            let dh = min_int(h - skip, bottom - oy);
            let rest = output_walk(outs, i + 1, k, oy + dh, bottom, scroll, scroll);
            (
                seq![
                    OutputPlace {
                        block: i as usize,
                        y: oy as u16,
                        height: dh as u16,
                        skip: skip as u16,
                    },
                ] + rest.0,
                rest.1,
            )
        }
    }
}

proof fn lemma_output_walk_contiguous(
    outs: Seq<OutputView>,
    i: int,
    k: int,
    oy: int,
    bottom: int,
    skipped: int,
    scroll: int,
)
    requires
        0 <= i,
        0 <= skipped <= scroll,
        0 <= oy <= bottom <= u16::MAX,
        k <= outs.len() <= usize::MAX,
    ensures
        ({
            let (ps, end) = output_walk(outs, i, k, oy, bottom, skipped, scroll);
            &&& oy <= end <= bottom
            &&& ps.len() > 0 ==> ps[0].y == oy && ps.last().y + ps.last().height == end
            &&& ps.len() == 0 ==> end == oy
            &&& forall|j: int| 0 <= j < ps.len() - 1 ==> #[trigger] ps[j].y + ps[j].height == ps[j + 1].y
            &&& forall|j: int|
                0 <= j < ps.len() ==> {
                    &&& #[trigger] ps[j].height >= 1
                    &&& i <= ps[j].block < k
                    &&& ps[j].skip < outs[ps[j].block as int].spec_rows()
                }
        }),
    decreases k - i,
{
    if !(i >= k || i >= outs.len() || oy >= bottom) {
        let h = outs[i].spec_rows();
        if skipped + h <= scroll {
            lemma_output_walk_contiguous(outs, i + 1, k, oy, bottom, skipped + h, scroll);
        } else {
            let skip = sat_sub(scroll, skipped);
            let dh = min_int(h - skip, bottom - oy);
            lemma_output_walk_contiguous(outs, i + 1, k, oy + dh, bottom, scroll, scroll);
            let rest = output_walk(outs, i + 1, k, oy + dh, bottom, scroll, scroll);
            let ps = output_walk(outs, i, k, oy, bottom, skipped, scroll).0;
            let first = OutputPlace { block: i as usize, y: oy as u16, height: dh as u16, skip: skip as u16 };
            assert(ps == seq![first] + rest.0);
            assert forall|j: int| 0 < j < ps.len() implies ps[j] == rest.0[j - 1] by {}
            assert forall|j: int| 0 <= j < ps.len() - 1 implies #[trigger] ps[j].y + ps[j].height == ps[j + 1].y by {
                assert(ps[j + 1] == rest.0[j]);
                if j > 0 {
                    assert(ps[j] == rest.0[j - 1]);
                }
            }
            if rest.0.len() > 0 {
                assert(ps.last() == rest.0.last());
            }
        }
    }
}

/// In an area at least one row tall, the output blocks of a cell are drawn one right
/// under the other, starting just below its source box, each at least one row tall and
/// showing part of its block, and they end within the area.
pub proof fn lemma_plan_outputs_stacked(app: &App, idx: int, area: Rect, clip_top: u16)
    requires
        0 <= idx < app.cells@.len(),
        app.cells@[idx].outputs@.len() <= usize::MAX,
        area.y + area.height <= u16::MAX,
        area.height >= 1,
    ensures
        ({
            let cell = app.cells@[idx];
            let top = App::src_top(area, clip_top) + app.src_shown(idx, area, clip_top);
            let (ps, end) = app.plan_outputs(idx, area, clip_top);
            &&& end <= area.y + area.height
            &&& ps.len() > 0 ==> ps[0].y == top && ps.last().y + ps.last().height == end
            &&& forall|j: int| 0 <= j < ps.len() - 1 ==> #[trigger] ps[j].y + ps[j].height == ps[j + 1].y
            &&& forall|j: int|
                0 <= j < ps.len() ==> {
                    &&& #[trigger] ps[j].height >= 1
                    &&& ps[j].block < cell.spec_layout().0
                    &&& ps[j].skip < cell.outputs@[ps[j].block as int].spec_rows()
                }
        }),
{
    let cell = app.cells@[idx];
    cell.lemma_layout_bounds();
    let top = App::src_top(area, clip_top) + app.src_shown(idx, area, clip_top);
    let bottom = area.y + area.height;
    assert(top <= bottom);
    {
        lemma_output_walk_contiguous(
            cell.outputs@,
            0,
            cell.spec_layout().0,
            top,
            bottom,
            0,
            app.out_scroll(idx),
        );
    }
}

impl App {
    /// Whether the header row of cell `idx` is drawn (1) or cut off (0).
    pub open spec fn header_rows(clip_top: u16) -> int {
        if clip_top == 0 {
            1
        } else {
            0
        }
    }

    /// The top row of the source box.
    pub open spec fn src_top(area: Rect, clip_top: u16) -> int {
        area.y + Self::header_rows(clip_top)
    }

    /// The height of the source box on screen: its rows less those cut off above
    /// (the header takes the first cut row), within what the area leaves.
    pub open spec fn src_shown(&self, idx: int, area: Rect, clip_top: u16) -> int {
        let src_clip = sat_sub(clip_top as int, 1);
        min_int(
            sat_sub(self.src_rows(idx), src_clip),
            sat_sub(area.height as int, Self::header_rows(clip_top)),
        )
    }

    /// Output rows scrolled past: the cell's scroll, at most the last visible row.
    pub open spec fn out_scroll(&self, idx: int) -> int {
        let cell = self.cells@[idx];
        min_int(cell.output_scroll as int, sat_sub(cell.spec_layout().1, 1))
    }

    /// The plan of cell `idx` drawn in `area` with `clip_top` rows cut off above.
    pub open spec fn plan_outputs(&self, idx: int, area: Rect, clip_top: u16) -> (
        Seq<OutputPlace>,
        int,
    ) {
        let cell = self.cells@[idx];
        output_walk(
            cell.outputs@,
            0,
            cell.spec_layout().0,
            Self::src_top(area, clip_top) + self.src_shown(idx, area, clip_top),
            area.y + area.height,
            0,
            self.out_scroll(idx),
        )
    }

    /// The "more lines" marker: below the outputs when some are hidden and a row is left.
    pub open spec fn plan_more_lines(&self, idx: int, area: Rect, clip_top: u16) -> Option<
        (u16, Seq<char>),
    > {
        let cell = self.cells@[idx];
        let oy = self.plan_outputs(idx, area, clip_top).1;
        if cell.spec_layout().2 && oy < area.y + area.height {
            Some(
                (
                    oy as u16,
                    "\u{25bc} "@ + decimal((cell.out_total() - cell.spec_layout().1) as nat)
                        + " more lines (x to expand)"@,
                ),
            )
        } else {
            None
        }
    }

    /// The scroll marker `[shown/total]`, right-aligned on the first output row, when
    /// the outputs are scrolled and at least one row of them was drawn.
    pub open spec fn plan_scroll_marker(&self, idx: int, area: Rect, clip_top: u16) -> Option<
        (u16, u16, Seq<char>),
    > {
        let cell = self.cells@[idx];
        let top = Self::src_top(area, clip_top) + self.src_shown(idx, area, clip_top);
        let bottom = area.y + area.height;
        let oy = self.plan_outputs(idx, area, clip_top).1;
        let scroll = self.out_scroll(idx);
        let out_rows = cell.spec_layout().1;
        if scroll > 0 && oy <= bottom && oy > top {
            let pos = "["@ + decimal((scroll + min_int(sat_sub(bottom, top), out_rows)) as nat)
                + "/"@ + decimal(out_rows as nat) + "]"@;
            Some((sat_sub(area.x + area.width, pos.len() + 1int) as u16, top as u16, pos))
        } else {
            None
        }
    }
}

/// The output walk from block `i` on, as a loop over the blocks.
fn walk_outputs(
    outs: &Vec<OutputView>,
    k: usize,
    oy0: u16,
    bottom: u16,
    scroll: u16,
) -> (r: (Vec<OutputPlace>, u16))
    requires
        k <= outs@.len(),
        oy0 <= bottom,
    ensures
        r.0@ == output_walk(outs@, 0, k as int, oy0 as int, bottom as int, 0, scroll as int).0,
        r.1 == output_walk(outs@, 0, k as int, oy0 as int, bottom as int, 0, scroll as int).1,
{
    let ghost total = output_walk(outs@, 0, k as int, oy0 as int, bottom as int, 0, scroll as int);
    let mut places: Vec<OutputPlace> = Vec::new();
    let mut oy: u16 = oy0;
    let mut skipped: u32 = 0;
    let mut i: usize = 0;
    while i < k && oy < bottom
        invariant
            k <= outs@.len(),
            i <= k,
            oy <= bottom,
            skipped <= scroll,
            places@ + output_walk(outs@, i as int, k as int, oy as int, bottom as int, skipped as int, scroll as int).0
                == total.0,
            output_walk(outs@, i as int, k as int, oy as int, bottom as int, skipped as int, scroll as int).1
                == total.1,
        decreases k - i,
    {
        let h = outs[i].rows() as u32;
        if skipped + h <= scroll as u32 {
            skipped = skipped + h;
        } else {
            let skip: u32 = if scroll as u32 > skipped {
                scroll as u32 - skipped
            } else {
                0
            };
            let room = (bottom - oy) as u32;
            let dh: u32 = if h - skip < room {
                h - skip
            } else {
                room
            };
            let ghost before = places@;
            let ghost rest = output_walk(
                outs@,
                i + 1,
                k as int,
                oy + dh,
                bottom as int,
                scroll as int,
                scroll as int,
            );
            places.push(OutputPlace { block: i, y: oy, height: dh as u16, skip: skip as u16 });
            assert(places@ + rest.0 =~= before + output_walk(
                outs@,
                i as int,
                k as int,
                oy as int,
                bottom as int,
                skipped as int,
                scroll as int,
            ).0);
            oy = oy + dh as u16;
            skipped = scroll as u32;
        }
        i = i + 1;
    }
    assert(output_walk(outs@, i as int, k as int, oy as int, bottom as int, skipped as int, scroll as int).0
        =~= Seq::<OutputPlace>::empty());
    (places, oy)
}

/// The header label of a cell.
fn label_text(cell: &Cell) -> (s: String)
    ensures
        s@ == cell_label(cell),
{
    if cell.markdown {
        String::from_str("Markdown:")
    } else {
        let marker = if cell.running {
            String::from_str("*")
        } else {
            match cell.exec_count {
                Some(c) => usize_decimal(c),
                None => String::from_str(" "),
            }
        };
        let mut label = String::from_str("In [");
        label.append(marker.as_str());
        label.append("]:");
        label
    }
}

/// The "more lines" text of a truncated output showing `out_rows` rows.
fn more_lines_text(cell: &Cell, out_rows: u16) -> (t: String)
    requires
        cell.out_total() <= u16::MAX,
        out_rows == cell.spec_layout().1,
    ensures
        t@ == "\u{25bc} "@ + decimal((cell.out_total() - cell.spec_layout().1) as nat)
            + " more lines (x to expand)"@,
{
    let mut total: u16 = 0;
    for j in 0..cell.outputs.len()
        invariant
            total == crate::layout::rows_sum(cell.outputs@, j as int),
            cell.out_total() <= u16::MAX,
    {
        proof {
            crate::layout::lemma_rows_sum_mono(cell.outputs@, j + 1, cell.outputs@.len() as int);
        }
        total = total + cell.outputs[j].rows();
    }
    proof {
        cell.lemma_layout_bounds();
    }
    let mut t = String::from_str("\u{25bc} ");
    t.append(usize_decimal((total - out_rows) as usize).as_str());
    t.append(" more lines (x to expand)");
    t
}

/// The scroll marker placed at the right end of row `top`.
fn scroll_marker_at(area: Rect, top: u16, bottom: u16, scroll: u16, out_rows: u16) -> (r: (
    u16,
    u16,
    String,
))
    requires
        area.x + area.width <= u16::MAX,
    ensures
        ({
            let pos = "["@ + decimal((scroll + min_int(sat_sub(bottom as int, top as int), out_rows as int)) as nat)
                + "/"@ + decimal(out_rows as nat) + "]"@;
            &&& r.0 == sat_sub(area.x + area.width, pos.len() + 1int)
            &&& r.1 == top
            &&& r.2@ == pos
        }),
{
    let avail: u16 = if bottom > top {
        bottom - top
    } else {
        0
    };
    let shown = if avail < out_rows {
        avail
    } else {
        out_rows
    };
    let mut pos = String::from_str("[");
    pos.append(usize_decimal(scroll as usize + shown as usize).as_str());
    pos.append("/");
    pos.append(usize_decimal(out_rows as usize).as_str());
    pos.append("]");
    let len = chars_of(pos.as_str()).len();
    let right = area.x as usize + area.width as usize;
    let px: u16 = if len < right {
        (right - len - 1) as u16
    } else {
        0
    };
    (px, top, pos)
}

/// Plans the drawing of cell `idx` in `area` when `clip_top` of its rows lie above the
/// body.
pub fn cell_plan(app: &App, idx: usize, area: Rect, clip_top: u16) -> (p: CellPlan)
    requires
        idx < app.cells@.len(),
        app.cell_fits(idx as int),
        area.x + area.width <= u16::MAX,
        area.y + area.height <= u16::MAX,
        area.y + App::header_rows(clip_top) <= u16::MAX,
    ensures
        match p.header {
            Some(h) => clip_top == 0 && h@ == cell_label(&app.cells@[idx as int]),
            None => clip_top != 0,
        },
        p.selected == (idx == app.selected),
        p.border == (if app.edit matches Some(e) && e.idx == idx {
            Border::Editing
        } else if idx == app.selected {
            Border::Selected
        } else {
            Border::Inactive
        }),
        p.src_y == App::src_top(area, clip_top),
        p.src_height == app.src_shown(idx as int, area, clip_top),
        p.src_clip == sat_sub(clip_top as int, 1),
        p.outputs@ == app.plan_outputs(idx as int, area, clip_top).0,
        match p.more_lines {
            Some((y, t)) => app.plan_more_lines(idx as int, area, clip_top) == Some((y, t@)),
            None => app.plan_more_lines(idx as int, area, clip_top) is None,
        },
        match p.scroll_marker {
            Some((x, y, t)) => app.plan_scroll_marker(idx as int, area, clip_top) == Some(
                (x, y, t@),
            ),
            None => app.plan_scroll_marker(idx as int, area, clip_top) is None,
        },
{
    let cell = &app.cells[idx];
    let selected = idx == app.selected;
    let editing = match &app.edit {
        Some(e) => e.idx == idx,
        None => false,
    };
    let header = if clip_top == 0 {
        Some(label_text(cell))
    } else {
        None
    };
    let header_visible: u16 = if clip_top == 0 {
        1
    } else {
        0
    };
    let src_h: u16 = match &app.edit {
        Some(e) if e.idx == idx => e.rows,
        _ => if cell.markdown {
            crate::text::markdown_rows(cell.source.as_str()) + 2
        } else {
            cell.source_rows() + 2
        },
    };
    let src_clip = clip_top.saturating_sub(1);
    let src_visible = src_h.saturating_sub(src_clip);
    let room = area.height.saturating_sub(header_visible);
    let src_height = if src_visible < room {
        src_visible
    } else {
        room
    };
    let src_y = area.y + header_visible;
    let oy0 = src_y + src_height;
    let bottom = area.y + area.height;
    let (block_count, out_rows, truncated) = cell.visible_output_layout();
    let last = out_rows.saturating_sub(1);
    let scroll = if cell.output_scroll < last {
        cell.output_scroll
    } else {
        last
    };
    proof {
        cell.lemma_layout_bounds();
    }
    let (outputs, oy) = if oy0 < bottom {
        walk_outputs(&cell.outputs, block_count, oy0, bottom, scroll)
    } else {
        (Vec::new(), oy0)
    };
    let more_lines = if truncated && oy < bottom {
        Some((oy, more_lines_text(cell, out_rows)))
    } else {
        None
    };
    let scroll_marker = if scroll > 0 && oy <= bottom && oy > oy0 {
        Some(scroll_marker_at(area, oy0, bottom, scroll, out_rows))
    } else {
        None
    };
    CellPlan {
        header,
        selected,
        border: if editing {
            Border::Editing
        } else if selected {
            Border::Selected
        } else {
            Border::Inactive
        },
        src_y,
        src_height,
        src_clip,
        outputs,
        more_lines,
        scroll_marker,
    }
}

/// Columns an image takes: its width in character cells (rounded up), capped at 80
/// and at least 1.
pub open spec fn image_columns(img_width: int, font_width: int) -> int {
    let w = (img_width + font_width - 1) / font_width;
    if w > 80 {
        80
    } else if w < 1 {
        1
    } else {
        w
    }
}

/// The width in columns at which an image `img_width` pixels wide is shown, with
/// character cells `font_width` pixels wide.
pub fn image_cols(img_width: u32, font_width: u16) -> (c: u16)
    requires
        font_width > 0,
    ensures
        c == image_columns(img_width as int, font_width as int),
{
    let fw = font_width as u64;
    let iw = img_width as u64;
    let w = iw / fw + if iw % fw == 0 {
        0
    } else {
        1
    };
    proof {
        assert(w == (img_width + fw - 1) / (fw as int)) by (nonlinear_arith)
            requires
                fw > 0,
                iw == img_width,
                w == iw / fw + if iw % fw == 0 {
                    0int
                } else {
                    1int
                },
        ;
    }
    let capped = if w > 80 {
        80
    } else {
        w
    };
    let c = if capped < 1 {
        1
    } else {
        capped
    };
    c as u16
}

} // verus!
