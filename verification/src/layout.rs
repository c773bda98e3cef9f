//! Cells as the notebook shows them: rendered output blocks, their row counts, how
//! much of a long output is shown, and screen rectangles.

use vstd::prelude::*;
use crate::chars::{lines_of, split_lines, chars_of};
use crate::config::Rgb;

verus! {

/// Output rows shown for a cell before it is truncated (unless expanded).
pub const OUTPUT_CAP: u16 = 50;

/// A rendered output block.
#[derive(Debug, PartialEq)]
pub enum OutputView {
    /// Text in one colour.
    Text { text: String, color: Rgb },
    /// An image taking `rows` rows; `image` indexes the front end's store of encoded images.
    Image { image: usize, rows: u16 },
}

/// Rows a text block takes: its line count, at least 1, as a `u16` (wrapping).
pub open spec fn text_rows(text: Seq<char>) -> int {
    let n = lines_of(text).len();
    ((if n < 1 {
        1
    } else {
        n
    }) % 65536) as int
}

impl OutputView {
    pub open spec fn spec_rows(&self) -> int {
        match self {
            OutputView::Text { text, .. } => text_rows(text@),
            OutputView::Image { rows, .. } => *rows as int,
        }
    }

    /// Rows the block takes on screen.
    pub fn rows(&self) -> (r: u16)
        ensures
            r == self.spec_rows(),
    {
        match self {
            OutputView::Text { text, .. } => {
                let cs = chars_of(text.as_str());
                let ls = split_lines(cs.as_slice());
                let n = if ls.len() < 1 {
                    1
                } else {
                    ls.len()
                };
                (n % 65536) as u16
            },
            OutputView::Image { rows, .. } => *rows,
        }
    }
}

/// Total rows of the first `k` blocks.
pub open spec fn rows_sum(outs: Seq<OutputView>, k: int) -> int
    decreases k,
{
    if k <= 0 {
        0
    } else {
        rows_sum(outs, k - 1) + outs[k - 1].spec_rows()
    }
}

pub proof fn lemma_rows_sum_mono(outs: Seq<OutputView>, a: int, b: int)
    requires
        0 <= a <= b <= outs.len(),
    ensures
        rows_sum(outs, a) <= rows_sum(outs, b),
    decreases b,
{
    if a < b {
        lemma_rows_sum_mono(outs, a, b - 1);
    }
}

/// Number of leading blocks that fit within `OUTPUT_CAP` rows, counting from block `k`.
pub open spec fn blocks_that_fit(outs: Seq<OutputView>, k: int) -> int
    decreases outs.len() - k,
{
    if k >= outs.len() || rows_sum(outs, k + 1) > OUTPUT_CAP {
        k
    } else {
        blocks_that_fit(outs, k + 1)
    }
}

pub proof fn lemma_blocks_that_fit_range(outs: Seq<OutputView>, k: int)
    requires
        0 <= k <= outs.len(),
    ensures
        k <= blocks_that_fit(outs, k) <= outs.len(),
    decreases outs.len() - k,
{
    if !(k >= outs.len() || rows_sum(outs, k + 1) > OUTPUT_CAP) {
        lemma_blocks_that_fit_range(outs, k + 1);
    }
}

/// A cell of the notebook.
#[derive(Debug, PartialEq)]
pub struct Cell {
    pub source: String,
    pub outputs: Vec<OutputView>,
    pub exec_count: Option<usize>,
    pub running: bool,
    pub markdown: bool,
    pub output_expanded: bool,
    /// Output lines scrolled past.
    pub output_scroll: u16,
}

impl Cell {
    /// Total rows of all output blocks.
    pub open spec fn out_total(&self) -> int {
        rows_sum(self.outputs@, self.outputs@.len() as int)
    }

    /// The layout of the outputs: (blocks drawn, rows they take, whether some are hidden).
    /// All blocks when expanded or when they fit in `OUTPUT_CAP` rows; otherwise the
    /// leading blocks that fit.
    pub open spec fn spec_layout(&self) -> (int, int, bool) {
        if self.output_expanded || self.out_total() <= OUTPUT_CAP {
            (self.outputs@.len() as int, self.out_total(), false)
        } else {
            let k = blocks_that_fit(self.outputs@, 0);
            (k, rows_sum(self.outputs@, k), true)
        }
    }

    /// The blocks drawn are among the cell's, and their rows among all its rows.
    pub proof fn lemma_layout_bounds(&self)
        ensures
            0 <= self.spec_layout().0 <= self.outputs@.len(),
            0 <= self.spec_layout().1 <= self.out_total(),
    {
        lemma_rows_sum_mono(self.outputs@, 0, self.outputs@.len() as int);
        lemma_blocks_that_fit_range(self.outputs@, 0);
        let k = blocks_that_fit(self.outputs@, 0);
        lemma_rows_sum_mono(self.outputs@, 0, k);
        lemma_rows_sum_mono(self.outputs@, k, self.outputs@.len() as int);
    }

    /// A code cell with this source and nothing else.
    pub fn new(source: &str) -> (c: Cell)
        ensures
            c.source@ == source@,
            c.outputs@.len() == 0,
            c.exec_count is None,
            !c.running && !c.markdown && !c.output_expanded,
            c.output_scroll == 0,
    {
        Cell {
            source: String::from_str(source),
            outputs: Vec::new(),
            exec_count: None,
            running: false,
            markdown: false,
            output_expanded: false,
            output_scroll: 0,
        }
    }

    /// A markdown cell with this source.
    pub fn markdown(source: &str) -> (c: Cell)
        ensures
            c.source@ == source@,
            c.outputs@.len() == 0,
            c.exec_count is None,
            !c.running && c.markdown && !c.output_expanded,
            c.output_scroll == 0,
    {
        let c = Cell::new(source);
        Cell { markdown: true, ..c }
    }

    /// Rows the source takes.
    pub fn source_rows(&self) -> (r: u16)
        ensures
            r == crate::text::source_row_count(self.source@),
    {
        crate::text::source_rows(self.source.as_str())
    }

    /// How many output blocks are visible, their total rows, and whether some are hidden.
    /// Summing the rows in a `u16` overflows (and panics) when they pass `u16::MAX`.
    pub fn visible_output_layout(&self) -> (r: (usize, u16, bool))
        requires
            self.out_total() <= u16::MAX,
        ensures
            (r.0 as int, r.1 as int, r.2) == self.spec_layout(),
    {
        let n = self.outputs.len();
        let mut total: u16 = 0;
        for i in 0..n
            invariant
                n == self.outputs@.len(),
                total == rows_sum(self.outputs@, i as int),
                self.out_total() <= u16::MAX,
        {
            proof {
                lemma_rows_sum_mono(self.outputs@, i + 1, n as int);
            }
            total = total + self.outputs[i].rows();
        }
        if self.output_expanded || total <= OUTPUT_CAP {
            (n, total, false)
        } else {
            let mut used: u16 = 0;
            let mut count: usize = 0;
            while count < n
                invariant
                    n == self.outputs@.len(),
                    count <= n,
                    used == rows_sum(self.outputs@, count as int),
                    used <= OUTPUT_CAP,
                    self.out_total() <= u16::MAX,
                    blocks_that_fit(self.outputs@, 0) == blocks_that_fit(
                        self.outputs@,
                        count as int,
                    ),
                ensures
                    count <= n,
                    used == rows_sum(self.outputs@, count as int),
                    blocks_that_fit(self.outputs@, 0) == count,
                decreases n - count,
            {
                let h = self.outputs[count].rows();
                proof {
                    lemma_rows_sum_mono(self.outputs@, count + 1, n as int);
                }
                if used + h > OUTPUT_CAP {
                    break;
                }
                used = used + h;
                count = count + 1;
            }
            (count, used, true)
        }
    }
}

/// When the output is expanded, scroll it so that its last `OUTPUT_CAP` rows show.
pub fn follow_output(cell: &mut Cell)
    requires
        old(cell).output_expanded ==> old(cell).out_total() <= u16::MAX,
    ensures
        final(cell).source == old(cell).source,
        final(cell).outputs == old(cell).outputs,
        final(cell).exec_count == old(cell).exec_count,
        final(cell).running == old(cell).running,
        final(cell).markdown == old(cell).markdown,
        final(cell).output_expanded == old(cell).output_expanded,
        final(cell).output_scroll == (if old(cell).output_expanded {
            if old(cell).out_total() > OUTPUT_CAP {
                old(cell).out_total() - OUTPUT_CAP
            } else {
                0
            }
        } else {
            old(cell).output_scroll as int
        }),
{
    if !cell.output_expanded {
        return;
    }
    let (_, out_rows, _) = cell.visible_output_layout();
    cell.output_scroll = out_rows.saturating_sub(OUTPUT_CAP);
}

/// A screen rectangle.
#[derive(Clone, Copy, Debug, PartialEq, Eq, Structural)]
pub struct Rect {
    pub x: u16,
    pub y: u16,
    pub width: u16,
    pub height: u16,
}

pub open spec fn min_u16(a: u16, b: u16) -> u16 {
    if a < b {
        a
    } else {
        b
    }
}

/// A `width` x `height` rectangle centred in `area`, both sides capped at the area's.
/// The left and top coordinates are sums that overflow past `u16::MAX`.
pub fn centered_rect(area: Rect, width: u16, height: u16) -> (r: Rect)
    requires
        area.x + (area.width - min_u16(width, area.width)) / 2 <= u16::MAX,
        area.y + (area.height - min_u16(height, area.height)) / 2 <= u16::MAX,
    ensures
        r.width == min_u16(width, area.width),
        r.height == min_u16(height, area.height),
        r.x == area.x + (area.width - r.width) / 2,
        r.y == area.y + (area.height - r.height) / 2,
{
    let w = if width < area.width {
        width
    } else {
        area.width
    };
    let h = if height < area.height {
        height
    } else {
        area.height
    };
    Rect { x: area.x + (area.width - w) / 2, y: area.y + (area.height - h) / 2, width: w, height: h }
}

} // verus!
