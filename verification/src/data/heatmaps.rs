//! Heatmaps by channel: operations counted by the second in which they began
//! and by the magnitude of their latency, with their traces and waterfalls.

use vstd::prelude::*;
use vstd::string::StringExecFns;
use crate::arith::saturating_sum;
use crate::data::histograms::clamp;
use crate::data::histograms::clamped;
use crate::table::lemma_map_of_index;
use crate::table::lemma_map_of_push;
use crate::table::lemma_map_of_remove;
use crate::table::lemma_map_of_update;
use crate::table::map_of;
use crate::table::Table;
use crate::text::decimal;
use crate::text::push_decimal;

verus! {

/// The length of a slice of a heatmap in nanoseconds: one second.
pub const SLICE_NANOSECONDS: u64 = 1_000_000_000;

/// The number of columns of a heatmap: one for each number of binary digits
/// that a latency can have, from none (a latency of zero) to 64.
pub const COLUMNS: usize = 65;

/// The largest number of rows of a heatmap; slices beyond it are left out.
pub const MAX_ROWS: u64 = 65_536;

/// The number of binary digits of `v`: zero for zero, 64 for the largest
/// values.
pub open spec fn bit_length(v: nat) -> nat
    decreases v,
{
    if v == 0 {
        0
    } else {
        1 + bit_length(v / 2)
    }
}

/// The number of rows of a heatmap of `slices` slices.
pub open spec fn image_rows(slices: u64) -> nat {
    if slices > MAX_ROWS {
        MAX_ROWS as nat
    } else {
        slices as nat
    }
}

/// A heatmap of `rows` rows that holds nothing.
pub open spec fn blank(rows: nat) -> Seq<Seq<u64>> {
    Seq::new(rows, |r: int| Seq::new(COLUMNS as nat, |c: int| 0u64))
}

/// Whether every row of the heatmap has all its columns.
pub open spec fn well_shaped(grid: Seq<Seq<u64>>) -> bool {
    forall|r: int| 0 <= r < grid.len() ==> (#[trigger] grid[r]).len() == COLUMNS
}

/// The heatmap after an operation that began at `t0` and took `latency`
/// nanoseconds: the cell of its slice and of the number of binary digits of
/// its latency counts one more (a count stays at `u64::MAX` once it is
/// there). An operation that began before `start`, or in a slice that the
/// heatmap has no row for, leaves the heatmap as it was.
pub open spec fn hit(grid: Seq<Seq<u64>>, start: u64, t0: u64, latency: u64) -> Seq<Seq<u64>> {
    let row = (t0 - start) / (SLICE_NANOSECONDS as int);
    let column = bit_length(latency as nat) as int;
    if t0 >= start && row < grid.len() {
        grid.update(row, grid[row].update(column, saturating_sum(grid[row][column], 1)))
    } else {
        grid
    }
}

/// The line that a trace holds for a cell: the row, the column and the
/// count, with a space between each two and a line feed at the end. A cell
/// that counts nothing has no line.
pub open spec fn cell_line(row: nat, column: nat, count: u64) -> Seq<char> {
    if count == 0 {
        Seq::<char>::empty()
    } else {
        decimal(row) + " "@ + decimal(column) + " "@ + decimal(count as nat) + "\n"@
    }
}

/// The lines of the first `columns` cells of a row.
pub open spec fn trace_row(grid: Seq<Seq<u64>>, row: int, columns: nat) -> Seq<char>
    decreases columns,
{
    if columns == 0 {
        Seq::<char>::empty()
    } else {
        trace_row(grid, row, (columns - 1) as nat) + cell_line(
            row as nat,
            (columns - 1) as nat,
            grid[row][columns - 1],
        )
    }
}

/// The lines of the first `rows` rows.
pub open spec fn trace_rows(grid: Seq<Seq<u64>>, rows: nat) -> Seq<char>
    decreases rows,
{
    if rows == 0 {
        Seq::<char>::empty()
    } else {
        trace_rows(grid, (rows - 1) as nat) + trace_row(grid, rows - 1, COLUMNS as nat)
    }
}

/// The text of a trace: a first line with the start of the heatmap and its
/// number of slices, then one line for each cell that counts anything, row
/// by row.
pub open spec fn trace_text(start: u64, slices: u64, grid: Seq<Seq<u64>>) -> Seq<char> {
    decimal(start as nat) + " "@ + decimal(slices as nat) + "\n"@ + trace_rows(grid, grid.len())
}

/// The grey value of a cell that counts `count`: the count, held at 255.
pub open spec fn pixel(count: u64) -> u64 {
    if count > 255 {
        255
    } else {
        count
    }
}

/// The first `columns` grey values of a row; a space follows each value but
/// the last of the row, which a line feed follows.
pub open spec fn image_row(grid: Seq<Seq<u64>>, row: int, columns: nat) -> Seq<char>
    decreases columns,
{
    if columns == 0 {
        Seq::<char>::empty()
    } else {
        image_row(grid, row, (columns - 1) as nat) + decimal(
            pixel(grid[row][columns - 1]) as nat,
        ) + (if columns == COLUMNS {
            "\n"@
        } else {
            " "@
        })
    }
}

/// The first `rows` rows of the image.
pub open spec fn image_rows_text(grid: Seq<Seq<u64>>, rows: nat) -> Seq<char>
    decreases rows,
{
    if rows == 0 {
        Seq::<char>::empty()
    } else {
        image_rows_text(grid, (rows - 1) as nat) + image_row(grid, rows - 1, COLUMNS as nat)
    }
}

/// The waterfall of a heatmap as a plain-text greymap image: the header
/// `P2`, the width and the height, the largest grey value, then one line of
/// grey values for each slice, earliest first.
pub open spec fn waterfall_text(grid: Seq<Seq<u64>>) -> Seq<char> {
    "P2\n"@ + decimal(COLUMNS as nat) + " "@ + decimal(grid.len()) + "\n255\n"@
        + image_rows_text(grid, grid.len())
}

/// The number of binary digits of `v`.
pub fn bits(v: u64) -> (n: usize)
    ensures
        n == bit_length(v as nat),
        n <= 64,
{
    let mut rest = v;
    let mut n: usize = 0;
    proof {
        vstd::arithmetic::power2::lemma2_to64();
    }
    while rest > 0
        invariant
            n + bit_length(rest as nat) == bit_length(v as nat),
            n <= 64,
            rest as nat * vstd::arithmetic::power2::pow2(n as nat) <= u64::MAX,
        decreases rest,
    {
        proof {
            vstd::arithmetic::power2::lemma_pow2_unfold((n + 1) as nat);
            let p = vstd::arithmetic::power2::pow2(n as nat);
            vstd::arithmetic::power2::lemma_pow2_pos(n as nat);
            assert((rest / 2) as nat * (2 * p) <= rest as nat * p) by (nonlinear_arith)
                requires
                    p > 0,
            ;
            if n == 64 {
                vstd::arithmetic::power2::lemma2_to64();
                assert(rest as nat * p >= p) by (nonlinear_arith)
                    requires
                        rest >= 1,
                ;
            }
        }
        rest = rest / 2;
        n += 1;
    }
    n
}

/// The operations of one channel during a run, counted by the slice in
/// which they began and by the magnitude of their latency.
pub struct Heatmap {
    cells: Vec<Vec<u64>>,
}

impl View for Heatmap {
    type V = Seq<Seq<u64>>;

    /// The count of each cell, row by row.
    closed spec fn view(&self) -> Seq<Seq<u64>> {
        Seq::new(self.cells@.len(), |r: int| self.cells@[r]@)
    }
}

impl Heatmap {
    pub closed spec fn wf(&self) -> bool {
        well_shaped(self@)
    }

    /// A heatmap of `rows` rows that holds nothing.
    pub fn new(rows: usize) -> (h: Self)
        ensures
            h.wf(),
            h@ == blank(rows as nat),
    {
        let mut cells: Vec<Vec<u64>> = Vec::new();
        while cells.len() < rows
            invariant
                cells@.len() <= rows,
                forall|r: int| 0 <= r < cells@.len() ==> (#[trigger] cells@[r])@.len() == COLUMNS,
                forall|r: int, c: int|
                    0 <= r < cells@.len() && 0 <= c < COLUMNS ==> #[trigger] cells@[r]@[c] == 0,
            decreases rows - cells@.len(),
        {
            let mut line: Vec<u64> = Vec::with_capacity(COLUMNS);
            while line.len() < COLUMNS
                invariant
                    line@.len() <= COLUMNS,
                    forall|c: int| 0 <= c < line@.len() ==> line@[c] == 0,
                decreases COLUMNS - line@.len(),
            {
                line.push(0);
            }
            cells.push(line);
        }
        let h = Heatmap { cells };
        proof {
            assert forall|r: int| 0 <= r < h@.len() implies #[trigger] h@[r] =~= blank(
                rows as nat,
            )[r] by {}
            assert(h@ =~= blank(rows as nat));
        }
        h
    }

    /// The number of rows.
    pub fn rows(&self) -> (n: usize)
        ensures
            n == self@.len(),
    {
        self.cells.len()
    }

    /// The count of a cell.
    pub fn count(&self, row: usize, column: usize) -> (n: u64)
        requires
            self.wf(),
            row < self@.len(),
            column < COLUMNS,
        ensures
            n == self@[row as int][column as int],
    {
        assert(self@[row as int].len() == COLUMNS);
        self.cells[row][column]
    }

    /// Counts an operation that began at `t0` and took `latency`
    /// nanoseconds, for a heatmap that starts at `start`.
    pub fn increment(&mut self, start: u64, t0: u64, latency: u64)
        requires
            old(self).wf(),
        ensures
            final(self).wf(),
            final(self)@ == hit(old(self)@, start, t0, latency),
    {
        if t0 >= start {
            let row = (t0 - start) / SLICE_NANOSECONDS;
            if row < self.cells.len() as u64 {
                let row = row as usize;
                let column = bits(latency);
                assert(old(self)@[row as int].len() == COLUMNS);
                let count = self.cells[row][column].saturating_add(1);
                self.cells[row].set(column, count);
                proof {
                    let grid = old(self)@;
                    let after = grid.update(
                        row as int,
                        grid[row as int].update(column as int, count),
                    );
                    assert forall|r: int| 0 <= r < self@.len() implies #[trigger] self@[r]
                        == after[r] by {
                        if r != row {
                            assert(self@[r] == grid[r]);
                        }
                    }
                    assert(self@ =~= after);
                    assert forall|r: int| 0 <= r < self@.len() implies (#[trigger] self@[r]).len()
                        == COLUMNS by {
                        assert(grid[r].len() == COLUMNS);
                    }
                }
            }
        }
    }

    /// Forgets every operation.
    pub fn clear(&mut self)
        requires
            old(self).wf(),
        ensures
            final(self).wf(),
            final(self)@ == blank(old(self)@.len()),
    {
        let rows = self.cells.len();
        let mut r: usize = 0;
        proof {
            assert forall|i: int| 0 <= i < rows implies (#[trigger] self.cells@[i])@.len()
                == COLUMNS by {
                assert(self@[i].len() == COLUMNS);
            }
        }
        while r < rows
            invariant
                r <= rows,
                rows == self.cells@.len(),
                forall|i: int| 0 <= i < rows ==> (#[trigger] self.cells@[i])@.len() == COLUMNS,
                forall|i: int, c: int|
                    0 <= i < r && 0 <= c < COLUMNS ==> #[trigger] self.cells@[i]@[c] == 0,
            decreases rows - r,
        {
            let mut c: usize = 0;
            while c < COLUMNS
                invariant
                    c <= COLUMNS,
                    r < rows,
                    rows == self.cells@.len(),
                    forall|i: int|
                        0 <= i < rows ==> (#[trigger] self.cells@[i])@.len() == COLUMNS,
                    forall|i: int, k: int|
                        0 <= i < r && 0 <= k < COLUMNS ==> #[trigger] self.cells@[i]@[k] == 0,
                    forall|k: int| 0 <= k < c ==> self.cells@[r as int]@[k] == 0,
                decreases COLUMNS - c,
            {
                self.cells[r].set(c, 0);
                c += 1;
            }
            r += 1;
        }
        proof {
            assert(old(self)@.len() == rows) by {
                assert(old(self)@.len() == old(self).cells@.len());
            }
            assert forall|i: int| 0 <= i < self@.len() implies #[trigger] self@[i] =~= blank(
                rows as nat,
            )[i] by {}
            assert(self@ =~= blank(rows as nat));
        }
    }

    /// Writes out the heatmap as a trace.
    pub fn trace(&self, start: u64, slices: u64) -> (text: String)
        requires
            self.wf(),
        ensures
            text@ == trace_text(start, slices, self@),
    {
        let mut text = String::new();
        push_decimal(&mut text, start);
        text.append(" ");
        push_decimal(&mut text, slices);
        text.append("\n");
        let ghost head = text@;
        assert(head =~= decimal(start as nat) + " "@ + decimal(slices as nat) + "\n"@);
        let rows = self.cells.len();
        let mut r: usize = 0;
        while r < rows
            invariant
                r <= rows,
                rows == self@.len(),
                self.wf(),
                text@ == head + trace_rows(self@, r as nat),
            decreases rows - r,
        {
            let ghost row_start = text@;
            let mut c: usize = 0;
            while c < COLUMNS
                invariant
                    c <= COLUMNS,
                    r < rows,
                    rows == self@.len(),
                    self.wf(),
                    text@ == row_start + trace_row(self@, r as int, c as nat),
                decreases COLUMNS - c,
            {
                let count = self.count(r, c);
                if count > 0 {
                    push_decimal(&mut text, r as u64);
                    text.append(" ");
                    push_decimal(&mut text, c as u64);
                    text.append(" ");
                    push_decimal(&mut text, count);
                    text.append("\n");
                }
                c += 1;
                assert(text@ =~= row_start + trace_row(self@, r as int, c as nat));
            }
            r += 1;
            assert(text@ =~= head + trace_rows(self@, r as nat));
        }
        text
    }

    /// Writes out the heatmap as a plain-text greymap image.
    pub fn waterfall(&self) -> (image: String)
        requires
            self.wf(),
        ensures
            image@ == waterfall_text(self@),
    {
        let rows = self.cells.len();
        let mut image = String::from_str("P2\n");
        push_decimal(&mut image, COLUMNS as u64);
        image.append(" ");
        push_decimal(&mut image, rows as u64);
        image.append("\n255\n");
        let ghost head = image@;
        assert(head =~= "P2\n"@ + decimal(COLUMNS as nat) + " "@ + decimal(self@.len())
            + "\n255\n"@);
        let mut r: usize = 0;
        while r < rows
            invariant
                r <= rows,
                rows == self@.len(),
                self.wf(),
                image@ == head + image_rows_text(self@, r as nat),
            decreases rows - r,
        {
            let ghost row_start = image@;
            let mut c: usize = 0;
            while c < COLUMNS
                invariant
                    c <= COLUMNS,
                    r < rows,
                    rows == self@.len(),
                    self.wf(),
                    image@ == row_start + image_row(self@, r as int, c as nat),
                decreases COLUMNS - c,
            {
                let count = self.count(r, c);
                let grey = if count > 255 {
                    255
                } else {
                    count
                };
                push_decimal(&mut image, grey);
                if c + 1 == COLUMNS {
                    image.append("\n");
                } else {
                    image.append(" ");
                }
                c += 1;
                assert(image@ =~= row_start + image_row(self@, r as int, c as nat));
            }
            r += 1;
            assert(image@ =~= head + image_rows_text(self@, r as nat));
        }
        image
    }
}

/// The cells of each heatmap.
pub open spec fn heatmap_views(heatmaps: Seq<Heatmap>) -> Seq<Seq<Seq<u64>>> {
    Seq::new(heatmaps.len(), |i: int| heatmaps[i]@)
}

/// The heatmaps after an operation on `channel` that began at `t0` and took
/// `dt` nanoseconds: a channel that was never initialised is ignored.
pub open spec fn marked(
    m: Map<Seq<char>, Seq<Seq<u64>>>,
    channel: Seq<char>,
    start: u64,
    t0: u64,
    dt: int,
) -> Map<Seq<char>, Seq<Seq<u64>>> {
    if m.contains_key(channel) {
        m.insert(channel, hit(m[channel], start, t0, clamped(dt)))
    } else {
        m
    }
}

/// The heatmaps with every channel kept and every operation forgotten.
pub open spec fn blanked(m: Map<Seq<char>, Seq<Seq<u64>>>) -> Map<Seq<char>, Seq<Seq<u64>>> {
    Map::new(|k: Seq<char>| m.contains_key(k), |k: Seq<char>| blank(m[k].len()))
}

/// For each initialised channel, the heatmap of the current run.
pub struct Heatmaps {
    slices: u64,
    start: u64,
    table: Table<Heatmap>,
}

impl View for Heatmaps {
    type V = Map<Seq<char>, Seq<Seq<u64>>>;

    closed spec fn view(&self) -> Map<Seq<char>, Seq<Seq<u64>>> {
        map_of(self.table.keys(), heatmap_views(self.table.values()))
    }
}

impl Heatmaps {
    pub closed spec fn wf(&self) -> bool {
        &&& self.table.wf()
        &&& forall|i: int|
            0 <= i < self.table.values().len() ==> (#[trigger] self.table.values()[i]).wf()
    }

    /// The number of one-second slices that a run spans.
    pub closed spec fn slices(&self) -> u64 {
        self.slices
    }

    /// The time at which the first slice begins.
    pub closed spec fn start(&self) -> u64 {
        self.start
    }

    pub fn new(slices: u64, start: u64) -> (h: Self)
        ensures
            h.wf(),
            h@ == Map::<Seq<char>, Seq<Seq<u64>>>::empty(),
            h.slices() == slices,
            h.start() == start,
    {
        let h = Heatmaps { slices, start, table: Table::new() };
        assert(h@ =~= Map::<Seq<char>, Seq<Seq<u64>>>::empty());
        h
    }

    /// The number of one-second slices that a run spans.
    pub fn slice_count(&self) -> (n: u64)
        ensures
            n == self.slices(),
    {
        self.slices
    }

    /// The time at which the first slice begins.
    pub fn start_time(&self) -> (t: u64)
        ensures
            t == self.start(),
    {
        self.start
    }

    /// Whether `channel` has a heatmap.
    pub fn contains(&self, channel: &String) -> (b: bool)
        requires
            self.wf(),
        ensures
            b == self@.contains_key(channel@),
    {
        match self.table.position(channel) {
            Some(i) => {
                proof {
                    lemma_map_of_index(
                        self.table.keys(),
                        heatmap_views(self.table.values()),
                        i as int,
                    );
                }
                true
            },
            None => false,
        }
    }

    /// Starts an empty heatmap for `channel`, with a row for each slice up
    /// to `MAX_ROWS`.
    pub fn init(&mut self, channel: String)
        requires
            old(self).wf(),
        ensures
            final(self).wf(),
            final(self)@ == old(self)@.insert(channel@, blank(image_rows(old(self).slices()))),
            final(self).slices() == old(self).slices(),
            final(self).start() == old(self).start(),
    {
        let ghost keys = self.table.keys();
        let ghost views = heatmap_views(self.table.values());
        let rows: usize = if self.slices > MAX_ROWS {
            MAX_ROWS as usize
        } else {
            self.slices as usize
        };
        let fresh = Heatmap::new(rows);
        match self.table.position(&channel) {
            Some(i) => {
                let place = self.table.value_mut(i);
                *place = fresh;
                proof {
                    lemma_map_of_update(keys, views, i as int, blank(rows as nat));
                    assert(heatmap_views(self.table.values()) =~= views.update(
                        i as int,
                        blank(rows as nat),
                    ));
                }
            },
            None => {
                self.table.insert(channel, fresh);
                proof {
                    lemma_map_of_push(keys, views, channel@, blank(rows as nat));
                    assert(heatmap_views(self.table.values()) =~= views.push(
                        blank(rows as nat),
                    ));
                }
            },
        }
    }

    /// Drops the heatmap of `channel`.
    pub fn remove(&mut self, channel: &String)
        requires
            old(self).wf(),
        ensures
            final(self).wf(),
            final(self)@ == old(self)@.remove(channel@),
            final(self).slices() == old(self).slices(),
            final(self).start() == old(self).start(),
    {
        let ghost keys = self.table.keys();
        let ghost views = heatmap_views(self.table.values());
        match self.table.position(channel) {
            Some(i) => {
                self.table.remove(channel);
                proof {
                    lemma_map_of_index(keys, views, i as int);
                    lemma_map_of_remove(keys, views, i as int);
                    assert(heatmap_views(self.table.values()) =~= views.remove(i as int));
                }
            },
            None => {
                assert(self@ =~= old(self)@.remove(channel@));
            },
        }
    }

    /// Counts an operation that began at `t0` and took `dt` nanoseconds in
    /// the heatmap of `channel`, if it is initialised.
    pub fn increment(&mut self, channel: &String, t0: u64, dt: i128)
        requires
            old(self).wf(),
        ensures
            final(self).wf(),
            final(self)@ == marked(old(self)@, channel@, old(self).start(), t0, dt as int),
            final(self).slices() == old(self).slices(),
            final(self).start() == old(self).start(),
    {
        let ghost keys = self.table.keys();
        let ghost views = heatmap_views(self.table.values());
        match self.table.position(channel) {
            Some(i) => {
                let latency = clamp(dt);
                let start = self.start;
                let heatmap = self.table.value_mut(i);
                heatmap.increment(start, t0, latency);
                proof {
                    lemma_map_of_index(keys, views, i as int);
                    lemma_map_of_update(
                        keys,
                        views,
                        i as int,
                        hit(views[i as int], start, t0, latency),
                    );
                    assert(heatmap_views(self.table.values()) =~= views.update(
                        i as int,
                        hit(views[i as int], start, t0, latency),
                    ));
                }
            },
            None => {},
        }
    }

    /// Empties every heatmap and keeps the channels.
    pub fn clear(&mut self)
        requires
            old(self).wf(),
        ensures
            final(self).wf(),
            final(self)@ == blanked(old(self)@),
            final(self).slices() == old(self).slices(),
            final(self).start() == old(self).start(),
    {
        let n = self.table.len();
        let mut i: usize = 0;
        let ghost views = heatmap_views(self.table.values());
        while i < n
            invariant
                self.wf(),
                self.table.keys() == old(self).table.keys(),
                self.slices == old(self).slices,
                self.start == old(self).start,
                n == self.table.keys().len(),
                i <= n,
                views == heatmap_views(old(self).table.values()),
                forall|j: int|
                    0 <= j < i ==> (#[trigger] self.table.values()[j])@ == blank(views[j].len()),
                forall|j: int|
                    i <= j < n ==> (#[trigger] self.table.values()[j])@ == views[j],
            decreases n - i,
        {
            let heatmap = self.table.value_mut(i);
            heatmap.clear();
            i += 1;
        }
        proof {
            let keys = self.table.keys();
            let now = heatmap_views(self.table.values());
            assert forall|k: Seq<char>| #[trigger] self@.contains_key(k) implies self@[k]
                == blanked(old(self)@)[k] by {
                let j = crate::table::index_of(keys, k);
                assert(now[j] == self.table.values()[j]@);
                lemma_map_of_index(keys, views, j);
            }
            assert(self@ =~= blanked(old(self)@));
        }
    }

    /// The text of the trace of `channel`, if it is initialised.
    pub fn trace(&self, channel: &String) -> (r: Option<String>)
        requires
            self.wf(),
        ensures
            match r {
                Some(text) => self@.contains_key(channel@) && text@ == trace_text(
                    self.start(),
                    self.slices(),
                    self@[channel@],
                ),
                None => !self@.contains_key(channel@),
            },
    {
        match self.table.position(channel) {
            Some(i) => {
                proof {
                    lemma_map_of_index(
                        self.table.keys(),
                        heatmap_views(self.table.values()),
                        i as int,
                    );
                }
                Some(self.table.value_at(i).trace(self.start, self.slices))
            },
            None => None,
        }
    }

    /// The image of the waterfall of `channel`, if it is initialised.
    pub fn waterfall(&self, channel: &String) -> (r: Option<String>)
        requires
            self.wf(),
        ensures
            match r {
                Some(image) => self@.contains_key(channel@) && image@ == waterfall_text(
                    self@[channel@],
                ),
                None => !self@.contains_key(channel@),
            },
    {
        match self.table.position(channel) {
            Some(i) => {
                proof {
                    lemma_map_of_index(
                        self.table.keys(),
                        heatmap_views(self.table.values()),
                        i as int,
                    );
                }
                Some(self.table.value_at(i).waterfall())
            },
            None => None,
        }
    }
}

} // verus!
