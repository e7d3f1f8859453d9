//! Tables as rows of spanning cells, and the occupied slot grid behind the
//! Markdown, LaTeX and TSV projections.

use vstd::prelude::*;
use crate::cells::{html_escape, html_escape_spec, latex_cell, latex_cell_spec, md_cell, md_cell_spec};
use crate::text::{dec, dec_exec, join, join_exec, push_all, string_of, views};

verus! {

/// One table cell with its row and column span (0 counts as 1).
#[derive(Debug, Clone, PartialEq, Eq)]
pub struct Cell {
    pub text: String,
    pub rowspan: usize,
    pub colspan: usize,
}

/// Rows of cells, as written in the source markup.
#[derive(Debug, Clone, PartialEq, Eq)]
pub struct Table {
    pub rows: Vec<Vec<Cell>>,
}

/// What occupies one position of the table grid.
#[derive(Debug, Clone, PartialEq, Eq)]
pub enum Slot {
    /// The top-left position of a cell.
    Origin { text: String, rowspan: usize, colspan: usize },
    /// Occupied by a rowspan from a previous row — still a tabular column.
    RowSpan,
    /// Occupied by a colspan on this row — do not emit another `&` cell.
    ColSpan,
}

/// What occupies one grid position, as a value.
pub enum SlotView {
    Origin { text: Seq<char>, rowspan: usize, colspan: usize },
    RowSpan,
    ColSpan,
}

pub open spec fn slot_v(s: Slot) -> SlotView {
    match s {
        Slot::Origin { text, rowspan, colspan } => SlotView::Origin { text: text@, rowspan, colspan },
        Slot::RowSpan => SlotView::RowSpan,
        Slot::ColSpan => SlotView::ColSpan,
    }
}

pub open spec fn opt_v(o: Option<Slot>) -> Option<SlotView> {
    match o {
        Some(s) => Some(slot_v(s)),
        None => None,
    }
}

/// A working grid row as values.
pub open spec fn row_v(row: Seq<Option<Slot>>) -> Seq<Option<SlotView>> {
    row.map_values(|o: Option<Slot>| opt_v(o))
}

/// A finished grid row as values.
pub open spec fn slot_row(row: Seq<Slot>) -> Seq<SlotView> {
    row.map_values(|s: Slot| slot_v(s))
}

pub type Grid = Seq<Seq<Option<SlotView>>>;

/// A cell as (text, rowspan, colspan).
pub type CellView = (Seq<char>, usize, usize);

pub open spec fn cell_v(c: Cell) -> CellView {
    (c.text@, c.rowspan, c.colspan)
}

/// The rows of a table as (text, rowspan, colspan) triples.
pub open spec fn table_v(t: Table) -> Seq<Seq<CellView>> {
    t.rows@.map_values(|r: Vec<Cell>| r@.map_values(|c: Cell| cell_v(c)))
}

/// `n.max(1)`.
pub open spec fn span(n: usize) -> usize {
    if n == 0 { 1 } else { n }
}

pub open spec fn pad_row(row: Seq<Option<SlotView>>, n: int) -> Seq<Option<SlotView>> {
    if row.len() >= n {
        row
    } else {
        row + Seq::new((n - row.len()) as nat, |i: int| None::<SlotView>)
    }
}

pub open spec fn pad_rows(g: Grid, n: int) -> Grid {
    if g.len() >= n {
        g
    } else {
        g + Seq::new((n - g.len()) as nat, |i: int| Seq::<Option<SlotView>>::empty())
    }
}

/// Grid grown so that position `(r, c)` exists.
pub open spec fn ensure(g: Grid, r: int, c: int) -> Grid {
    let g1 = pad_rows(g, r + 1);
    g1.update(r, pad_row(g1[r], c + 1))
}

/// Position `(r, c)` takes `v` unless something occupies it already.
pub open spec fn mark(g: Grid, r: int, c: int, v: SlotView) -> Grid {
    let g1 = ensure(g, r, c);
    if g1[r][c] is None {
        g1.update(r, g1[r].update(c, Some(v)))
    } else {
        g1
    }
}

/// What a cell puts at offset `(dr, dc)` of its span.
pub open spec fn slot_for(cell: CellView, dr: int, dc: int) -> SlotView {
    if dr == 0 && dc == 0 {
        SlotView::Origin { text: cell.0, rowspan: span(cell.1), colspan: span(cell.2) }
    } else if dr == 0 {
        SlotView::ColSpan
    } else {
        SlotView::RowSpan
    }
}

/// The first `n` positions of row `rr` of the span, from column `c`.
pub open spec fn fill_cols(g: Grid, rr: int, c: int, dr: int, n: int, cell: CellView) -> Grid
    decreases n,
{
    if n <= 0 {
        g
    } else {
        mark(fill_cols(g, rr, c, dr, n - 1, cell), rr, c + n - 1, slot_for(cell, dr, n - 1))
    }
}

/// The first `m` rows of the span of `cell` placed at `(r, c)`.
pub open spec fn fill_rows(g: Grid, r: int, c: int, m: int, cell: CellView) -> Grid
    decreases m,
{
    if m <= 0 {
        g
    } else {
        fill_cols(
            pad_rows(fill_rows(g, r, c, m - 1, cell), r + m),
            r + m - 1,
            c,
            m - 1,
            span(cell.2) as int,
            cell,
        )
    }
}

/// First column at or after `c` that holds nothing.
pub open spec fn first_free(row: Seq<Option<SlotView>>, c: int) -> int
    decreases row.len() - c,
{
    if 0 <= c < row.len() && row[c] is Some {
        first_free(row, c + 1)
    } else {
        c
    }
}

/// Places `cell` in row `r`, searching from column `c`; gives the grid and the
/// column after the cell.
pub open spec fn place_cell(g: Grid, r: int, c: int, cell: CellView) -> (Grid, int) {
    let g0 = ensure(g, r, c);
    let c1 = first_free(g0[r], c);
    let g1 = ensure(g0, r, c1);
    (fill_rows(g1, r, c1, span(cell.1) as int, cell), c1 + span(cell.2))
}

/// The first `k` cells of row `r` placed.
pub open spec fn place_cells(g: Grid, r: int, cells: Seq<CellView>, k: int) -> (Grid, int)
    decreases k,
{
    if k <= 0 {
        (g, 0)
    } else {
        let p = place_cells(g, r, cells, k - 1);
        place_cell(p.0, r, p.1, cells[k - 1])
    }
}

/// The first `m` rows placed.
pub open spec fn place_rows(rows: Seq<Seq<CellView>>, m: int) -> Grid
    decreases m,
{
    if m <= 0 {
        Seq::empty()
    } else {
        place_cells(pad_rows(place_rows(rows, m - 1), m), m - 1, rows[m - 1], rows[m - 1].len() as int).0
    }
}

/// Positions left unoccupied become `RowSpan`.
pub open spec fn finalize(g: Grid) -> Seq<Seq<SlotView>> {
    g.map_values(
        |row: Seq<Option<SlotView>>|
            row.map_values(
                |o: Option<SlotView>|
                    match o {
                        Some(s) => s,
                        None => SlotView::RowSpan,
                    },
            ),
    )
}

/// The occupied grid of a table.
pub open spec fn slot_grid_spec(rows: Seq<Seq<CellView>>) -> Seq<Seq<SlotView>> {
    if rows.len() == 0 {
        Seq::empty()
    } else {
        finalize(place_rows(rows, rows.len() as int))
    }
}

// ------------------------------------------------------------ size budget

/// Columns a cell may push the grid by: its span and one search step.
pub open spec fn cell_cost(cell: CellView) -> int {
    span(cell.2) + 1
}

pub open spec fn cells_cost(cells: Seq<CellView>, k: int) -> int
    decreases k,
{
    if k <= 0 {
        0
    } else {
        cells_cost(cells, k - 1) + cell_cost(cells[k - 1])
    }
}

pub open spec fn rows_cost(rows: Seq<Seq<CellView>>, m: int) -> int
    decreases m,
{
    if m <= 0 {
        0
    } else {
        rows_cost(rows, m - 1) + cells_cost(rows[m - 1], rows[m - 1].len() as int)
    }
}

/// The grid of `rows` can be indexed with `usize`: the summed column budget
/// and every row a span reaches fit.
pub open spec fn grid_fits(rows: Seq<Seq<CellView>>) -> bool {
    &&& rows_cost(rows, rows.len() as int) <= usize::MAX
    &&& forall|r: int, k: int|
        0 <= r < rows.len() && 0 <= k < rows[r].len() ==> r + span(#[trigger] rows[r][k].1)
            <= usize::MAX
}

pub proof fn lemma_cells_cost_mono(cells: Seq<CellView>, k: int, j: int)
    requires
        0 <= k <= j,
    ensures
        cells_cost(cells, k) <= cells_cost(cells, j),
    decreases j,
{
    if k < j {
        lemma_cells_cost_mono(cells, k, j - 1);
    }
}

pub proof fn lemma_rows_cost_mono(rows: Seq<Seq<CellView>>, m: int, n: int)
    requires
        0 <= m <= n,
    ensures
        rows_cost(rows, m) <= rows_cost(rows, n),
    decreases n,
{
    if m < n {
        lemma_rows_cost_mono(rows, m, n - 1);
        lemma_cells_cost_mono(rows[n - 1], 0, rows[n - 1].len() as int);
    }
}

pub open spec fn within(g: Grid, w: int) -> bool {
    forall|i: int| 0 <= i < g.len() ==> #[trigger] g[i].len() <= w
}

pub open spec fn row_len_at(g: Grid, i: int) -> int {
    if 0 <= i < g.len() {
        g[i].len() as int
    } else {
        0
    }
}

// ------------------------------------------------------------ grid building

/// The spec grid held by the working vectors.
pub open spec fn gv(g: Seq<Vec<Option<Slot>>>) -> Grid {
    g.map_values(|row: Vec<Option<Slot>>| row_v(row@))
}

fn pad_rows_exec(g: &mut Vec<Vec<Option<Slot>>>, n: usize)
    ensures
        gv(final(g)@) == pad_rows(gv(old(g)@), n as int),
        final(g)@.len() >= n,
        final(g)@.len() >= old(g)@.len(),
{
    let ghost g0 = gv(g@);
    assert(gv(g@) =~= g0 + Seq::new(0, |i: int| Seq::<Option<SlotView>>::empty()));
    while g.len() < n
        invariant
            g@.len() >= g0.len(),
            g@.len() == g0.len() || g@.len() <= n,
            g0.len() == old(g)@.len(),
            gv(g@) == g0 + Seq::new(
                (g@.len() - g0.len()) as nat,
                |i: int| Seq::<Option<SlotView>>::empty(),
            ),
        decreases n - g@.len(),
    {
        let ghost before = gv(g@);
        let e: Vec<Option<Slot>> = Vec::new();
        assert(row_v(e@) =~= Seq::<Option<SlotView>>::empty());
        g.push(e);
        assert(gv(g@) =~= before.push(Seq::<Option<SlotView>>::empty()));
        assert(gv(g@) =~= g0 + Seq::new(
            (g@.len() - g0.len()) as nat,
            |i: int| Seq::<Option<SlotView>>::empty(),
        ));
    }
    assert(gv(g@) =~= pad_rows(g0, n as int));
}

fn pad_row_exec(row: &mut Vec<Option<Slot>>, n: usize)
    ensures
        row_v(final(row)@) == pad_row(row_v(old(row)@), n as int),
{
    let ghost r0 = row_v(row@);
    assert(row_v(row@) =~= r0 + Seq::new(0, |i: int| None::<SlotView>));
    while row.len() < n
        invariant
            row@.len() >= r0.len(),
            row@.len() == r0.len() || row@.len() <= n,
            row_v(row@) == r0 + Seq::new((row@.len() - r0.len()) as nat, |i: int| None::<SlotView>),
        decreases n - row@.len(),
    {
        let ghost before = row_v(row@);
        row.push(None);
        assert(row_v(row@) =~= before.push(None));
        assert(row_v(row@) =~= r0 + Seq::new((row@.len() - r0.len()) as nat, |i: int| None::<SlotView>));
    }
    assert(row_v(row@) =~= pad_row(r0, n as int));
}

fn ensure_exec(g: &mut Vec<Vec<Option<Slot>>>, r: usize, c: usize)
    requires
        r < usize::MAX,
        c < usize::MAX,
    ensures
        gv(final(g)@) == ensure(gv(old(g)@), r as int, c as int),
        final(g)@.len() > r,
        final(g)@[r as int]@.len() > c,
{
    pad_rows_exec(g, r + 1);
    let ghost g1 = gv(g@);
    assert(g1.len() == g@.len());
    let mut row = g.remove(r);
    assert(row_v(row@) == g1[r as int]);
    pad_row_exec(&mut row, c + 1);
    assert(row@.len() == row_v(row@).len());
    assert(row_v(row@).len() > c);
    let ghost n = row@.len();
    g.insert(r, row);
    assert(g@[r as int]@.len() == n);
    assert(gv(g@) =~= g1.update(r as int, pad_row(g1[r as int], c + 1)));
}

fn mark_exec(g: &mut Vec<Vec<Option<Slot>>>, r: usize, c: usize, v: Slot)
    requires
        r < usize::MAX,
        c < usize::MAX,
    ensures
        gv(final(g)@) == mark(gv(old(g)@), r as int, c as int, slot_v(v)),
{
    ensure_exec(g, r, c);
    let ghost g1 = gv(g@);
    let ghost sv = slot_v(v);
    let mut row = g.remove(r);
    assert(row_v(row@) == g1[r as int]);
    let free = match &row[c] {
        None => true,
        Some(_) => false,
    };
    assert(free == g1[r as int][c as int] is None);
    if free {
        row.set(c, Some(v));
        assert(row_v(row@) =~= g1[r as int].update(c as int, Some(sv)));
    }
    g.insert(r, row);
    if free {
        assert(gv(g@) =~= g1.update(r as int, g1[r as int].update(c as int, Some(sv))));
    } else {
        assert(gv(g@) =~= g1);
    }
}

fn is_taken(row: &Vec<Option<Slot>>, i: usize) -> (b: bool)
    requires
        i < row@.len(),
    ensures
        b == row@[i as int] is Some,
{
    match &row[i] {
        Some(_) => true,
        None => false,
    }
}

fn first_free_exec(row: &Vec<Option<Slot>>, c: usize) -> (f: usize)
    requires
        c <= row@.len(),
    ensures
        f == first_free(row_v(row@), c as int),
        c <= f <= row@.len(),
{
    let ghost rv = row_v(row@);
    let mut i = c;
    while i < row.len() && is_taken(row, i)
        invariant
            c <= i <= row@.len(),
            rv == row_v(row@),
            first_free(rv, c as int) == first_free(rv, i as int),
        decreases row@.len() - i,
    {
        assert(rv[i as int] is Some);
        i += 1;
    }
    if i < row.len() {
        assert(rv[i as int] is None);
    }
    i
}

pub proof fn lemma_mark_lens(g: Grid, r: int, c: int, v: SlotView)
    requires
        0 <= r,
        0 <= c,
    ensures
        mark(g, r, c, v).len() == (if g.len() > r + 1 { g.len() as int } else { r + 1 }),
        forall|i: int|
            0 <= i < mark(g, r, c, v).len() ==> #[trigger] mark(g, r, c, v)[i].len() == (if i == r {
                if row_len_at(g, r) > c + 1 {
                    row_len_at(g, r)
                } else {
                    c + 1
                }
            } else {
                row_len_at(g, i)
            }),
{
    let g1 = pad_rows(g, r + 1);
    assert forall|i: int| 0 <= i < g1.len() implies #[trigger] g1[i].len() == row_len_at(g, i) by {
        if i >= g.len() {
            assert(g1[i] == Seq::<Option<SlotView>>::empty());
        }
    }
}

pub proof fn lemma_ensure_lens(g: Grid, r: int, c: int)
    requires
        0 <= r,
        0 <= c,
    ensures
        ensure(g, r, c).len() == (if g.len() > r + 1 { g.len() as int } else { r + 1 }),
        forall|i: int|
            0 <= i < ensure(g, r, c).len() ==> #[trigger] ensure(g, r, c)[i].len() == (if i == r {
                if row_len_at(g, r) > c + 1 {
                    row_len_at(g, r)
                } else {
                    c + 1
                }
            } else {
                row_len_at(g, i)
            }),
        ensure(g, r, c)[r].len() > c,
{
    let g1 = pad_rows(g, r + 1);
    assert forall|i: int| 0 <= i < g1.len() implies #[trigger] g1[i].len() == row_len_at(g, i) by {
        if i >= g.len() {
            assert(g1[i] == Seq::<Option<SlotView>>::empty());
        }
    }
}

pub proof fn lemma_first_free_bound(row: Seq<Option<SlotView>>, c: int)
    requires
        0 <= c <= row.len(),
    ensures
        c <= first_free(row, c) <= row.len(),
        first_free(row, c) < row.len() ==> row[first_free(row, c)] is None,
    decreases row.len() - c,
{
    if c < row.len() && row[c] is Some {
        lemma_first_free_bound(row, c + 1);
    }
}

/// A cell goes to the first free column at or after the cursor: every
/// column passed over is taken, and the one found is free or the row's end.
pub proof fn lemma_first_free_least(row: Seq<Option<SlotView>>, c: int)
    requires
        0 <= c <= row.len(),
    ensures
        c <= first_free(row, c) <= row.len(),
        forall|k: int| c <= k < first_free(row, c) ==> #[trigger] row[k] is Some,
        first_free(row, c) < row.len() ==> row[first_free(row, c)] is None,
    decreases row.len() - c,
{
    if c < row.len() && row[c] is Some {
        lemma_first_free_least(row, c + 1);
    }
}

/// Where `place_cell` puts a cell: at the first column from the cursor that
/// the row (grown to the cursor) leaves free; the columns it skips are all
/// taken, and the cursor after it is one span further on.
pub proof fn lemma_place_cell_column(g: Grid, r: int, c: int, cell: CellView)
    requires
        0 <= r,
        0 <= c,
    ensures
        ({
            let row = ensure(g, r, c)[r];
            let f = place_cell(g, r, c, cell).1 - span(cell.2);
            &&& c <= f <= row.len()
            &&& forall|k: int| c <= k < f ==> #[trigger] row[k] is Some
            &&& f < row.len() ==> row[f] is None
        }),
{
    lemma_ensure_lens(g, r, c);
    lemma_first_free_least(ensure(g, r, c)[r], c);
}

fn slot_of(cell: &Cell, dr: usize, dc: usize) -> (s: Slot)
    ensures
        slot_v(s) == slot_for(cell_v(*cell), dr as int, dc as int),
{
    if dr == 0 && dc == 0 {
        let rs = if cell.rowspan == 0 { 1 } else { cell.rowspan };
        let cs = if cell.colspan == 0 { 1 } else { cell.colspan };
        Slot::Origin { text: cell.text.clone(), rowspan: rs, colspan: cs }
    } else if dr == 0 {
        Slot::ColSpan
    } else {
        Slot::RowSpan
    }
}

/// Places one cell; `budget` bounds every row length before the call.
fn place_cell_exec(
    g: &mut Vec<Vec<Option<Slot>>>,
    r: usize,
    c: usize,
    cell: &Cell,
    Ghost(budget): Ghost<int>,
) -> (c2: usize)
    requires
        old(g)@.len() > r,
        c <= old(g)@[r as int]@.len(),
        within(gv(old(g)@), budget),
        budget + cell_cost(cell_v(*cell)) <= usize::MAX,
        r + span(cell.rowspan) <= usize::MAX,
    ensures
        (gv(final(g)@), c2 as int) == place_cell(gv(old(g)@), r as int, c as int, cell_v(*cell)),
        within(gv(final(g)@), budget + cell_cost(cell_v(*cell))),
        final(g)@.len() > r,
        c2 <= final(g)@[r as int]@.len(),
{
    let ghost g_in = gv(g@);
    let ghost cost = cell_cost(cell_v(*cell));
    proof {
        lemma_ensure_lens(g_in, r as int, c as int);
    }
    ensure_exec(g, r, c);
    let ghost g0 = gv(g@);
    assert(g0 == ensure(g_in, r as int, c as int));
    assert(within(g0, budget + 1));
    assert(g0[r as int] == row_v(g@[r as int]@));
    let c1 = first_free_exec(&g[r], c);
    proof {
        lemma_first_free_bound(g0[r as int], c as int);
        lemma_ensure_lens(g0, r as int, c1 as int);
    }
    ensure_exec(g, r, c1);
    let ghost g1 = gv(g@);
    assert(within(g1, budget + cost));
    let rs = if cell.rowspan == 0 { 1 } else { cell.rowspan };
    let cs = if cell.colspan == 0 { 1 } else { cell.colspan };
    assert(g1[r as int].len() > c1);
    let mut dr: usize = 0;
    while dr < rs
        invariant
            rs == span(cell.rowspan),
            cs == span(cell.colspan),
            cost == cell_cost(cell_v(*cell)),
            r + rs <= usize::MAX,
            budget + cost <= usize::MAX,
            c1 <= budget + 1,
            0 <= dr <= rs,
            gv(g@) == fill_rows(g1, r as int, c1 as int, dr as int, cell_v(*cell)),
            within(gv(g@), budget + cost),
            g@.len() > r,
            g@[r as int]@.len() > c1,
            dr >= 1 ==> g@[r as int]@.len() >= c1 + cs,
        decreases rs - dr,
    {
        let rr = r + dr;
        let ghost prev = gv(g@);
        pad_rows_exec(g, rr + 1);
        let ghost gp = gv(g@);
        assert(gp == pad_rows(prev, rr + 1));
        assert(forall|i: int| 0 <= i < gp.len() ==> #[trigger] gp[i].len() == row_len_at(prev, i)) by {
            assert forall|i: int| 0 <= i < gp.len() implies #[trigger] gp[i].len() == row_len_at(
                prev,
                i,
            ) by {
                if i >= prev.len() {
                    assert(gp[i] == Seq::<Option<SlotView>>::empty());
                }
            }
        }
        let mut dc: usize = 0;
        while dc < cs
            invariant
                rs == span(cell.rowspan),
                cs == span(cell.colspan),
                cost == cell_cost(cell_v(*cell)),
                budget + cost <= usize::MAX,
                c1 <= budget + 1,
                rr == r + dr,
                rr < usize::MAX,
                0 <= dc <= cs,
                gp.len() > rr,
                gp.len() > r,
                gv(g@) == fill_cols(gp, rr as int, c1 as int, dr as int, dc as int, cell_v(*cell)),
                within(gv(g@), budget + cost),
                g@.len() == gp.len(),
                forall|i: int| 0 <= i < gp.len() ==> #[trigger] g@[i]@.len() >= gp[i].len(),
                dc >= 1 ==> g@[rr as int]@.len() >= c1 + dc,
            decreases cs - dc,
        {
            let cc = c1 + dc;
            let ghost before = gv(g@);
            let v = slot_of(cell, dr, dc);
            proof {
                lemma_mark_lens(before, rr as int, cc as int, slot_v(v));
            }
            mark_exec(g, rr, cc, v);
            assert(gv(g@)[rr as int] == row_v(g@[rr as int]@));
            assert(g@[rr as int]@.len() >= cc + 1);
            assert forall|i: int| 0 <= i < gp.len() implies #[trigger] g@[i]@.len() >= gp[i].len() by {
                assert(gv(g@)[i] == row_v(g@[i]@));
                assert(before[i] == old_row_view(before, i));
            }
            dc += 1;
        }
        dr += 1;
    }
    c1 + cs
}

pub open spec fn old_row_view(g: Grid, i: int) -> Seq<Option<SlotView>> {
    g[i]
}

/// The slot values held by a grid of slot vectors.
pub open spec fn slot_rows(g: Seq<Vec<Slot>>) -> Seq<Seq<SlotView>> {
    g.map_values(|row: Vec<Slot>| slot_row(row@))
}

/// A copy of `s`.
pub fn copy_slot(s: &Slot) -> (out: Slot)
    ensures
        out == *s,
{
    match s {
        Slot::Origin { text, rowspan, colspan } => Slot::Origin {
            text: text.clone(),
            rowspan: *rowspan,
            colspan: *colspan,
        },
        Slot::RowSpan => Slot::RowSpan,
        Slot::ColSpan => Slot::ColSpan,
    }
}

fn finalize_exec(g: &Vec<Vec<Option<Slot>>>) -> (out: Vec<Vec<Slot>>)
    ensures
        slot_rows(out@) == finalize(gv(g@)),
{
    let mut out: Vec<Vec<Slot>> = Vec::new();
    let mut i: usize = 0;
    while i < g.len()
        invariant
            i <= g@.len(),
            slot_rows(out@) == finalize(gv(g@)).take(i as int),
        decreases g@.len() - i,
    {
        let row = &g[i];
        let mut conv: Vec<Slot> = Vec::new();
        let mut j: usize = 0;
        while j < row.len()
            invariant
                j <= row@.len(),
                row == g@[i as int],
                i < g@.len(),
                slot_row(conv@) == finalize(gv(g@))[i as int].take(j as int),
            decreases row@.len() - j,
        {
            let s = match &row[j] {
                Some(s) => copy_slot(s),
                None => Slot::RowSpan,
            };
            assert(gv(g@)[i as int] == row_v(row@));
            assert(slot_v(s) == finalize(gv(g@))[i as int][j as int]);
            let ghost before = slot_row(conv@);
            conv.push(s);
            assert(slot_row(conv@) =~= before.push(slot_v(s)));
            j += 1;
            assert(slot_row(conv@) =~= finalize(gv(g@))[i as int].take(j as int));
        }
        assert(slot_row(conv@) =~= finalize(gv(g@))[i as int]);
        let ghost before = slot_rows(out@);
        out.push(conv);
        assert(slot_rows(out@) =~= before.push(finalize(gv(g@))[i as int]));
        i += 1;
        assert(slot_rows(out@) =~= finalize(gv(g@)).take(i as int));
    }
    assert(finalize(gv(g@)).take(g@.len() as int) =~= finalize(gv(g@)));
    out
}

impl Table {
    /// Occupied grid that keeps span metadata for LaTeX `\multirow` /
    /// `\multicolumn` and for preview cells that should look merged.
    /// Continuation rows that `\multirow` spans are kept.
    pub fn slot_grid(&self) -> (out: Vec<Vec<Slot>>)
        requires
            grid_fits(table_v(*self)),
        ensures
            slot_rows(out@) == slot_grid_spec(table_v(*self)),
    {
        let ghost rows = table_v(*self);
        if self.rows.len() == 0 {
            let e: Vec<Vec<Slot>> = Vec::new();
            assert(slot_rows(e@) =~= Seq::<Seq<SlotView>>::empty());
            return e;
        }
        let mut occ: Vec<Vec<Option<Slot>>> = Vec::new();
        assert(gv(occ@) =~= place_rows(rows, 0));
        let mut r: usize = 0;
        while r < self.rows.len()
            invariant
                rows == table_v(*self),
                grid_fits(rows),
                r <= rows.len(),
                gv(occ@) == place_rows(rows, r as int),
                within(gv(occ@), rows_cost(rows, r as int)),
            decreases rows.len() - r,
        {
            proof {
                lemma_rows_cost_mono(rows, r + 1, rows.len() as int);
            }
            let ghost before = gv(occ@);
            pad_rows_exec(&mut occ, r + 1);
            let ghost start = gv(occ@);
            assert(within(start, rows_cost(rows, r as int))) by {
                assert forall|i: int| 0 <= i < start.len() implies #[trigger] start[i].len()
                    <= rows_cost(rows, r as int) by {
                    lemma_rows_cost_mono(rows, 0, r as int);
                    if i >= before.len() {
                        assert(start[i] == Seq::<Option<SlotView>>::empty());
                    } else {
                        assert(start[i] == before[i]);
                    }
                }
            }
            let row = &self.rows[r];
            assert(row@.map_values(|c: Cell| cell_v(c)) == rows[r as int]);
            let mut c: usize = 0;
            let mut k: usize = 0;
            assert(start[r as int] == row_v(occ@[r as int]@));
            while k < row.len()
                invariant
                    rows == table_v(*self),
                    grid_fits(rows),
                    r < rows.len(),
                    row@.map_values(|c: Cell| cell_v(c)) == rows[r as int],
                    k <= row@.len(),
                    rows_cost(rows, r + 1) <= usize::MAX,
                    start == pad_rows(place_rows(rows, r as int), r + 1),
                    (gv(occ@), c as int) == place_cells(start, r as int, rows[r as int], k as int),
                    within(gv(occ@), rows_cost(rows, r as int) + cells_cost(rows[r as int], k as int)),
                    occ@.len() > r,
                    c <= occ@[r as int]@.len(),
                decreases row@.len() - k,
            {
                proof {
                    lemma_cells_cost_mono(rows[r as int], k + 1, rows[r as int].len() as int);
                }
                let cell = &row[k];
                assert(cell_v(*cell) == rows[r as int][k as int]);
                assert(r + span(rows[r as int][k as int].1) <= usize::MAX);
                c = place_cell_exec(
                    &mut occ,
                    r,
                    c,
                    cell,
                    Ghost(rows_cost(rows, r as int) + cells_cost(rows[r as int], k as int)),
                );
                k += 1;
            }
            r += 1;
        }
        finalize_exec(&occ)
    }
}

// ------------------------------------------------------------ projections

/// The text an `Origin` carries; nothing for span occupancy.
pub open spec fn origin_text(s: SlotView) -> Seq<char> {
    match s {
        SlotView::Origin { text, .. } => text,
        _ => Seq::empty(),
    }
}

/// Length of the longest row.
pub open spec fn max_len<T>(g: Seq<Seq<T>>) -> nat
    decreases g.len(),
{
    if g.len() == 0 {
        0
    } else {
        let m = max_len(g.drop_last());
        if g.last().len() > m {
            g.last().len()
        } else {
            m
        }
    }
}

/// A slot row as `width` texts.
pub open spec fn plain_row(row: Seq<SlotView>, width: nat) -> Seq<Seq<char>> {
    Seq::new(width, |c: int| if c < row.len() { origin_text(row[c]) } else { Seq::empty() })
}

pub open spec fn all_blank(row: Seq<Seq<char>>) -> bool {
    forall|c: int| 0 <= c < row.len() ==> #[trigger] row[c].len() == 0
}

/// Rows that hold some text, in order.
pub open spec fn keep_text_rows(g: Seq<Seq<Seq<char>>>) -> Seq<Seq<Seq<char>>>
    decreases g.len(),
{
    if g.len() == 0 {
        Seq::empty()
    } else {
        let rest = keep_text_rows(g.drop_last());
        if all_blank(g.last()) {
            rest
        } else {
            rest.push(g.last())
        }
    }
}

/// Markdown / TSV projection: Origin text, empty for span occupancy; rows
/// that are entirely empty (pure continuation) are dropped.
pub open spec fn plain_rows_spec(rows: Seq<Seq<CellView>>) -> Seq<Seq<Seq<char>>> {
    let slots = slot_grid_spec(rows);
    let width = max_len(slots);
    keep_text_rows(slots.map_values(|row: Seq<SlotView>| plain_row(row, width)))
}

/// `" " + body + " |"` for each of the first `n` columns.
pub open spec fn md_cells(row: Seq<Seq<char>>, n: int) -> Seq<char>
    decreases n,
{
    if n <= 0 {
        Seq::empty()
    } else {
        let cell = if n - 1 < row.len() { row[n - 1] } else { Seq::empty() };
        md_cells(row, n - 1) + seq![' '] + md_cell_spec(cell) + seq![' ', '|']
    }
}

/// `n` copies of the alignment cell ` :--- |`.
pub open spec fn md_align(n: int) -> Seq<char>
    decreases n,
{
    if n <= 0 {
        Seq::empty()
    } else {
        md_align(n - 1) + seq![' ', ':', '-', '-', '-', ' ', '|']
    }
}

/// The first `n` Markdown lines; the alignment line follows the first row.
pub open spec fn md_lines(grid: Seq<Seq<Seq<char>>>, width: int, n: int) -> Seq<char>
    decreases n,
{
    if n <= 0 {
        Seq::empty()
    } else {
        let line = seq!['|'] + md_cells(grid[n - 1], width) + seq!['\n'];
        let align = if n - 1 == 0 {
            seq!['|'] + md_align(width) + seq!['\n']
        } else {
            Seq::empty()
        };
        md_lines(grid, width, n - 1) + line + align
    }
}

pub open spec fn markdown_spec(rows: Seq<Seq<CellView>>) -> Seq<char> {
    let grid = plain_rows_spec(rows);
    let width = max_len(grid);
    if grid.len() == 0 || width == 0 {
        Seq::empty()
    } else {
        md_lines(grid, width as int, grid.len() as int)
    }
}

/// Rows joined by newlines, cells by tabs.
pub open spec fn tsv_spec(rows: Seq<Seq<CellView>>) -> Seq<char> {
    join(plain_rows_spec(rows).map_values(|row: Seq<Seq<char>>| join(row, seq!['\t'])), seq!['\n'])
}

/// The LaTeX body of an `Origin`: `\multirow` and `\multicolumn` around the
/// cell text where the spans exceed one.
pub open spec fn latex_origin(text: Seq<char>, rowspan: usize, colspan: usize) -> Seq<char> {
    let b0 = latex_cell_spec(text);
    let b1 = if rowspan > 1 {
        seq!['\\', 'm', 'u', 'l', 't', 'i', 'r', 'o', 'w', '{'] + dec(rowspan as nat) + seq![
            '}',
            '{',
            '*',
            '}',
            '{',
        ] + b0 + seq!['}']
    } else {
        b0
    };
    if colspan > 1 {
        seq!['\\', 'm', 'u', 'l', 't', 'i', 'c', 'o', 'l', 'u', 'm', 'n', '{'] + dec(colspan as nat)
            + seq!['}', '{', '|', 'c', '|', '}', '{'] + b1 + seq!['}']
    } else {
        b1
    }
}

/// `tabular` cells of one slot row from column `c`: a colspan emits nothing,
/// a rowspan an empty cell, an origin its body and skips its span.
pub open spec fn latex_cells(row: Seq<SlotView>, width: int, c: int) -> Seq<Seq<char>>
    decreases width - c,
{
    if c >= width || c < 0 {
        Seq::empty()
    } else {
        let slot = if c < row.len() { row[c] } else { SlotView::RowSpan };
        match slot {
            SlotView::ColSpan => latex_cells(row, width, c + 1),
            SlotView::RowSpan => seq![Seq::<char>::empty()] + latex_cells(row, width, c + 1),
            SlotView::Origin { text, rowspan, colspan } => {
                let next = c + (if colspan == 0 { 1 } else { colspan as int });
                if next >= width {
                    seq![latex_origin(text, rowspan, colspan)]
                } else {
                    seq![latex_origin(text, rowspan, colspan)] + latex_cells(row, width, next)
                }
            },
        }
    }
}

/// One `tabular` row with its `\hline`.
pub open spec fn latex_line(row: Seq<SlotView>, width: int) -> Seq<char> {
    join(latex_cells(row, width, 0), seq![' ', '&', ' ']) + seq![
        ' ',
        '\\',
        '\\',
        '\n',
        '\\',
        'h',
        'l',
        'i',
        'n',
        'e',
        '\n',
    ]
}

pub open spec fn latex_lines(g: Seq<Seq<SlotView>>, width: int, n: int) -> Seq<char>
    decreases n,
{
    if n <= 0 {
        Seq::empty()
    } else {
        latex_lines(g, width, n - 1) + latex_line(g[n - 1], width)
    }
}

/// `l|l|...|l` with `n` columns.
pub open spec fn col_spec(n: int) -> Seq<char>
    decreases n,
{
    if n <= 1 {
        seq!['l']
    } else {
        col_spec(n - 1) + seq!['|', 'l']
    }
}

pub open spec fn latex_spec(rows: Seq<Seq<CellView>>) -> Seq<char> {
    let slots = slot_grid_spec(rows);
    let width = max_len(slots);
    if slots.len() == 0 || width == 0 {
        Seq::empty()
    } else {
        seq!['\\', 'b', 'e', 'g', 'i', 'n', '{', 't', 'a', 'b', 'u', 'l', 'a', 'r', '}', '[', 't', ']', '{', '|']
            + col_spec(width as int) + seq!['|', '}', '\n', '\\', 'h', 'l', 'i', 'n', 'e', '\n']
            + latex_lines(slots, width as int, slots.len() as int)
            + seq!['\\', 'e', 'n', 'd', '{', 't', 'a', 'b', 'u', 'l', 'a', 'r', '}']
    }
}

fn max_len_slots(g: &Vec<Vec<Slot>>) -> (w: usize)
    ensures
        w == max_len(slot_rows(g@)),
{
    let mut w: usize = 0;
    let mut i: usize = 0;
    assert(slot_rows(g@).take(0) =~= Seq::<Seq<SlotView>>::empty());
    while i < g.len()
        invariant
            i <= g@.len(),
            w == max_len(slot_rows(g@).take(i as int)),
        decreases g@.len() - i,
    {
        assert(slot_rows(g@).take(i + 1).drop_last() =~= slot_rows(g@).take(i as int));
        if g[i].len() > w {
            w = g[i].len();
        }
        i += 1;
    }
    assert(slot_rows(g@).take(g@.len() as int) =~= slot_rows(g@));
    w
}

/// Text rows held by nested character vectors.
pub open spec fn text_rows(g: Seq<Vec<Vec<char>>>) -> Seq<Seq<Seq<char>>> {
    g.map_values(|row: Vec<Vec<char>>| views(row@))
}

fn max_len_text(g: &Vec<Vec<Vec<char>>>) -> (w: usize)
    ensures
        w == max_len(text_rows(g@)),
{
    let mut w: usize = 0;
    let mut i: usize = 0;
    assert(text_rows(g@).take(0) =~= Seq::<Seq<Seq<char>>>::empty());
    while i < g.len()
        invariant
            i <= g@.len(),
            w == max_len(text_rows(g@).take(i as int)),
        decreases g@.len() - i,
    {
        assert(text_rows(g@).take(i + 1).drop_last() =~= text_rows(g@).take(i as int));
        if g[i].len() > w {
            w = g[i].len();
        }
        i += 1;
    }
    assert(text_rows(g@).take(g@.len() as int) =~= text_rows(g@));
    w
}

fn origin_text_exec(s: &Slot) -> (out: Vec<char>)
    ensures
        out@ == origin_text(slot_v(*s)),
{
    match s {
        Slot::Origin { text, .. } => crate::text::chars_of(text.as_str()),
        _ => Vec::new(),
    }
}

impl Table {
    fn plain_rows_chars(&self) -> (out: Vec<Vec<Vec<char>>>)
        requires
            grid_fits(table_v(*self)),
        ensures
            text_rows(out@) == plain_rows_spec(table_v(*self)),
    {
        let slots = self.slot_grid();
        let width = max_len_slots(&slots);
        let ghost sv = slot_rows(slots@);
        let ghost mapped = sv.map_values(|row: Seq<SlotView>| plain_row(row, width as nat));
        let mut out: Vec<Vec<Vec<char>>> = Vec::new();
        let mut i: usize = 0;
        assert(mapped.take(0) =~= Seq::<Seq<Seq<char>>>::empty());
        while i < slots.len()
            invariant
                i <= slots@.len(),
                sv == slot_rows(slots@),
                width == max_len(sv),
                mapped == sv.map_values(|row: Seq<SlotView>| plain_row(row, width as nat)),
                text_rows(out@) == keep_text_rows(mapped.take(i as int)),
            decreases slots@.len() - i,
        {
            let row = &slots[i];
            assert(slot_row(row@) == sv[i as int]);
            let mut cells: Vec<Vec<char>> = Vec::new();
            let mut any = false;
            let mut c: usize = 0;
            while c < width
                invariant
                    c <= width,
                    slot_row(row@) == sv[i as int],
                    i < sv.len(),
                    mapped == sv.map_values(|row: Seq<SlotView>| plain_row(row, width as nat)),
                    views(cells@) == mapped[i as int].take(c as int),
                    any == exists|j: int| 0 <= j < c && #[trigger] mapped[i as int][j].len() > 0,
                decreases width - c,
            {
                let t = if c < row.len() {
                    origin_text_exec(&row[c])
                } else {
                    Vec::new()
                };
                assert(t@ == mapped[i as int][c as int]);
                if t.len() > 0 {
                    any = true;
                }
                let ghost before = views(cells@);
                cells.push(t);
                assert(views(cells@) =~= before.push(mapped[i as int][c as int]));
                c += 1;
                assert(mapped[i as int].take(c as int) =~= mapped[i as int].take(c - 1).push(
                    mapped[i as int][c - 1],
                ));
                assert(views(cells@) =~= mapped[i as int].take(c as int));
            }
            assert(mapped[i as int].take(width as int) =~= mapped[i as int]);
            assert(mapped.take(i + 1).drop_last() =~= mapped.take(i as int));
            assert(any == !all_blank(mapped[i as int]));
            if any {
                let ghost before = text_rows(out@);
                out.push(cells);
                assert(text_rows(out@) =~= before.push(mapped[i as int]));
            }
            i += 1;
        }
        assert(mapped.take(slots@.len() as int) =~= mapped);
        out
    }
}

/// Strings held by nested string vectors, as character sequences.
pub open spec fn string_rows(g: Seq<Vec<String>>) -> Seq<Seq<Seq<char>>> {
    g.map_values(|row: Vec<String>| row@.map_values(|s: String| s@))
}

fn md_row_exec(row: &Vec<Vec<char>>, width: usize) -> (out: Vec<char>)
    ensures
        out@ == seq!['|'] + md_cells(views(row@), width as int) + seq!['\n'],
{
    let mut out: Vec<char> = Vec::new();
    out.push('|');
    let mut c: usize = 0;
    assert(out@ =~= seq!['|'] + md_cells(views(row@), 0));
    while c < width
        invariant
            c <= width,
            out@ == seq!['|'] + md_cells(views(row@), c as int),
        decreases width - c,
    {
        let body = if c < row.len() {
            md_cell(row[c].as_slice())
        } else {
            let e: Vec<char> = Vec::new();
            md_cell(&e)
        };
        out.push(' ');
        push_all(&mut out, &body);
        out.push(' ');
        out.push('|');
        c += 1;
        assert(out@ =~= seq!['|'] + md_cells(views(row@), c as int));
    }
    out.push('\n');
    out
}

impl Table {
    /// Rows of cell texts for Markdown / TSV (span positions empty, blank
    /// rows dropped).
    pub fn plain_rows(&self) -> (out: Vec<Vec<String>>)
        requires
            grid_fits(table_v(*self)),
        ensures
            string_rows(out@) == plain_rows_spec(table_v(*self)),
    {
        let g = self.plain_rows_chars();
        let mut out: Vec<Vec<String>> = Vec::new();
        let mut i: usize = 0;
        while i < g.len()
            invariant
                i <= g@.len(),
                string_rows(out@) == text_rows(g@).take(i as int),
            decreases g@.len() - i,
        {
            let mut row: Vec<String> = Vec::new();
            let mut j: usize = 0;
            while j < g[i].len()
                invariant
                    i < g@.len(),
                    j <= g@[i as int]@.len(),
                    row@.map_values(|s: String| s@) == views(g@[i as int]@).take(j as int),
                decreases g@[i as int]@.len() - j,
            {
                let s = string_of(g[i][j].as_slice());
                let ghost before = row@.map_values(|s: String| s@);
                row.push(s);
                assert(row@.map_values(|s: String| s@) =~= before.push(g@[i as int]@[j as int]@));
                j += 1;
                assert(row@.map_values(|s: String| s@) =~= views(g@[i as int]@).take(j as int));
            }
            assert(views(g@[i as int]@).take(g@[i as int]@.len() as int) =~= views(g@[i as int]@));
            let ghost before = string_rows(out@);
            out.push(row);
            assert(string_rows(out@) =~= before.push(text_rows(g@)[i as int]));
            i += 1;
            assert(string_rows(out@) =~= text_rows(g@).take(i as int));
        }
        assert(text_rows(g@).take(g@.len() as int) =~= text_rows(g@));
        out
    }

    /// GitHub pipe table; the alignment line follows the first row.
    pub fn to_markdown(&self) -> (out: String)
        requires
            grid_fits(table_v(*self)),
        ensures
            out@ == markdown_spec(table_v(*self)),
    {
        let grid = self.plain_rows_chars();
        let ghost gs = text_rows(grid@);
        if grid.len() == 0 {
            return String::new();
        }
        let width = max_len_text(&grid);
        if width == 0 {
            return String::new();
        }
        let mut out: Vec<char> = Vec::new();
        let mut i: usize = 0;
        while i < grid.len()
            invariant
                i <= grid@.len(),
                gs == text_rows(grid@),
                width == max_len(gs),
                out@ == md_lines(gs, width as int, i as int),
            decreases grid@.len() - i,
        {
            let line = md_row_exec(&grid[i], width);
            assert(views(grid@[i as int]@) == gs[i as int]);
            push_all(&mut out, &line);
            if i == 0 {
                out.push('|');
                let mut k: usize = 0;
                let ghost base = out@;
                assert(out@ =~= base + md_align(0));
                while k < width
                    invariant
                        k <= width,
                        out@ == base + md_align(k as int),
                    decreases width - k,
                {
                    let cellv = vec![' ', ':', '-', '-', '-', ' ', '|'];
                    assert(cellv@ =~= seq![' ', ':', '-', '-', '-', ' ', '|']);
                    push_all(&mut out, &cellv);
                    k += 1;
                    assert(out@ =~= base + md_align(k as int));
                }
                out.push('\n');
            }
            i += 1;
            assert(out@ =~= md_lines(gs, width as int, i as int));
        }
        string_of(&out)
    }

    /// Tab-separated rows.
    pub fn to_tsv(&self) -> (out: String)
        requires
            grid_fits(table_v(*self)),
        ensures
            out@ == tsv_spec(table_v(*self)),
    {
        let grid = self.plain_rows_chars();
        let ghost gs = text_rows(grid@);
        let ghost target = gs.map_values(|row: Seq<Seq<char>>| join(row, seq!['\t']));
        let tab = vec!['\t'];
        assert(tab@ =~= seq!['\t']);
        let mut lines: Vec<Vec<char>> = Vec::new();
        let mut i: usize = 0;
        assert(views(lines@) =~= target.take(0));
        while i < grid.len()
            invariant
                i <= grid@.len(),
                gs == text_rows(grid@),
                tab@ == seq!['\t'],
                target == gs.map_values(|row: Seq<Seq<char>>| join(row, seq!['\t'])),
                views(lines@) == target.take(i as int),
            decreases grid@.len() - i,
        {
            let line = join_exec(&grid[i], &tab);
            assert(views(grid@[i as int]@) == gs[i as int]);
            let ghost before = views(lines@);
            lines.push(line);
            assert(views(lines@) =~= before.push(target[i as int]));
            i += 1;
            assert(views(lines@) =~= target.take(i as int));
        }
        assert(target.take(grid@.len() as int) =~= target);
        let nl = vec!['\n'];
        assert(nl@ =~= seq!['\n']);
        let out = join_exec(&lines, &nl);
        string_of(&out)
    }
}

fn latex_origin_exec(text: &String, rowspan: usize, colspan: usize) -> (out: Vec<char>)
    ensures
        out@ == latex_origin(text@, rowspan, colspan),
{
    let tv = crate::text::chars_of(text.as_str());
    let b0 = latex_cell(&tv);
    let b1 = if rowspan > 1 {
        let mut v = vec!['\\', 'm', 'u', 'l', 't', 'i', 'r', 'o', 'w', '{'];
        let d = dec_exec(rowspan as u64);
        push_all(&mut v, &d);
        let mid = vec!['}', '{', '*', '}', '{'];
        push_all(&mut v, &mid);
        push_all(&mut v, &b0);
        v.push('}');
        v
    } else {
        b0
    };
    if colspan > 1 {
        let mut v = vec!['\\', 'm', 'u', 'l', 't', 'i', 'c', 'o', 'l', 'u', 'm', 'n', '{'];
        let d = dec_exec(colspan as u64);
        push_all(&mut v, &d);
        let mid = vec!['}', '{', '|', 'c', '|', '}', '{'];
        push_all(&mut v, &mid);
        push_all(&mut v, &b1);
        v.push('}');
        v
    } else {
        b1
    }
}

fn latex_row_exec(row: &Vec<Slot>, width: usize) -> (out: Vec<char>)
    ensures
        out@ == latex_line(slot_row(row@), width as int),
{
    let mut cells: Vec<Vec<char>> = Vec::new();
    let mut c: usize = 0;
    assert(views(cells@) + latex_cells(slot_row(row@), width as int, 0) =~= latex_cells(slot_row(row@), width as int, 0));
    while c < width
        invariant
            c <= width,
            views(cells@) + latex_cells(slot_row(row@), width as int, c as int) == latex_cells(
                slot_row(row@),
                width as int,
                0,
            ),
        decreases width - c,
    {
        let ghost before = views(cells@);
        if c < row.len() {
            match &row[c] {
                Slot::ColSpan => {
                    c += 1;
                },
                Slot::RowSpan => {
                    cells.push(Vec::new());
                    assert(views(cells@) =~= before + seq![Seq::<char>::empty()]);
                    c += 1;
                },
                Slot::Origin { text, rowspan, colspan } => {
                    let body = latex_origin_exec(text, *rowspan, *colspan);
                    cells.push(body);
                    assert(views(cells@) =~= before + seq![latex_origin(text@, *rowspan, *colspan)]);
                    let step = if *colspan == 0 { 1 } else { *colspan };
                    if step >= width - c {
                        c = width;
                    } else {
                        c += step;
                    }
                },
            }
        } else {
            cells.push(Vec::new());
            assert(views(cells@) =~= before + seq![Seq::<char>::empty()]);
            c += 1;
        }
        assert(views(cells@) + latex_cells(slot_row(row@), width as int, c as int) =~= latex_cells(
            slot_row(row@),
            width as int,
            0,
        ));
    }
    assert(views(cells@) + Seq::<Seq<char>>::empty() =~= views(cells@));
    let sep = vec![' ', '&', ' '];
    assert(sep@ =~= seq![' ', '&', ' ']);
    let mut out = join_exec(&cells, &sep);
    let tail = vec![' ', '\\', '\\', '\n', '\\', 'h', 'l', 'i', 'n', 'e', '\n'];
    push_all(&mut out, &tail);
    out
}

impl Table {
    /// `tabular` with `\multirow` / `\multicolumn` for spanning cells.
    pub fn to_latex(&self) -> (out: String)
        requires
            grid_fits(table_v(*self)),
        ensures
            out@ == latex_spec(table_v(*self)),
    {
        let slots = self.slot_grid();
        let ghost sv = slot_rows(slots@);
        if slots.len() == 0 {
            return String::new();
        }
        let width = max_len_slots(&slots);
        if width == 0 {
            return String::new();
        }
        let mut out = vec![
            '\\', 'b', 'e', 'g', 'i', 'n', '{', 't', 'a', 'b', 'u', 'l', 'a', 'r', '}', '[', 't',
            ']', '{', '|',
        ];
        out.push('l');
        let mut k: usize = 1;
        while k < width
            invariant
                1 <= k <= width,
                out@ == seq![
                    '\\', 'b', 'e', 'g', 'i', 'n', '{', 't', 'a', 'b', 'u', 'l', 'a', 'r', '}', '[', 't',
                    ']', '{', '|',
                ] + col_spec(k as int),
            decreases width - k,
        {
            out.push('|');
            out.push('l');
            k += 1;
        }
        let head_tail = vec!['|', '}', '\n', '\\', 'h', 'l', 'i', 'n', 'e', '\n'];
        push_all(&mut out, &head_tail);
        let ghost head = out@;
        let mut i: usize = 0;
        assert(out@ =~= head + latex_lines(sv, width as int, 0));
        while i < slots.len()
            invariant
                i <= slots@.len(),
                sv == slot_rows(slots@),
                out@ == head + latex_lines(sv, width as int, i as int),
            decreases slots@.len() - i,
        {
            let line = latex_row_exec(&slots[i], width);
            push_all(&mut out, &line);
            i += 1;
            assert(out@ =~= head + latex_lines(sv, width as int, i as int));
        }
        let end = vec!['\\', 'e', 'n', 'd', '{', 't', 'a', 'b', 'u', 'l', 'a', 'r', '}'];
        push_all(&mut out, &end);
        string_of(&out)
    }
}

// ------------------------------------------------------------ HTML output

/// ` rowspan="n"` / ` colspan="n"` for spans above one.
pub open spec fn html_attrs(cell: CellView) -> Seq<char> {
    let a = if cell.1 > 1 {
        seq![' ', 'r', 'o', 'w', 's', 'p', 'a', 'n', '=', '"'] + dec(cell.1 as nat) + seq!['"']
    } else {
        Seq::empty()
    };
    let b = if cell.2 > 1 {
        seq![' ', 'c', 'o', 'l', 's', 'p', 'a', 'n', '=', '"'] + dec(cell.2 as nat) + seq!['"']
    } else {
        Seq::empty()
    };
    a + b
}

pub open spec fn html_cell(cell: CellView) -> Seq<char> {
    seq!['<', 't', 'd'] + html_attrs(cell) + seq!['>'] + html_escape_spec(cell.0) + seq![
        '<',
        '/',
        't',
        'd',
        '>',
    ]
}

pub open spec fn html_cells(cells: Seq<CellView>, k: int) -> Seq<char>
    decreases k,
{
    if k <= 0 {
        Seq::empty()
    } else {
        html_cells(cells, k - 1) + html_cell(cells[k - 1])
    }
}

pub open spec fn html_rows(rows: Seq<Seq<CellView>>, m: int) -> Seq<char>
    decreases m,
{
    if m <= 0 {
        Seq::empty()
    } else {
        html_rows(rows, m - 1) + seq!['<', 't', 'r', '>'] + html_cells(rows[m - 1], rows[m - 1].len() as int)
            + seq!['<', '/', 't', 'r', '>']
    }
}

pub open spec fn html_spec(rows: Seq<Seq<CellView>>) -> Seq<char> {
    seq!['<', 't', 'a', 'b', 'l', 'e', '>'] + html_rows(rows, rows.len() as int) + seq![
        '<',
        '/',
        't',
        'a',
        'b',
        'l',
        'e',
        '>',
    ]
}

fn html_cell_exec(cell: &Cell) -> (out: Vec<char>)
    ensures
        out@ == html_cell(cell_v(*cell)),
{
    let mut out = vec!['<', 't', 'd'];
    if cell.rowspan > 1 {
        let head = vec![' ', 'r', 'o', 'w', 's', 'p', 'a', 'n', '=', '"'];
        push_all(&mut out, &head);
        let d = dec_exec(cell.rowspan as u64);
        push_all(&mut out, &d);
        out.push('"');
    }
    if cell.colspan > 1 {
        let head = vec![' ', 'c', 'o', 'l', 's', 'p', 'a', 'n', '=', '"'];
        push_all(&mut out, &head);
        let d = dec_exec(cell.colspan as u64);
        push_all(&mut out, &d);
        out.push('"');
    }
    out.push('>');
    let tv = crate::text::chars_of(cell.text.as_str());
    let esc = html_escape(&tv);
    push_all(&mut out, &esc);
    let close = vec!['<', '/', 't', 'd', '>'];
    push_all(&mut out, &close);
    out
}

impl Table {
    /// `<table>` markup with `rowspan` / `colspan` attributes and escaped text.
    pub fn to_html(&self) -> (out: String)
        ensures
            out@ == html_spec(table_v(*self)),
    {
        let ghost rows = table_v(*self);
        let mut out = vec!['<', 't', 'a', 'b', 'l', 'e', '>'];
        let ghost head = out@;
        let mut r: usize = 0;
        assert(out@ =~= head + html_rows(rows, 0));
        while r < self.rows.len()
            invariant
                rows == table_v(*self),
                r <= rows.len(),
                out@ == head + html_rows(rows, r as int),
            decreases rows.len() - r,
        {
            let row = &self.rows[r];
            assert(row@.map_values(|c: Cell| cell_v(c)) == rows[r as int]);
            let open = vec!['<', 't', 'r', '>'];
            push_all(&mut out, &open);
            let ghost line_head = out@;
            let mut k: usize = 0;
            assert(out@ =~= line_head + html_cells(rows[r as int], 0));
            while k < row.len()
                invariant
                    row@.map_values(|c: Cell| cell_v(c)) == rows[r as int],
                    k <= row@.len(),
                    out@ == line_head + html_cells(rows[r as int], k as int),
                decreases row@.len() - k,
            {
                let piece = html_cell_exec(&row[k]);
                assert(rows[r as int][k as int] == cell_v(row@[k as int]));
                push_all(&mut out, &piece);
                k += 1;
                assert(out@ =~= line_head + html_cells(rows[r as int], k as int));
            }
            let close = vec!['<', '/', 't', 'r', '>'];
            push_all(&mut out, &close);
            r += 1;
            assert(out@ =~= head + html_rows(rows, r as int));
        }
        let end = vec!['<', '/', 't', 'a', 'b', 'l', 'e', '>'];
        push_all(&mut out, &end);
        string_of(&out)
    }
}

/// Whether the grid of `t` can be built with `usize` positions.
pub fn table_fits(t: &Table) -> (b: bool)
    ensures
        b == grid_fits(table_v(*t)),
{
    let ghost rows = table_v(*t);
    let mut total: u128 = 0;
    let mut r: usize = 0;
    while r < t.rows.len()
        invariant
            rows == table_v(*t),
            r <= rows.len(),
            total == rows_cost(rows, r as int),
            total <= usize::MAX,
            forall|i: int, k: int|
                0 <= i < r && 0 <= k < rows[i].len() ==> i + span(#[trigger] rows[i][k].1)
                    <= usize::MAX,
        decreases rows.len() - r,
    {
        let row = &t.rows[r];
        assert(row@.map_values(|c: Cell| cell_v(c)) == rows[r as int]);
        let mut k: usize = 0;
        let mut sub: u128 = 0;
        while k < row.len()
            invariant
                rows == table_v(*t),
                row@.map_values(|c: Cell| cell_v(c)) == rows[r as int],
                k <= row@.len(),
                r < rows.len(),
                sub == cells_cost(rows[r as int], k as int),
                total == rows_cost(rows, r as int),
                total + sub <= usize::MAX,
                total <= usize::MAX,
                forall|j: int| 0 <= j < k ==> r + span(#[trigger] rows[r as int][j].1) <= usize::MAX,
            decreases row@.len() - k,
        {
            let cell = &row[k];
            let rs = if cell.rowspan == 0 { 1 } else { cell.rowspan };
            if rs > usize::MAX - r {
                assert(rows[r as int][k as int] == cell_v(*cell));
                assert(!(r + span(rows[r as int][k as int].1) <= usize::MAX));
                return false;
            }
            let cs = if cell.colspan == 0 { 1 } else { cell.colspan };
            sub = sub + (cs as u128) + 1;
            assert(rows[r as int][k as int] == cell_v(*cell));
            assert(sub == cells_cost(rows[r as int], k + 1));
            if total + sub > usize::MAX as u128 {
                proof {
                    assert(rows_cost(rows, r + 1) == rows_cost(rows, r as int) + cells_cost(
                        rows[r as int],
                        rows[r as int].len() as int,
                    ));
                    lemma_cells_cost_mono(rows[r as int], k + 1, rows[r as int].len() as int);
                    lemma_rows_cost_mono(rows, r + 1, rows.len() as int);
                    assert(rows_cost(rows, rows.len() as int) > usize::MAX);
                    assert(!grid_fits(rows));
                }
                return false;
            }
            k += 1;
        }
        total = total + sub;
        r += 1;
    }
    true
}

} // verus!
