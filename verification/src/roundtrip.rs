//! Reading back what `Table::to_latex` writes: for a rectangular table of
//! plain one-slot cells, `parse_tabular` gives the table again.

use vstd::prelude::*;
use crate::cells::{escape_latex, is_list, latex_cell_spec, latex_escape_char};
use crate::tabular::{
    begin_tabular, brace_close, end_tabular, find_from, hline, multicolumn, multirow, parse_cell,
    parse_rows, parse_tabular_spec, skip_colspec, skip_optional_pos, split_braced, split_rows,
    strip_suffix, parse_command, parse_row, shortstack, split_align_aware,
    split_cells_go, split_rows_go, strip_prefix, unwrap_shortstack,
};
use crate::text::{ends_with, is_ws, join, lemma_join_ends, lemma_trim_fixed, replace_all, starts_with, trim, trim_end, trim_start, trimmed};
use crate::table::{
    col_spec, ensure, fill_cols, fill_rows, finalize, first_free, latex_cells, latex_line,
    latex_lines, latex_origin, latex_spec, mark, max_len,
    pad_row, pad_rows, place_cell, place_cells, place_rows, slot_for, slot_grid_spec, span,
    CellView, Grid, SlotView,
};

verus! {

// ------------------------------------------------------------ the grid

/// A table whose `m` rows all hold `n >= 1` cells of one slot each.
pub open spec fn unit_grid(rows: Seq<Seq<CellView>>, n: int) -> bool {
    &&& n >= 1
    &&& forall|r: int| 0 <= r < rows.len() ==> #[trigger] rows[r].len() == n
    &&& forall|r: int, c: int|
        0 <= r < rows.len() && 0 <= c < n ==> #[trigger] rows[r][c].1 == 1 && rows[r][c].2 == 1
}

pub open spec fn origin_of(cell: CellView) -> SlotView {
    SlotView::Origin { text: cell.0, rowspan: 1, colspan: 1 }
}

/// The first `j` cells of a row, placed.
pub open spec fn placed_prefix(cells: Seq<CellView>, j: int) -> Seq<Option<SlotView>> {
    Seq::new(j as nat, |c: int| Some(origin_of(cells[c])))
}

/// The first `k` rows, placed.
pub open spec fn placed_rows(rows: Seq<Seq<CellView>>, k: int, n: int) -> Grid {
    Seq::new(k as nat, |r: int| placed_prefix(rows[r], n))
}

proof fn lemma_place_one(h: Grid, r: int, cells: Seq<CellView>, j: int)
    requires
        0 <= r,
        h.len() == r + 1,
        h[r] == placed_prefix(cells, j),
        0 <= j < cells.len(),
        cells[j].1 == 1,
        cells[j].2 == 1,
    ensures
        place_cell(h, r, j, cells[j]) == (h.update(r, placed_prefix(cells, j + 1)), j + 1),
{
    let cell = cells[j];
    let row = placed_prefix(cells, j);
    assert(pad_rows(h, r + 1) == h);
    assert(pad_row(row, j + 1) =~= row.push(None::<SlotView>));
    let g0 = ensure(h, r, j);
    assert(g0 == h.update(r, row.push(None::<SlotView>)));
    assert(g0[r] == row.push(None::<SlotView>));
    assert(first_free(g0[r], j) == j);
    assert(pad_rows(g0, r + 1) == g0);
    assert(pad_row(g0[r], j + 1) == g0[r]);
    assert(g0.update(r, g0[r]) =~= g0);
    let g1 = ensure(g0, r, j);
    assert(g1 == g0);
    assert(fill_rows(g1, r, j, 0, cell) == g1);
    assert(pad_rows(g1, r + 1) == g1);
    assert(fill_cols(g1, r, j, 0, 0, cell) == g1);
    assert(slot_for(cell, 0, 0) == origin_of(cell));
    assert(ensure(g1, r, j) == g1);
    assert(mark(g1, r, j, origin_of(cell)) == g1.update(r, g1[r].update(j, Some(origin_of(cell)))));
    assert(g1[r].update(j, Some(origin_of(cell))) =~= placed_prefix(cells, j + 1));
    assert(fill_cols(g1, r, j, 0, 1, cell) == mark(g1, r, j, origin_of(cell)));
    assert(fill_rows(g1, r, j, 1, cell) == fill_cols(g1, r, j, 0, 1, cell));
    assert(span(cell.1) == 1);
    assert(span(cell.2) == 1);
    assert(g0.update(r, placed_prefix(cells, j + 1)) =~= h.update(r, placed_prefix(cells, j + 1)));
}

proof fn lemma_place_row(h: Grid, r: int, cells: Seq<CellView>, j: int)
    requires
        0 <= r,
        h.len() == r + 1,
        h[r] == Seq::<Option<SlotView>>::empty(),
        0 <= j <= cells.len(),
        forall|c: int| 0 <= c < cells.len() ==> #[trigger] cells[c].1 == 1 && cells[c].2 == 1,
    ensures
        place_cells(h, r, cells, j) == (h.update(r, placed_prefix(cells, j)), j),
    decreases j,
{
    if j == 0 {
        assert(placed_prefix(cells, 0) =~= Seq::<Option<SlotView>>::empty());
        assert(h.update(r, Seq::<Option<SlotView>>::empty()) =~= h);
    } else {
        lemma_place_row(h, r, cells, j - 1);
        let h1 = h.update(r, placed_prefix(cells, j - 1));
        assert(cells[j - 1].1 == 1 && cells[j - 1].2 == 1);
        assert(h1.len() == r + 1 && h1[r] == placed_prefix(cells, j - 1));
        lemma_place_one(h1, r, cells, j - 1);
        assert(h1.update(r, placed_prefix(cells, j)) =~= h.update(r, placed_prefix(cells, j)));
    }
}

proof fn lemma_place_rows(rows: Seq<Seq<CellView>>, n: int, k: int)
    requires
        unit_grid(rows, n),
        0 <= k <= rows.len(),
    ensures
        place_rows(rows, k) == placed_rows(rows, k, n),
    decreases k,
{
    if k == 0 {
        assert(placed_rows(rows, 0, n) =~= Seq::<Seq<Option<SlotView>>>::empty());
    } else {
        lemma_place_rows(rows, n, k - 1);
        let prev = placed_rows(rows, k - 1, n);
        let h = pad_rows(prev, k);
        assert(h =~= prev.push(Seq::<Option<SlotView>>::empty()));
        let cells = rows[k - 1];
        assert(cells.len() == n);
        assert forall|c: int| 0 <= c < cells.len() implies #[trigger] cells[c].1 == 1 && cells[c].2 == 1 by {
            assert(rows[k - 1][c].1 == 1 && rows[k - 1][c].2 == 1);
        }
        lemma_place_row(h, k - 1, cells, n);
        assert(h.update(k - 1, placed_prefix(cells, n)) =~= placed_rows(rows, k, n));
    }
}

/// The grid of a table of one-slot cells: every cell is an origin where it
/// stands.
pub proof fn lemma_unit_slot_grid(rows: Seq<Seq<CellView>>, n: int)
    requires
        unit_grid(rows, n),
        rows.len() > 0,
    ensures
        slot_grid_spec(rows) == Seq::new(
            rows.len(),
            |r: int| Seq::new(n as nat, |c: int| origin_of(rows[r][c])),
        ),
{
    lemma_place_rows(rows, n, rows.len() as int);
    let g = placed_rows(rows, rows.len() as int, n);
    assert forall|r: int| 0 <= r < rows.len() implies #[trigger] finalize(g)[r] == Seq::new(
        n as nat,
        |c: int| origin_of(rows[r][c]),
    ) by {
        assert(finalize(g)[r] =~= Seq::new(n as nat, |c: int| origin_of(rows[r][c])));
    }
    assert(finalize(g) =~= Seq::new(
        rows.len(),
        |r: int| Seq::new(n as nat, |c: int| origin_of(rows[r][c])),
    ));
}


// ------------------------------------------------------------ text pieces

/// Every character of `s` is white space.
pub open spec fn all_ws(s: Seq<char>) -> bool {
    forall|i: int| 0 <= i < s.len() ==> is_ws(#[trigger] s[i])
}

/// None of the characters the row scanner reacts to: braces and backslash.
pub open spec fn unbraced(s: Seq<char>) -> bool {
    forall|i: int| 0 <= i < s.len() ==> #[trigger] s[i] != '{' && s[i] != '}' && s[i] != '\\'
}

/// None of the characters the cell scanner reacts to: braces, backslash, `&`.
pub open spec fn inert(s: Seq<char>) -> bool {
    forall|i: int|
        0 <= i < s.len() ==> #[trigger] s[i] != '{' && s[i] != '}' && s[i] != '\\' && s[i] != '&'
}

proof fn lemma_trim_start_ws(w: Seq<char>, x: Seq<char>)
    requires
        all_ws(w),
    ensures
        trim_start(w + x) == trim_start(x),
    decreases w.len(),
{
    if w.len() > 0 {
        assert((w + x)[0] == w[0]);
        assert((w + x).drop_first() =~= w.drop_first() + x);
        lemma_trim_start_ws(w.drop_first(), x);
    } else {
        assert(w + x =~= x);
    }
}

proof fn lemma_trim_end_ws(x: Seq<char>, w: Seq<char>)
    requires
        all_ws(w),
    ensures
        trim_end(x + w) == trim_end(x),
    decreases w.len(),
{
    if w.len() > 0 {
        assert((x + w).last() == w.last());
        assert((x + w).drop_last() =~= x + w.drop_last());
        lemma_trim_end_ws(x, w.drop_last());
    } else {
        assert(x + w =~= x);
    }
}

/// Text with no white space at its ends, wrapped in white space, trims back
/// to itself.
pub proof fn lemma_trim_wrapped(w1: Seq<char>, j: Seq<char>, w2: Seq<char>)
    requires
        all_ws(w1),
        all_ws(w2),
        j.len() > 0,
        !is_ws(j[0]),
        !is_ws(j.last()),
    ensures
        trim(w1 + j + w2) == j,
{
    assert(w1 + j + w2 =~= w1 + (j + w2));
    lemma_trim_start_ws(w1, j + w2);
    assert((j + w2)[0] == j[0]);
    assert(trim_start(j + w2) == j + w2);
    lemma_trim_end_ws(j, w2);
    assert(trim_end(j) == j);
}

/// Text without a backslash passes `\hline` removal unchanged.
proof fn lemma_replace_inert(a: Seq<char>, b: Seq<char>, pat: Seq<char>, rep: Seq<char>)
    requires
        pat.len() > 0,
        pat[0] == '\\',
        forall|i: int| 0 <= i < a.len() ==> #[trigger] a[i] != '\\',
    ensures
        replace_all(a + b, pat, rep) == a + replace_all(b, pat, rep),
    decreases a.len(),
{
    if a.len() > 0 {
        assert((a + b)[0] == a[0]);
        assert(!starts_with(a + b, pat)) by {
            if starts_with(a + b, pat) {
                assert((a + b).take(pat.len() as int)[0] == pat[0]);
            }
        }
        assert((a + b).drop_first() =~= a.drop_first() + b);
        lemma_replace_inert(a.drop_first(), b, pat, rep);
        assert(seq![a[0]] + (a.drop_first() + replace_all(b, pat, rep)) =~= a + replace_all(b, pat, rep));
    } else {
        assert(a + b =~= b);
        assert(a + replace_all(b, pat, rep) =~= replace_all(b, pat, rep));
    }
}

/// The row splitter read from index `i` is the splitter of what follows.
proof fn lemma_rows_shift(s: Seq<char>, i: int, rows: Seq<Seq<char>>, buf: Seq<char>, d: nat)
    requires
        0 <= i <= s.len(),
    ensures
        split_rows_go(s, i, rows, buf, d) == split_rows_go(s.skip(i), 0, rows, buf, d),
    decreases s.len() - i,
{
    let t = s.skip(i);
    if i < s.len() {
        assert(t[0] == s[i]);
        lemma_rows_shift(s, i + 1, rows, buf.push(s[i]), d + 1);
        lemma_rows_shift(s, i + 1, rows, buf.push(s[i]), if d > 0 { (d - 1) as nat } else { 0 });
        lemma_rows_shift(s, i + 1, rows, buf.push(s[i]), d);
        lemma_rows_shift(t, 1, rows, buf.push(s[i]), d + 1);
        lemma_rows_shift(t, 1, rows, buf.push(s[i]), if d > 0 { (d - 1) as nat } else { 0 });
        lemma_rows_shift(t, 1, rows, buf.push(s[i]), d);
        assert(t.skip(1) =~= s.skip(i + 1));
        if i + 1 < s.len() {
            assert(t[1] == s[i + 1]);
            lemma_rows_shift(s, i + 2, rows.push(buf), Seq::empty(), d);
            lemma_rows_shift(t, 2, rows.push(buf), Seq::empty(), d);
            assert(t.skip(2) =~= s.skip(i + 2));
        }
    }
}

/// Text without braces or backslashes joins the row being read.
proof fn lemma_rows_inert(a: Seq<char>, b: Seq<char>, rows: Seq<Seq<char>>, buf: Seq<char>)
    requires
        unbraced(a),
    ensures
        split_rows_go(a + b, 0, rows, buf, 0) == split_rows_go(b, 0, rows, buf + a, 0),
    decreases a.len(),
{
    if a.len() > 0 {
        let s = a + b;
        assert(s[0] == a[0]);
        assert(unbraced(a.drop_first())) by {
            assert forall|i: int| 0 <= i < a.drop_first().len() implies #[trigger] a.drop_first()[i] != '{'
                && a.drop_first()[i] != '}' && a.drop_first()[i] != '\\' by {
                assert(a.drop_first()[i] == a[i + 1]);
            }
        }
        lemma_rows_shift(s, 1, rows, buf.push(a[0]), 0);
        assert(s.skip(1) =~= a.drop_first() + b);
        lemma_rows_inert(a.drop_first(), b, rows, buf.push(a[0]));
        assert(buf.push(a[0]) + a.drop_first() =~= buf + a);
    } else {
        assert(a + b =~= b);
        assert(buf + a =~= buf);
    }
}

/// `\\` ends the row being read.
proof fn lemma_rows_break(b: Seq<char>, rows: Seq<Seq<char>>, buf: Seq<char>)
    ensures
        split_rows_go(seq!['\\', '\\'] + b, 0, rows, buf, 0) == split_rows_go(
            b,
            0,
            rows.push(buf),
            Seq::empty(),
            0,
        ),
{
    let s = seq!['\\', '\\'] + b;
    assert(s[0] == '\\' && s[1] == '\\');
    lemma_rows_shift(s, 2, rows.push(buf), Seq::empty(), 0);
    assert(s.skip(2) =~= b);
}

/// The cell splitter read from index `i` is the splitter of what follows.
proof fn lemma_cells_shift(
    s: Seq<char>,
    sep: char,
    i: int,
    cells: Seq<Seq<char>>,
    buf: Seq<char>,
    d: nat,
)
    requires
        0 <= i <= s.len(),
    ensures
        split_cells_go(s, sep, i, cells, buf, d) == split_cells_go(s.skip(i), sep, 0, cells, buf, d),
    decreases s.len() - i,
{
    let t = s.skip(i);
    if i < s.len() {
        assert(t[0] == s[i]);
        assert(t.skip(1) =~= s.skip(i + 1));
        lemma_cells_shift(s, sep, i + 1, cells, buf.push(s[i]), d + 1);
        lemma_cells_shift(s, sep, i + 1, cells, buf.push(s[i]), if d > 0 { (d - 1) as nat } else { 0 });
        lemma_cells_shift(s, sep, i + 1, cells, buf.push(s[i]), d);
        lemma_cells_shift(s, sep, i + 1, cells.push(buf), Seq::empty(), d);
        lemma_cells_shift(t, sep, 1, cells, buf.push(s[i]), d + 1);
        lemma_cells_shift(t, sep, 1, cells, buf.push(s[i]), if d > 0 { (d - 1) as nat } else { 0 });
        lemma_cells_shift(t, sep, 1, cells, buf.push(s[i]), d);
        lemma_cells_shift(t, sep, 1, cells.push(buf), Seq::empty(), d);
    }
}

/// Inert text joins the cell being read.
proof fn lemma_cells_inert(a: Seq<char>, b: Seq<char>, cells: Seq<Seq<char>>, buf: Seq<char>)
    requires
        inert(a),
    ensures
        split_cells_go(a + b, '&', 0, cells, buf, 0) == split_cells_go(b, '&', 0, cells, buf + a, 0),
    decreases a.len(),
{
    if a.len() > 0 {
        let s = a + b;
        assert(s[0] == a[0]);
        assert(inert(a.drop_first())) by {
            assert forall|i: int| 0 <= i < a.drop_first().len() implies #[trigger] a.drop_first()[i] != '{'
                && a.drop_first()[i] != '}' && a.drop_first()[i] != '\\' && a.drop_first()[i] != '&' by {
                assert(a.drop_first()[i] == a[i + 1]);
            }
        }
        lemma_cells_shift(s, '&', 1, cells, buf.push(a[0]), 0);
        assert(s.skip(1) =~= a.drop_first() + b);
        lemma_cells_inert(a.drop_first(), b, cells, buf.push(a[0]));
        assert(buf.push(a[0]) + a.drop_first() =~= buf + a);
    } else {
        assert(a + b =~= b);
        assert(buf + a =~= buf);
    }
}

/// `&` ends the cell being read.
proof fn lemma_cells_sep(b: Seq<char>, cells: Seq<Seq<char>>, buf: Seq<char>)
    ensures
        split_cells_go(seq!['&'] + b, '&', 0, cells, buf, 0) == split_cells_go(
            b,
            '&',
            0,
            cells.push(buf),
            Seq::empty(),
            0,
        ),
{
    let s = seq!['&'] + b;
    assert(s[0] == '&');
    lemma_cells_shift(s, '&', 1, cells.push(buf), Seq::empty(), 0);
    assert(s.skip(1) =~= b);
}


// ------------------------------------------------------------ cell texts

/// A cell text that the LaTeX output carries as it is and that reads back
/// as it is: not empty, no white space at its ends, not a list, and none of
/// `\ { } % & $ # _ ~ ^` or a newline.
pub open spec fn plain_text(t: Seq<char>) -> bool {
    &&& t.len() > 0
    &&& !is_ws(t[0])
    &&& !is_ws(t.last())
    &&& !is_list(t)
    &&& forall|i: int|
        0 <= i < t.len() ==> {
            let c = #[trigger] t[i];
            c != '\\' && c != '{' && c != '}' && c != '%' && c != '&' && c != '$' && c != '#'
                && c != '_' && c != '~' && c != '^' && c != '\n'
        }
}

proof fn lemma_escape_plain(t: Seq<char>)
    requires
        forall|i: int|
            0 <= i < t.len() ==> {
                let c = #[trigger] t[i];
                c != '\\' && c != '{' && c != '}' && c != '%' && c != '&' && c != '$' && c != '#'
                    && c != '_' && c != '~' && c != '^' && c != '\n'
            },
    ensures
        escape_latex(t) == t,
    decreases t.len(),
{
    if t.len() > 0 {
        let c = t.last();
        assert(t[t.len() - 1] == c);
        assert(latex_escape_char(c) == seq![c]);
        assert forall|i: int| 0 <= i < t.drop_last().len() implies {
            let c = #[trigger] t.drop_last()[i];
            c != '\\' && c != '{' && c != '}' && c != '%' && c != '&' && c != '$' && c != '#'
                && c != '_' && c != '~' && c != '^' && c != '\n'
        } by {
            assert(t.drop_last()[i] == t[i]);
        }
        lemma_escape_plain(t.drop_last());
        assert(t.drop_last() + seq![c] =~= t);
    }
}

/// A plain cell is written as it is.
pub proof fn lemma_latex_cell_plain(t: Seq<char>)
    requires
        plain_text(t),
    ensures
        latex_cell_spec(t) == t,
        latex_origin(t, 1, 1) == t,
{
    assert(trimmed(t));
    lemma_trim_fixed(t);
    assert(!t.contains('$')) by {
        if t.contains('$') {
            let i = choose|i: int| 0 <= i < t.len() && t[i] == '$';
            assert(t[i] != '$');
        }
    }
    lemma_escape_plain(t);
}

/// The texts of a row of cells.
pub open spec fn texts(cells: Seq<CellView>) -> Seq<Seq<char>> {
    cells.map_values(|c: CellView| c.0)
}

proof fn lemma_latex_cells(cells: Seq<CellView>, n: int, c: int)
    requires
        cells.len() == n,
        0 <= c <= n,
        forall|k: int| 0 <= k < n ==> plain_text(#[trigger] cells[k].0),
    ensures
        latex_cells(Seq::new(n as nat, |k: int| origin_of(cells[k])), n, c) == texts(cells).skip(c),
    decreases n - c,
{
    let row = Seq::new(n as nat, |k: int| origin_of(cells[k]));
    if c >= n {
        assert(texts(cells).skip(c) =~= Seq::<Seq<char>>::empty());
    } else {
        assert(row[c] == origin_of(cells[c]));
        lemma_latex_cell_plain(cells[c].0);
        lemma_latex_cells(cells, n, c + 1);
        if c + 1 >= n {
            assert(texts(cells).skip(c) =~= seq![cells[c].0]);
        } else {
            assert(texts(cells).skip(c) =~= seq![cells[c].0] + texts(cells).skip(c + 1));
        }
    }
}

/// The widest row of a grid whose rows are all `n` long is `n` long.
proof fn lemma_max_len_even<T>(g: Seq<Seq<T>>, n: nat)
    requires
        g.len() > 0,
        forall|r: int| 0 <= r < g.len() ==> #[trigger] g[r].len() == n,
    ensures
        max_len(g) == n,
    decreases g.len(),
{
    assert(g.last().len() == n);
    if g.len() > 1 {
        let h = g.drop_last();
        assert forall|r: int| 0 <= r < h.len() implies #[trigger] h[r].len() == n by {
            assert(h[r] == g[r]);
        }
        lemma_max_len_even(h, n);
    } else {
        assert(max_len(g.drop_last()) == 0);
    }
}

// ------------------------------------------------------------ joined rows

/// `sep` followed by each piece, in order.
pub open spec fn cat_sep(xs: Seq<Seq<char>>, sep: Seq<char>) -> Seq<char>
    decreases xs.len(),
{
    if xs.len() == 0 {
        Seq::empty()
    } else {
        sep + xs[0] + cat_sep(xs.drop_first(), sep)
    }
}

proof fn lemma_cat_sep_push(xs: Seq<Seq<char>>, x: Seq<char>, sep: Seq<char>)
    ensures
        cat_sep(xs.push(x), sep) == cat_sep(xs, sep) + sep + x,
    decreases xs.len(),
{
    if xs.len() == 0 {
        assert(xs.push(x).drop_first() =~= Seq::<Seq<char>>::empty());
        assert(xs.push(x)[0] == x);
        assert(cat_sep(Seq::<Seq<char>>::empty(), sep) =~= Seq::<char>::empty());
        assert(cat_sep(xs, sep) =~= Seq::<char>::empty());
        assert(sep + x + Seq::<char>::empty() =~= Seq::<char>::empty() + sep + x);
    } else {
        assert(xs.push(x).drop_first() =~= xs.drop_first().push(x));
        lemma_cat_sep_push(xs.drop_first(), x, sep);
        assert(xs.push(x)[0] == xs[0]);
        assert(sep + xs[0] + (cat_sep(xs.drop_first(), sep) + sep + x) =~= sep + xs[0] + cat_sep(
            xs.drop_first(),
            sep,
        ) + sep + x);
    }
}

/// `join` read from the front: the first piece, then `sep` and each other.
proof fn lemma_join_front(ts: Seq<Seq<char>>, sep: Seq<char>)
    requires
        ts.len() >= 1,
    ensures
        join(ts, sep) == ts[0] + cat_sep(ts.drop_first(), sep),
    decreases ts.len(),
{
    if ts.len() == 1 {
        assert(ts.drop_first() =~= Seq::<Seq<char>>::empty());
        assert(ts[0] + Seq::<char>::empty() =~= ts[0]);
    } else {
        let init = ts.drop_last();
        lemma_join_front(init, sep);
        lemma_cat_sep_push(init.drop_first(), ts.last(), sep);
        assert(init.drop_first().push(ts.last()) =~= ts.drop_first());
        assert(init[0] == ts[0]);
        assert(join(ts, sep) == join(init, sep) + sep + ts.last());
        assert(ts[0] + cat_sep(init.drop_first(), sep) + sep + ts.last() =~= ts[0] + (cat_sep(
            init.drop_first(),
            sep,
        ) + sep + ts.last()));
    }
}


// ------------------------------------------------------------ reading a row

/// The cells the `&` splitter gives for `" & "` and each of `xs`, after a
/// cell begun with `buf`.
pub open spec fn pieces(xs: Seq<Seq<char>>, buf: Seq<char>) -> Seq<Seq<char>>
    decreases xs.len(),
{
    if xs.len() == 0 {
        seq![buf]
    } else {
        seq![buf + seq![' ']] + pieces(xs.drop_first(), seq![' '] + xs[0])
    }
}

proof fn lemma_plain_inert(t: Seq<char>)
    requires
        plain_text(t),
    ensures
        inert(t),
        unbraced(t),
{
    assert forall|i: int| 0 <= i < t.len() implies #[trigger] t[i] != '{' && t[i] != '}' && t[i] != '\\'
        && t[i] != '&' by {
        let c = t[i];
        assert(c != '\\' && c != '{' && c != '}' && c != '%' && c != '&' && c != '$' && c != '#'
            && c != '_' && c != '~' && c != '^' && c != '\n');
    }
}

proof fn lemma_split_cat_sep(xs: Seq<Seq<char>>, cells: Seq<Seq<char>>, buf: Seq<char>)
    requires
        forall|k: int| 0 <= k < xs.len() ==> plain_text(#[trigger] xs[k]),
    ensures
        split_cells_go(cat_sep(xs, seq![' ', '&', ' ']), '&', 0, cells, buf, 0) == cells + pieces(
            xs,
            buf,
        ),
    decreases xs.len(),
{
    let sep = seq![' ', '&', ' '];
    if xs.len() == 0 {
        assert(cat_sep(xs, sep) =~= Seq::<char>::empty());
        assert(cells + seq![buf] =~= cells.push(buf));
    } else {
        let x0 = xs[0];
        let rest = xs.drop_first();
        assert forall|k: int| 0 <= k < rest.len() implies plain_text(#[trigger] rest[k]) by {
            assert(rest[k] == xs[k + 1]);
        }
        assert(plain_text(xs[0]));
        lemma_plain_inert(x0);
        let tail = cat_sep(rest, sep);
        assert(cat_sep(xs, sep) =~= seq![' '] + (seq!['&'] + ((seq![' '] + x0) + tail)));
        assert(inert(seq![' '])) by {
            assert(seq![' '][0] == ' ');
        }
        lemma_cells_inert(seq![' '], seq!['&'] + ((seq![' '] + x0) + tail), cells, buf);
        lemma_cells_sep((seq![' '] + x0) + tail, cells, buf + seq![' ']);
        assert(inert(seq![' '] + x0)) by {
            assert forall|i: int| 0 <= i < (seq![' '] + x0).len() implies #[trigger] (seq![' '] + x0)[i]
                != '{' && (seq![' '] + x0)[i] != '}' && (seq![' '] + x0)[i] != '\\' && (seq![' ']
                + x0)[i] != '&' by {
                if i > 0 {
                    assert((seq![' '] + x0)[i] == x0[i - 1]);
                }
            }
        }
        lemma_cells_inert(seq![' '] + x0, tail, cells.push(buf + seq![' ']), Seq::<char>::empty());
        assert(Seq::<char>::empty() + (seq![' '] + x0) =~= seq![' '] + x0);
        lemma_split_cat_sep(rest, cells.push(buf + seq![' ']), seq![' '] + x0);
        assert(cells.push(buf + seq![' ']) + pieces(rest, seq![' '] + x0) =~= cells + pieces(xs, buf));
    }
}

proof fn lemma_pieces_trim(xs: Seq<Seq<char>>, lead: Seq<char>, t: Seq<char>)
    requires
        all_ws(lead),
        plain_text(t),
        forall|k: int| 0 <= k < xs.len() ==> plain_text(#[trigger] xs[k]),
    ensures
        pieces(xs, lead + t).len() == xs.len() + 1,
        forall|k: int|
            0 <= k < xs.len() + 1 ==> trim(#[trigger] pieces(xs, lead + t)[k]) == (seq![t] + xs)[k],
    decreases xs.len(),
{
    if xs.len() == 0 {
        lemma_trim_wrapped(lead, t, Seq::empty());
        assert(lead + t + Seq::<char>::empty() =~= lead + t);
        assert((seq![t] + xs)[0] == t);
    } else {
        let rest = xs.drop_first();
        assert forall|k: int| 0 <= k < rest.len() implies plain_text(#[trigger] rest[k]) by {
            assert(rest[k] == xs[k + 1]);
        }
        assert(plain_text(xs[0]));
        assert(all_ws(seq![' ']));
        lemma_pieces_trim(rest, seq![' '], xs[0]);
        lemma_trim_wrapped(lead, t, seq![' ']);
        assert forall|k: int| 0 <= k < xs.len() + 1 implies trim(#[trigger] pieces(xs, lead + t)[k]) == (
        seq![t] + xs)[k] by {
            if k == 0 {
                assert(pieces(xs, lead + t)[0] == lead + t + seq![' ']);
            } else {
                assert(pieces(xs, lead + t)[k] == pieces(rest, seq![' '] + xs[0])[k - 1]);
                assert((seq![t] + xs)[k] == (seq![xs[0]] + rest)[k - 1]);
            }
        }
    }
}

/// A plain cell reads back as itself, one slot wide and high.
pub proof fn lemma_parse_cell_plain(c: Seq<char>)
    requires
        plain_text(c),
    ensures
        parse_cell(c) == (c, 1usize, 1usize),
{
    assert(trimmed(c));
    lemma_trim_fixed(c);
    assert(c[0] != '\\');
    let p1 = seq!['\\'] + multicolumn() + seq!['{'];
    let p2 = seq!['\\'] + multirow() + seq!['{'];
    assert(!starts_with(c, p1)) by {
        if starts_with(c, p1) {
            assert(c.take(p1.len() as int)[0] == p1[0]);
        }
    }
    assert(!starts_with(c, p2)) by {
        if starts_with(c, p2) {
            assert(c.take(p2.len() as int)[0] == p2[0]);
        }
    }
    assert(strip_prefix(trim(c), p1) is None);
    assert(parse_command(c, multicolumn()) is None);
    assert(strip_prefix(trim(c), p2) is None);
    assert(parse_command(c, multirow()) is None);
    assert(!starts_with(c, shortstack())) by {
        if starts_with(c, shortstack()) {
            assert(c.take(shortstack().len() as int)[0] == shortstack()[0]);
        }
    }
    assert(unwrap_shortstack(c) == c);
}

/// A row of plain one-slot cells, written with `" & "` between them, reads
/// back as the same cells.
pub proof fn lemma_parse_row(cells: Seq<CellView>)
    requires
        cells.len() >= 1,
        forall|k: int| 0 <= k < cells.len() ==> plain_text(#[trigger] cells[k].0),
        forall|k: int| 0 <= k < cells.len() ==> #[trigger] cells[k].1 == 1 && cells[k].2 == 1,
    ensures
        parse_row(join(texts(cells), seq![' ', '&', ' '])) == cells,
{
    let ts = texts(cells);
    let sep = seq![' ', '&', ' '];
    lemma_join_front(ts, sep);
    let rest = ts.drop_first();
    assert forall|k: int| 0 <= k < rest.len() implies plain_text(#[trigger] rest[k]) by {
        assert(rest[k] == cells[k + 1].0);
    }
    assert(plain_text(ts[0])) by {
        assert(ts[0] == cells[0].0);
    }
    lemma_plain_inert(ts[0]);
    lemma_cells_inert(ts[0], cat_sep(rest, sep), Seq::empty(), Seq::empty());
    assert(Seq::<char>::empty() + ts[0] =~= ts[0]);
    lemma_split_cat_sep(rest, Seq::empty(), ts[0]);
    let ps = pieces(rest, ts[0]);
    assert(split_align_aware(join(ts, sep), '&') =~= ps);
    assert(all_ws(Seq::<char>::empty()));
    assert(Seq::<char>::empty() + ts[0] =~= ts[0]);
    lemma_pieces_trim(rest, Seq::empty(), ts[0]);
    assert(seq![ts[0]] + rest =~= ts);
    let mapped = ps.map_values(|c: Seq<char>| parse_cell(trim(c)));
    assert forall|k: int| 0 <= k < cells.len() implies #[trigger] mapped[k] == cells[k] by {
        assert(trim(ps[k]) == ts[k]);
        assert(ts[k] == cells[k].0);
        lemma_parse_cell_plain(cells[k].0);
    }
    assert(mapped =~= cells);
}


// ------------------------------------------------------------ reading rows

/// One written row after the `\hline` before it: `\hline`, a newline, the
/// row, ` \\` and a newline.
pub open spec fn vpiece(j: Seq<char>) -> Seq<char> {
    hline() + seq!['\n'] + j + seq![' ', '\\', '\\', '\n']
}

/// The same with the `\hline` taken out.
pub open spec fn upiece(j: Seq<char>) -> Seq<char> {
    seq!['\n'] + j + seq![' ', '\\', '\\', '\n']
}

pub open spec fn vs(js: Seq<Seq<char>>) -> Seq<char>
    decreases js.len(),
{
    if js.len() == 0 {
        Seq::empty()
    } else {
        vpiece(js[0]) + vs(js.drop_first())
    }
}

pub open spec fn us(js: Seq<Seq<char>>) -> Seq<char>
    decreases js.len(),
{
    if js.len() == 0 {
        Seq::empty()
    } else {
        upiece(js[0]) + us(js.drop_first())
    }
}

/// The raw rows the `\\` splitter gives for `us(js)`, the first begun with
/// `pre`.
pub open spec fn raws(js: Seq<Seq<char>>, pre: Seq<char>) -> Seq<Seq<char>>
    decreases js.len(),
{
    if js.len() == 0 {
        Seq::empty()
    } else {
        seq![pre + seq!['\n'] + js[0] + seq![' ']] + raws(js.drop_first(), seq!['\n'])
    }
}

proof fn lemma_vs_push(js: Seq<Seq<char>>, j: Seq<char>)
    ensures
        vs(js.push(j)) == vs(js) + vpiece(j),
    decreases js.len(),
{
    if js.len() == 0 {
        assert(js.push(j).drop_first() =~= Seq::<Seq<char>>::empty());
        assert(js.push(j)[0] == j);
        assert(vs(Seq::<Seq<char>>::empty()) =~= Seq::<char>::empty());
        assert(vs(js) =~= Seq::<char>::empty());
        assert(vpiece(j) + Seq::<char>::empty() =~= Seq::<char>::empty() + vpiece(j));
    } else {
        assert(js.push(j).drop_first() =~= js.drop_first().push(j));
        assert(js.push(j)[0] == js[0]);
        lemma_vs_push(js.drop_first(), j);
        assert(vpiece(js[0]) + (vs(js.drop_first()) + vpiece(j)) =~= vpiece(js[0]) + vs(js.drop_first())
            + vpiece(j));
    }
}


/// ` \\` and a newline pass `\hline` removal unchanged.
proof fn lemma_replace_break(x: Seq<char>)
    ensures
        replace_all(seq!['\\', '\\', '\n'] + x, hline(), Seq::empty()) == seq!['\\', '\\', '\n']
            + replace_all(x, hline(), Seq::empty()),
{
    let h = hline();
    let e = Seq::<char>::empty();
    let b = seq!['\\', '\\', '\n'] + x;
    assert(b[0] == '\\' && b[1] == '\\' && b[2] == '\n');
    assert(!starts_with(b, h)) by {
        if starts_with(b, h) {
            assert(b.take(h.len() as int)[1] == h[1]);
        }
    }
    let b1 = b.drop_first();
    assert(b1 =~= seq!['\\', '\n'] + x);
    assert(replace_all(b, h, e) == seq![b[0]] + replace_all(b1, h, e));
    assert(!starts_with(b1, h)) by {
        if starts_with(b1, h) {
            assert(b1.take(h.len() as int)[1] == h[1]);
        }
    }
    let b2 = b1.drop_first();
    assert(b2 =~= seq!['\n'] + x);
    assert(replace_all(b1, h, e) == seq![b1[0]] + replace_all(b2, h, e));
    assert(!starts_with(b2, h)) by {
        if starts_with(b2, h) {
            assert(b2.take(h.len() as int)[0] == h[0]);
        }
    }
    assert(b2.drop_first() =~= x);
    assert(replace_all(b2, h, e) == seq![b2[0]] + replace_all(x, h, e));
    assert(seq![b[0]] + (seq![b1[0]] + (seq![b2[0]] + replace_all(x, h, e))) =~= seq!['\\', '\\', '\n']
        + replace_all(x, h, e));
}

proof fn lemma_remove_hlines(js: Seq<Seq<char>>)
    requires
        forall|k: int| 0 <= k < js.len() ==> unbraced(#[trigger] js[k]),
    ensures
        replace_all(vs(js) + hline(), hline(), Seq::empty()) == us(js),
    decreases js.len(),
{
    let h = hline();
    let e = Seq::<char>::empty();
    if js.len() == 0 {
        assert(vs(js) + h =~= h);
        assert(starts_with(h, h)) by {
            assert(h.take(h.len() as int) =~= h);
        }
        assert(h.skip(h.len() as int) =~= Seq::<char>::empty());
        assert(replace_all(e, h, e) =~= e);
        assert(replace_all(h, h, e) == e + replace_all(e, h, e));
        assert(us(js) =~= e);
        assert(e + e =~= e);
    } else {
        let j = js[0];
        let rest = js.drop_first();
        assert forall|k: int| 0 <= k < rest.len() implies unbraced(#[trigger] rest[k]) by {
            assert(rest[k] == js[k + 1]);
        }
        lemma_remove_hlines(rest);
        assert(us(js) == upiece(j) + us(rest));
        assert(vs(js) == vpiece(j) + vs(rest));
        let x = vs(rest) + h;
        let a = seq!['\n'] + j + seq![' '];
        let b = seq!['\\', '\\', '\n'] + x;
        let whole = vs(js) + h;
        assert(whole =~= h + (a + b));
        assert(starts_with(whole, h)) by {
            assert(whole.take(h.len() as int) =~= h);
        }
        assert(whole.skip(h.len() as int) =~= a + b);
        assert(unbraced(j));
        assert forall|i: int| 0 <= i < a.len() implies #[trigger] a[i] != '\\' by {
            if 0 < i < a.len() - 1 {
                assert(a[i] == j[i - 1]);
            }
        }
        lemma_replace_inert(a, b, h, e);
        lemma_replace_break(x);
        assert(replace_all(whole, h, e) == e + replace_all(a + b, h, e));
        assert(e + (a + replace_all(b, h, e)) =~= upiece(j) + us(rest));
    }
}

proof fn lemma_split_us(js: Seq<Seq<char>>, rows: Seq<Seq<char>>, pre: Seq<char>)
    requires
        all_ws(pre),
        forall|k: int| 0 <= k < js.len() ==> unbraced(#[trigger] js[k]),
    ensures
        split_rows_go(us(js), 0, rows, pre, 0) == rows + raws(js, pre),
    decreases js.len(),
{
    if js.len() == 0 {
        lemma_trim_start_ws(pre, Seq::empty());
        assert(pre + Seq::<char>::empty() =~= pre);
        assert(trim_start(Seq::<char>::empty()) =~= Seq::<char>::empty());
        assert(trim(pre) =~= Seq::<char>::empty());
        assert(rows + raws(js, pre) =~= rows);
    } else {
        let j = js[0];
        let rest = js.drop_first();
        assert forall|k: int| 0 <= k < rest.len() implies unbraced(#[trigger] rest[k]) by {
            assert(rest[k] == js[k + 1]);
        }
        let a = seq!['\n'] + j + seq![' '];
        assert(unbraced(j));
        assert(unbraced(a)) by {
            assert forall|i: int| 0 <= i < a.len() implies #[trigger] a[i] != '{' && a[i] != '}' && a[i]
                != '\\' by {
                if 0 < i < a.len() - 1 {
                    assert(a[i] == j[i - 1]);
                }
            }
        }
        let tail = seq!['\n'] + us(rest);
        assert(us(js) =~= a + (seq!['\\', '\\'] + tail));
        lemma_rows_inert(a, seq!['\\', '\\'] + tail, rows, pre);
        lemma_rows_break(tail, rows, pre + a);
        assert(unbraced(seq!['\n']));
        lemma_rows_inert(seq!['\n'], us(rest), rows.push(pre + a), Seq::empty());
        assert(Seq::<char>::empty() + seq!['\n'] =~= seq!['\n']);
        assert(all_ws(seq!['\n']));
        lemma_split_us(rest, rows.push(pre + a), seq!['\n']);
        assert(pre + a =~= pre + seq!['\n'] + j + seq![' ']);
        assert(rows.push(pre + a) + raws(rest, seq!['\n']) =~= rows + raws(js, pre));
    }
}

proof fn lemma_raws_trim(js: Seq<Seq<char>>, pre: Seq<char>)
    requires
        all_ws(pre),
        forall|k: int|
            0 <= k < js.len() ==> #[trigger] js[k].len() > 0 && !is_ws(js[k][0]) && !is_ws(js[k].last()),
    ensures
        raws(js, pre).len() == js.len(),
        forall|k: int| 0 <= k < js.len() ==> trim(#[trigger] raws(js, pre)[k]) == js[k],
    decreases js.len(),
{
    if js.len() > 0 {
        let rest = js.drop_first();
        assert forall|k: int|
            0 <= k < rest.len() implies #[trigger] rest[k].len() > 0 && !is_ws(rest[k][0]) && !is_ws(
            rest[k].last(),
        ) by {
            assert(rest[k] == js[k + 1]);
        }
        assert(all_ws(seq!['\n']));
        lemma_raws_trim(rest, seq!['\n']);
        assert(all_ws(pre + seq!['\n'])) by {
            assert forall|i: int| 0 <= i < (pre + seq!['\n']).len() implies is_ws(
                #[trigger] (pre + seq!['\n'])[i],
            ) by {
                if i < pre.len() {
                    assert((pre + seq!['\n'])[i] == pre[i]);
                }
            }
        }
        assert(all_ws(seq![' ']));
        assert(js[0].len() > 0 && !is_ws(js[0][0]) && !is_ws(js[0].last()));
        lemma_trim_wrapped(pre + seq!['\n'], js[0], seq![' ']);
        assert forall|k: int| 0 <= k < js.len() implies trim(#[trigger] raws(js, pre)[k]) == js[k] by {
            if k > 0 {
                assert(raws(js, pre)[k] == raws(rest, seq!['\n'])[k - 1]);
            }
        }
    }
}

/// Raw rows none of them blank are each read as a row.
proof fn lemma_parse_rows_all(rs: Seq<Seq<char>>)
    requires
        forall|k: int| 0 <= k < rs.len() ==> trim(#[trigger] rs[k]).len() > 0,
    ensures
        parse_rows(rs) == Seq::new(rs.len(), |k: int| parse_row(trim(rs[k]))),
    decreases rs.len(),
{
    if rs.len() > 0 {
        let init = rs.drop_last();
        assert forall|k: int| 0 <= k < init.len() implies trim(#[trigger] init[k]).len() > 0 by {
            assert(init[k] == rs[k]);
        }
        lemma_parse_rows_all(init);
        assert(trim(rs[rs.len() - 1]).len() > 0);
        assert(Seq::new(init.len(), |k: int| parse_row(trim(init[k]))).push(parse_row(trim(rs.last())))
            =~= Seq::new(rs.len(), |k: int| parse_row(trim(rs[k]))));
    } else {
        assert(Seq::new(rs.len(), |k: int| parse_row(trim(rs[k]))) =~= Seq::<Seq<(Seq<char>, usize, usize)>>::empty());
    }
}


// ------------------------------------------------------------ the round trip

proof fn lemma_brace_plain(s: Seq<char>, i: int, j: int, d: nat)
    requires
        0 <= i <= j <= s.len(),
        forall|k: int| i <= k < j ==> #[trigger] s[k] != '\\' && s[k] != '{' && s[k] != '}',
    ensures
        brace_close(s, i, d) == brace_close(s, j, d),
    decreases j - i,
{
    if i < j {
        assert(s[i] != '\\' && s[i] != '{' && s[i] != '}');
        lemma_brace_plain(s, i + 1, j, d);
    }
}

proof fn lemma_col_spec_plain(n: int)
    ensures
        forall|k: int| 0 <= k < col_spec(n).len() ==> #[trigger] col_spec(n)[k] == 'l' || col_spec(n)[k]
            == '|',
    decreases n,
{
    if n > 1 {
        lemma_col_spec_plain(n - 1);
        let c = col_spec(n - 1);
        assert forall|k: int| 0 <= k < col_spec(n).len() implies #[trigger] col_spec(n)[k] == 'l'
            || col_spec(n)[k] == '|' by {
            if k < c.len() {
                assert(col_spec(n)[k] == c[k]);
            }
        }
    }
}

proof fn lemma_join_unbraced(ps: Seq<Seq<char>>, sep: Seq<char>)
    requires
        unbraced(sep),
        forall|k: int| 0 <= k < ps.len() ==> unbraced(#[trigger] ps[k]),
    ensures
        unbraced(join(ps, sep)),
    decreases ps.len(),
{
    if ps.len() == 1 {
        assert(unbraced(ps[0]));
    } else if ps.len() > 1 {
        let init = ps.drop_last();
        assert forall|k: int| 0 <= k < init.len() implies unbraced(#[trigger] init[k]) by {
            assert(init[k] == ps[k]);
        }
        lemma_join_unbraced(init, sep);
        let a = join(init, sep);
        let l = ps.last();
        assert(unbraced(ps[ps.len() - 1]));
        let x = a + sep + l;
        assert forall|i: int| 0 <= i < x.len() implies #[trigger] x[i] != '{' && x[i] != '}' && x[i]
            != '\\' by {
            if i < a.len() {
                assert(x[i] == a[i]);
            } else if i < a.len() + sep.len() {
                assert(x[i] == sep[i - a.len()]);
            } else {
                assert(x[i] == l[i - a.len() - sep.len()]);
            }
        }
    }
}

/// The written rows, each its cells joined by `" & "`.
pub open spec fn joined_rows(rows: Seq<Seq<CellView>>) -> Seq<Seq<char>> {
    Seq::new(rows.len(), |r: int| join(texts(rows[r]), seq![' ', '&', ' ']))
}

proof fn lemma_joined_row(cells: Seq<CellView>, n: int)
    requires
        cells.len() == n,
        n >= 1,
        forall|k: int| 0 <= k < n ==> plain_text(#[trigger] cells[k].0),
    ensures
        ({
            let j = join(texts(cells), seq![' ', '&', ' ']);
            &&& j.len() > 0
            &&& !is_ws(j[0])
            &&& !is_ws(j.last())
            &&& unbraced(j)
        }),
{
    let ts = texts(cells);
    assert forall|k: int| 0 <= k < ts.len() implies #[trigger] ts[k].len() > 0 by {
        assert(ts[k] == cells[k].0);
    }
    lemma_join_ends(ts, seq![' ', '&', ' ']);
    assert(ts[0] == cells[0].0);
    assert(ts[ts.len() - 1] == cells[n - 1].0);
    assert forall|k: int| 0 <= k < ts.len() implies unbraced(#[trigger] ts[k]) by {
        assert(ts[k] == cells[k].0);
        lemma_plain_inert(cells[k].0);
    }
    let sep = seq![' ', '&', ' '];
    assert(unbraced(sep)) by {
        assert forall|i: int| 0 <= i < sep.len() implies #[trigger] sep[i] != '{' && sep[i] != '}'
            && sep[i] != '\\' by {}
    }
    lemma_join_unbraced(ts, seq![' ', '&', ' ']);
}

proof fn lemma_lines_as_pieces(rows: Seq<Seq<CellView>>, n: int, k: int)
    requires
        unit_grid(rows, n),
        0 <= k <= rows.len(),
        forall|r: int, c: int| 0 <= r < rows.len() && 0 <= c < n ==> plain_text(#[trigger] rows[r][c].0),
    ensures
        hline() + seq!['\n'] + latex_lines(
            Seq::new(rows.len(), |r: int| Seq::new(n as nat, |c: int| origin_of(rows[r][c]))),
            n,
            k,
        ) == vs(joined_rows(rows).take(k)) + hline() + seq!['\n'],
    decreases k,
{
    let g = Seq::new(rows.len(), |r: int| Seq::new(n as nat, |c: int| origin_of(rows[r][c])));
    let hl = hline() + seq!['\n'];
    let js = joined_rows(rows);
    if k == 0 {
        assert(js.take(0) =~= Seq::<Seq<char>>::empty());
        assert(hl + Seq::<char>::empty() =~= Seq::<char>::empty() + hl);
    } else {
        lemma_lines_as_pieces(rows, n, k - 1);
        let cells = rows[k - 1];
        assert(cells.len() == n);
        assert forall|c: int| 0 <= c < n implies plain_text(#[trigger] cells[c].0) by {
            assert(plain_text(rows[k - 1][c].0));
        }
        lemma_latex_cells(cells, n, 0);
        assert(g[k - 1] == Seq::new(n as nat, |c: int| origin_of(cells[c])));
        assert(texts(cells).skip(0) =~= texts(cells));
        assert(latex_line(g[k - 1], n) == js[k - 1] + seq![' ', '\\', '\\', '\n'] + hl);
        assert(js.take(k) =~= js.take(k - 1).push(js[k - 1]));
        lemma_vs_push(js.take(k - 1), js[k - 1]);
        assert(hl + (latex_lines(g, n, k - 1) + latex_line(g[k - 1], n)) =~= (hl + latex_lines(g, n, k - 1))
            + latex_line(g[k - 1], n));
        assert(vs(js.take(k - 1)) + hl + (js[k - 1] + seq![' ', '\\', '\\', '\n'] + hl) =~= vs(js.take(k - 1))
            + vpiece(js[k - 1]) + hl);
    }
}

pub open spec fn tabular_head() -> Seq<char> {
    seq!['\\', 'b', 'e', 'g', 'i', 'n', '{', 't', 'a', 'b', 'u', 'l', 'a', 'r', '}', '[', 't', ']', '{', '|']
}

/// The text `Table::to_latex` writes, laid out by its parts.
proof fn lemma_latex_text(rows: Seq<Seq<CellView>>, n: int)
    requires
        rows.len() > 0,
        unit_grid(rows, n),
        forall|r: int, c: int| 0 <= r < rows.len() && 0 <= c < n ==> plain_text(#[trigger] rows[r][c].0),
    ensures
        latex_spec(rows) == tabular_head() + col_spec(n) + seq!['|', '}', '\n'] + vs(joined_rows(rows))
            + hline() + seq!['\n'] + end_tabular(),
{
    let m = rows.len();
    let g = Seq::new(m, |r: int| Seq::new(n as nat, |c: int| origin_of(rows[r][c])));
    lemma_unit_slot_grid(rows, n);
    assert forall|r: int| 0 <= r < g.len() implies #[trigger] g[r].len() == n as nat by {}
    lemma_max_len_even(g, n as nat);
    let js = joined_rows(rows);
    lemma_lines_as_pieces(rows, n, m as int);
    assert(js.take(m as int) =~= js);
    let hl = hline() + seq!['\n'];
    let a = tabular_head() + col_spec(n);
    let b = seq!['|', '}', '\n'];
    let ll = latex_lines(g, n, m as int);
    let e = end_tabular();
    assert(seq!['|', '}', '\n', '\\', 'h', 'l', 'i', 'n', 'e', '\n'] =~= b + hl);
    assert(latex_spec(rows) == a + (b + hl) + ll + e);
    assert(a + (b + hl) + ll + e =~= a + b + (hl + ll) + e);
    assert(hl + ll == vs(js) + hl);
    assert(a + b + (vs(js) + hl) + e =~= a + b + vs(js) + hline() + seq!['\n'] + e);
}

/// Reading `\begin{tabular}[t]{|l|...|}` back leaves what follows the
/// column specification.
proof fn lemma_read_head(n: int, y: Seq<char>)
    ensures
        ({
            let tex = tabular_head() + col_spec(n) + seq!['|', '}'] + y;
            &&& starts_with(tex, begin_tabular())
            &&& skip_colspec(skip_optional_pos(tex.skip(15))) == Some(y)
        }),
{
    let col = col_spec(n);
    let tex = tabular_head() + col + seq!['|', '}'] + y;
    assert(tex.take(15) =~= begin_tabular());
    let rest = seq!['[', 't', ']', '{', '|'] + col + seq!['|', '}'] + y;
    assert(tex.skip(15) =~= rest);
    assert(rest[0] == '[');
    assert(trim_start(rest) == rest);
    assert(rest[1] == 't' && rest[2] == ']');
    assert(find_from(rest, ']', 2) == Some(2int));
    assert(find_from(rest, ']', 1) == Some(2int));
    let r3 = seq!['{', '|'] + col + seq!['|', '}'] + y;
    assert(rest.skip(3) =~= r3);
    assert(r3[0] == '{');
    assert(trim_start(r3) == r3);
    assert(skip_optional_pos(rest) == r3);
    let x = seq!['|'] + col + seq!['|', '}'] + y;
    assert(r3.drop_first() =~= x);
    lemma_col_spec_plain(n);
    let p: int = col.len() as int + 2;
    assert forall|k: int| 0 <= k < p implies #[trigger] x[k] != '\\' && x[k] != '{' && x[k] != '}' by {
        if 0 < k < p - 1 {
            assert(x[k] == col[k - 1]);
        }
    }
    lemma_brace_plain(x, 0, p, 0);
    assert(x[p] == '}');
    assert(brace_close(x, 0, 0) == Some(p));
    assert(x.skip(p + 1) =~= y);
    assert(split_braced(x) == Some((x.take(p), y)));
}

/// Reading the rows back from the body between the column specification
/// and `\end{tabular}`.
proof fn lemma_read_body(js: Seq<Seq<char>>)
    requires
        js.len() > 0,
        forall|r: int| 0 <= r < js.len() ==> #[trigger] js[r].len() > 0 && !is_ws(js[r][0]) && !is_ws(
            js[r].last(),
        ) && unbraced(js[r]),
    ensures
        parse_rows(
            split_rows(replace_all(trim(seq!['\n'] + vs(js) + hline() + seq!['\n']), hline(), Seq::empty())),
        ) == Seq::new(js.len(), |k: int| parse_row(js[k])),
{
    let v = vs(js);
    assert(v == vpiece(js[0]) + vs(js.drop_first()));
    let core = v + hline();
    assert(core[0] == '\\');
    assert(core.last() == 'e');
    assert(all_ws(seq!['\n']));
    lemma_trim_wrapped(seq!['\n'], core, seq!['\n']);
    assert(seq!['\n'] + v + hline() + seq!['\n'] =~= seq!['\n'] + core + seq!['\n']);
    assert forall|r: int| 0 <= r < js.len() implies unbraced(#[trigger] js[r]) by {}
    lemma_remove_hlines(js);
    lemma_split_us(js, Seq::empty(), Seq::empty());
    assert(Seq::<Seq<char>>::empty() + raws(js, Seq::empty()) =~= raws(js, Seq::empty()));
    let rs = raws(js, Seq::empty());
    assert(all_ws(Seq::<char>::empty()));
    lemma_raws_trim(js, Seq::empty());
    assert forall|k: int| 0 <= k < rs.len() implies trim(#[trigger] rs[k]).len() > 0 by {
        assert(trim(rs[k]) == js[k]);
    }
    lemma_parse_rows_all(rs);
    assert forall|k: int| 0 <= k < rs.len() implies #[trigger] parse_row(trim(rs[k])) == parse_row(js[k]) by {
        assert(trim(rs[k]) == js[k]);
    }
    assert(Seq::new(rs.len(), |k: int| parse_row(trim(rs[k]))) =~= Seq::new(
        js.len(),
        |k: int| parse_row(js[k]),
    ));
}

/// What `Table::to_latex` writes for a rectangular table of plain one-slot
/// cells, `parse_tabular` reads back as the same rows: `\multicolumn`,
/// `\multirow` and `\shortstack` do not arise, no cell text is escaped, and
/// the `\hline` lines and row breaks fall away.
pub proof fn lemma_latex_round_trip(rows: Seq<Seq<CellView>>, n: int)
    requires
        rows.len() > 0,
        unit_grid(rows, n),
        forall|r: int, c: int| 0 <= r < rows.len() && 0 <= c < n ==> plain_text(#[trigger] rows[r][c].0),
    ensures
        parse_tabular_spec(latex_spec(rows)) == Some(rows),
{
    let m = rows.len();
    let js = joined_rows(rows);
    lemma_latex_text(rows, n);
    let v = vs(js);
    let e = end_tabular();
    let y = seq!['\n'] + v + hline() + seq!['\n'] + e;
    let tex = latex_spec(rows);
    assert(tex =~= tabular_head() + col_spec(n) + seq!['|', '}'] + y);
    assert(tex[0] == '\\');
    assert(tex.last() == '}');
    assert(trimmed(tex));
    lemma_trim_fixed(tex);
    lemma_read_head(n, y);
    let body = seq!['\n'] + v + hline() + seq!['\n'];
    assert(ends_with(y, e)) by {
        assert(y.skip(y.len() - e.len()) =~= e);
    }
    assert(y.take(y.len() - e.len()) =~= body);
    assert(strip_suffix(y, e) == Some(body));
    assert forall|r: int| 0 <= r < m implies #[trigger] js[r].len() > 0 && !is_ws(js[r][0]) && !is_ws(
        js[r].last(),
    ) && unbraced(js[r]) by {
        assert forall|c: int| 0 <= c < n implies plain_text(#[trigger] rows[r][c].0) by {}
        lemma_joined_row(rows[r], n);
    }
    lemma_read_body(js);
    assert forall|k: int| 0 <= k < m implies #[trigger] parse_row(js[k]) == rows[k] by {
        assert forall|c: int| 0 <= c < rows[k].len() implies plain_text(#[trigger] rows[k][c].0) by {}
        assert forall|c: int| 0 <= c < rows[k].len() implies #[trigger] rows[k][c].1 == 1 && rows[k][c].2
            == 1 by {}
        lemma_parse_row(rows[k]);
    }
    assert(Seq::new(js.len(), |k: int| parse_row(js[k])) =~= rows);
}

} // verus!
