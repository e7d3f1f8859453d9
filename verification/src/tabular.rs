//! Reading a LaTeX `tabular` island back into a [`Table`].

use vstd::prelude::*;
use crate::table::{cell_v, html_spec, table_v, Cell, Table};
use crate::text::{
    views, chars_of, ends_with, matches_at, push_all, replace_all, replace_exec, starts_with, string_of,
    sub_chars, trim, trim_chars, trim_start, trim_start_chars,
};

verus! {

/// `s.strip_prefix(p)`.
pub open spec fn strip_prefix(s: Seq<char>, p: Seq<char>) -> Option<Seq<char>> {
    if starts_with(s, p) {
        Some(s.skip(p.len() as int))
    } else {
        None
    }
}

/// `s.strip_suffix(p)`.
pub open spec fn strip_suffix(s: Seq<char>, p: Seq<char>) -> Option<Seq<char>> {
    if ends_with(s, p) {
        Some(s.take(s.len() - p.len()))
    } else {
        None
    }
}

/// Index of the first `c` in `s` at or after `i`.
pub open spec fn find_from(s: Seq<char>, c: char, i: int) -> Option<int>
    decreases s.len() - i,
{
    if i < 0 || i >= s.len() {
        None
    } else if s[i] == c {
        Some(i)
    } else {
        find_from(s, c, i + 1)
    }
}

/// `s.parse::<u64>()`: an optional `+`, then at least one decimal digit,
/// with a value that fits.
pub open spec fn parse_u64(s: Seq<char>) -> Option<u64> {
    let d = if s.len() > 0 && s[0] == '+' { s.drop_first() } else { s };
    if d.len() > 0 && all_digits(d) && digits_value(d) <= u64::MAX {
        Some(digits_value(d) as u64)
    } else {
        None
    }
}

/// An optional `[pos]` argument skipped, with the white space around it.
pub open spec fn skip_optional_pos(s: Seq<char>) -> Seq<char> {
    let t = trim_start(s);
    if t.len() > 0 && t[0] == '[' {
        match find_from(t, ']', 1) {
            Some(e) => trim_start(t.skip(e + 1)),
            None => t,
        }
    } else {
        t
    }
}

/// Index of the `}` that closes a group opened just before `s[i]`, at
/// nesting `depth`; a backslash protects the character after it.
pub open spec fn brace_close(s: Seq<char>, i: int, depth: nat) -> Option<int>
    decreases s.len() - i,
{
    if i < 0 || i >= s.len() {
        None
    } else if s[i] == '\\' {
        if i + 1 >= s.len() {
            None
        } else {
            brace_close(s, i + 2, depth)
        }
    } else if s[i] == '{' {
        brace_close(s, i + 1, depth + 1)
    } else if s[i] == '}' {
        if depth == 0 {
            Some(i)
        } else {
            brace_close(s, i + 1, (depth - 1) as nat)
        }
    } else {
        brace_close(s, i + 1, depth)
    }
}

/// Text inside a group whose `{` was just consumed, and the text after its `}`.
pub open spec fn split_braced(s: Seq<char>) -> Option<(Seq<char>, Seq<char>)> {
    match brace_close(s, 0, 0) {
        Some(i) => Some((s.take(i), s.skip(i + 1))),
        None => None,
    }
}

/// The column specification `{...}` skipped.
pub open spec fn skip_colspec(s: Seq<char>) -> Option<Seq<char>> {
    let t = trim_start(s);
    if t.len() > 0 && t[0] == '{' {
        match split_braced(t.drop_first()) {
            Some(p) => Some(p.1),
            None => None,
        }
    } else {
        None
    }
}

/// Rows separated by `\\` outside braces; a trailing row of only white space
/// is dropped.
pub open spec fn split_rows_go(
    s: Seq<char>,
    i: int,
    rows: Seq<Seq<char>>,
    buf: Seq<char>,
    depth: nat,
) -> Seq<Seq<char>>
    decreases s.len() - i,
{
    if i < 0 || i >= s.len() {
        if trim(buf).len() > 0 {
            rows.push(buf)
        } else {
            rows
        }
    } else if s[i] == '{' {
        split_rows_go(s, i + 1, rows, buf.push('{'), depth + 1)
    } else if s[i] == '}' {
        split_rows_go(s, i + 1, rows, buf.push('}'), if depth > 0 { (depth - 1) as nat } else { 0 })
    } else if depth == 0 && s[i] == '\\' && i + 1 < s.len() && s[i + 1] == '\\' {
        split_rows_go(s, i + 2, rows.push(buf), Seq::empty(), depth)
    } else {
        split_rows_go(s, i + 1, rows, buf.push(s[i]), depth)
    }
}

pub open spec fn split_rows(s: Seq<char>) -> Seq<Seq<char>> {
    split_rows_go(s, 0, Seq::empty(), Seq::empty(), 0)
}

/// Cells separated by `sep` outside braces.
pub open spec fn split_cells_go(
    s: Seq<char>,
    sep: char,
    i: int,
    cells: Seq<Seq<char>>,
    buf: Seq<char>,
    depth: nat,
) -> Seq<Seq<char>>
    decreases s.len() - i,
{
    if i < 0 || i >= s.len() {
        cells.push(buf)
    } else if s[i] == '{' {
        split_cells_go(s, sep, i + 1, cells, buf.push('{'), depth + 1)
    } else if s[i] == '}' {
        split_cells_go(s, sep, i + 1, cells, buf.push('}'), if depth > 0 { (depth - 1) as nat } else { 0 })
    } else if s[i] == sep && depth == 0 {
        split_cells_go(s, sep, i + 1, cells.push(buf), Seq::empty(), depth)
    } else {
        split_cells_go(s, sep, i + 1, cells, buf.push(s[i]), depth)
    }
}

pub open spec fn split_align_aware(s: Seq<char>, sep: char) -> Seq<Seq<char>> {
    split_cells_go(s, sep, 0, Seq::empty(), Seq::empty(), 0)
}

pub open spec fn digit_value(c: char) -> int {
    (c as u32) - ('0' as u32)
}

pub open spec fn all_digits(d: Seq<char>) -> bool {
    forall|i: int| 0 <= i < d.len() ==> '0' <= #[trigger] d[i] && d[i] <= '9'
}

/// The number a run of decimal digits spells.
pub open spec fn digits_value(d: Seq<char>) -> int
    decreases d.len(),
{
    if d.len() == 0 {
        0
    } else {
        digits_value(d.drop_last()) * 10 + digit_value(d.last())
    }
}

/// `s.parse::<usize>()`: an optional `+`, then at least one decimal digit,
/// with a value that fits.
pub open spec fn parse_usize(s: Seq<char>) -> Option<usize> {
    let d = if s.len() > 0 && s[0] == '+' { s.drop_first() } else { s };
    if d.len() > 0 && all_digits(d) && digits_value(d) <= usize::MAX {
        Some(digits_value(d) as usize)
    } else {
        None
    }
}

pub open spec fn shortstack() -> Seq<char> {
    seq!['\\', 's', 'h', 'o', 'r', 't', 's', 't', 'a', 'c', 'k']
}

/// Contents of a `\shortstack[..]{...}` with its `\\` breaks as newlines;
/// any other text trimmed.
pub open spec fn unwrap_shortstack(s: Seq<char>) -> Seq<char> {
    let t = trim(s);
    let name = shortstack();
    if !starts_with(t, name) {
        t
    } else {
        let rest = skip_optional_pos(t.skip(name.len() as int));
        if !(rest.len() > 0 && rest[0] == '{') {
            t
        } else {
            match split_braced(rest.drop_first()) {
                None => t,
                Some(p) => replace_all(
                    replace_all(p.0, seq![' ', '\\', '\\'], seq!['\n']),
                    seq!['\\', '\\'],
                    seq!['\n'],
                ),
            }
        }
    }
}

/// `\name{n}[{spec}]{text}`: the count and the unwrapped text.
pub open spec fn parse_command(cell: Seq<char>, name: Seq<char>) -> Option<(usize, Seq<char>)> {
    let prefix = seq!['\\'] + name + seq!['{'];
    match strip_prefix(trim(cell), prefix) {
        None => None,
        Some(rest) => match split_braced(rest) {
            None => None,
            Some(p1) => match parse_usize(trim(p1.0)) {
                None => None,
                Some(n) => {
                    let after_n = trim_start(p1.1);
                    let rest2 = if after_n.len() > 0 && after_n[0] == '{' {
                        match split_braced(after_n.drop_first()) {
                            None => None,
                            Some(p2) => Some(trim_start(p2.1)),
                        }
                    } else {
                        Some(after_n)
                    };
                    match rest2 {
                        None => None,
                        Some(r2) => if r2.len() > 0 && r2[0] == '{' {
                            match split_braced(r2.drop_first()) {
                                None => None,
                                Some(p3) => Some((n, unwrap_shortstack(p3.0))),
                            }
                        } else {
                            None
                        },
                    }
                },
            },
        },
    }
}

pub open spec fn multicolumn() -> Seq<char> {
    seq!['m', 'u', 'l', 't', 'i', 'c', 'o', 'l', 'u', 'm', 'n']
}

pub open spec fn multirow() -> Seq<char> {
    seq!['m', 'u', 'l', 't', 'i', 'r', 'o', 'w']
}

/// A cell as (text, rowspan, colspan).
pub open spec fn parse_cell(cell: Seq<char>) -> (Seq<char>, usize, usize) {
    match parse_command(cell, multicolumn()) {
        Some(p) => (p.1, 1, p.0),
        None => match parse_command(cell, multirow()) {
            Some(p) => (p.1, p.0, 1),
            None => (unwrap_shortstack(cell), 1, 1),
        },
    }
}

/// The cells of one raw row.
pub open spec fn parse_row(raw: Seq<char>) -> Seq<(Seq<char>, usize, usize)> {
    split_align_aware(raw, '&').map_values(|c: Seq<char>| parse_cell(trim(c)))
}

/// Raw rows that are not blank, parsed.
pub open spec fn parse_rows(raws: Seq<Seq<char>>) -> Seq<Seq<(Seq<char>, usize, usize)>>
    decreases raws.len(),
{
    if raws.len() == 0 {
        Seq::empty()
    } else {
        let rest = parse_rows(raws.drop_last());
        let raw = trim(raws.last());
        if raw.len() == 0 {
            rest
        } else {
            rest.push(parse_row(raw))
        }
    }
}

pub open spec fn begin_tabular() -> Seq<char> {
    seq!['\\', 'b', 'e', 'g', 'i', 'n', '{', 't', 'a', 'b', 'u', 'l', 'a', 'r', '}']
}

pub open spec fn end_tabular() -> Seq<char> {
    seq!['\\', 'e', 'n', 'd', '{', 't', 'a', 'b', 'u', 'l', 'a', 'r', '}']
}

pub open spec fn hline() -> Seq<char> {
    seq!['\\', 'h', 'l', 'i', 'n', 'e']
}

/// The rows of a `\begin{tabular}...\end{tabular}` island, if it is one and
/// holds at least one row.
pub open spec fn parse_tabular_spec(tex: Seq<char>) -> Option<Seq<Seq<(Seq<char>, usize, usize)>>> {
    match strip_prefix(trim(tex), begin_tabular()) {
        None => None,
        Some(rest) => match skip_colspec(skip_optional_pos(rest)) {
            None => None,
            Some(rest2) => match strip_suffix(rest2, end_tabular()) {
                None => None,
                Some(body) => {
                    let inner = replace_all(trim(body), hline(), Seq::empty());
                    let rows = parse_rows(split_rows(inner));
                    if rows.len() == 0 {
                        None
                    } else {
                        Some(rows)
                    }
                },
            },
        },
    }
}

// ---------------------------------------------------------------- scanning

/// An index result seen as a mathematical integer.
pub open spec fn opt_int(r: Option<usize>) -> Option<int> {
    match r {
        Some(k) => Some(k as int),
        None => None,
    }
}

/// Index of the first `c` in `s` at or after `i`.
pub fn find_from_exec(s: &[char], c: char, i: usize) -> (r: Option<usize>)
    ensures
        opt_int(r) == find_from(s@, c, i as int),
        r matches Some(k) ==> i <= k < s@.len() && s@[k as int] == c,
{
    let mut k = i;
    while k < s.len()
        invariant
            i <= k,
            find_from(s@, c, i as int) == find_from(s@, c, k as int),
        decreases s@.len() - k,
    {
        if s[k] == c {
            return Some(k);
        }
        k += 1;
    }
    None
}

/// Copy of `s` from index `from` to its end.
fn tail(s: &[char], from: usize) -> (out: Vec<char>)
    requires
        from <= s@.len(),
    ensures
        out@ == s@.skip(from as int),
{
    assert(s@.skip(from as int) =~= s@.subrange(from as int, s@.len() as int));
    sub_chars(s, from, s.len())
}

/// An optional `[pos]` argument skipped, with the white space around it.
pub fn skip_optional_pos_exec(s: &[char]) -> (out: Vec<char>)
    ensures
        out@ == skip_optional_pos(s@),
{
    let t = trim_start_chars(s);
    if t.len() > 0 && t[0] == '[' {
        match find_from_exec(&t, ']', 1) {
            Some(e) => {
                let after = tail(&t, e + 1);
                trim_start_chars(&after)
            },
            None => t,
        }
    } else {
        t
    }
}

/// Index of the `}` closing the group opened just before `s[start]`.
pub fn brace_close_exec(s: &[char], start: usize) -> (r: Option<usize>)
    ensures
        opt_int(r) == brace_close(s@, start as int, 0),
        r matches Some(k) ==> start <= k < s@.len(),
{
    let mut i = start;
    let mut depth: usize = 0;
    while i < s.len()
        invariant
            depth <= i,
            start <= i,
            brace_close(s@, start as int, 0) == brace_close(s@, i as int, depth as nat),
        decreases s@.len() - i,
    {
        let c = s[i];
        if c == '\\' {
            if i + 1 >= s.len() {
                return None;
            }
            i += 2;
        } else if c == '{' {
            depth += 1;
            i += 1;
        } else if c == '}' {
            if depth == 0 {
                return Some(i);
            }
            depth -= 1;
            i += 1;
        } else {
            i += 1;
        }
    }
    None
}

/// Text inside a group whose `{` was just consumed, and the text after its `}`.
pub fn split_braced_exec(s: &[char]) -> (r: Option<(Vec<char>, Vec<char>)>)
    ensures
        match split_braced(s@) {
            Some(p) => r.is_some() && r.unwrap().0@ == p.0 && r.unwrap().1@ == p.1,
            None => r.is_none(),
        },
{
    match brace_close_exec(s, 0) {
        Some(i) => {
            assert(i < s.len());
            let inner = sub_chars(s, 0, i);
            let after = tail(s, i + 1);
            assert(inner@ =~= s@.take(i as int));
            Some((inner, after))
        },
        None => None,
    }
}

/// The column specification `{...}` skipped.
pub fn skip_colspec_exec(s: &[char]) -> (r: Option<Vec<char>>)
    ensures
        match skip_colspec(s@) {
            Some(p) => r.is_some() && r.unwrap()@ == p,
            None => r.is_none(),
        },
{
    let t = trim_start_chars(s);
    if t.len() > 0 && t[0] == '{' {
        let inner = tail(&t, 1);
        assert(inner@ =~= t@.drop_first());
        match split_braced_exec(&inner) {
            Some(p) => Some(p.1),
            None => None,
        }
    } else {
        None
    }
}

// ---------------------------------------------------------------- splitting

/// Rows separated by `\\` outside braces.
pub fn split_rows_exec(s: &[char]) -> (out: Vec<Vec<char>>)
    ensures
        views(out@) == split_rows(s@),
{
    let mut rows: Vec<Vec<char>> = Vec::new();
    let mut buf: Vec<char> = Vec::new();
    let mut depth: usize = 0;
    let mut i: usize = 0;
    assert(views(rows@) =~= Seq::<Seq<char>>::empty());
    assert(buf@ =~= Seq::<char>::empty());
    while i < s.len()
        invariant
            depth <= i,
            split_rows(s@) == split_rows_go(s@, i as int, views(rows@), buf@, depth as nat),
        decreases s@.len() - i,
    {
        let c = s[i];
        if c == '{' {
            buf.push('{');
            depth += 1;
            i += 1;
        } else if c == '}' {
            buf.push('}');
            if depth > 0 {
                depth -= 1;
            }
            i += 1;
        } else if depth == 0 && c == '\\' && i + 1 < s.len() && s[i + 1] == '\\' {
            let ghost before = views(rows@);
            let ghost b = buf@;
            rows.push(buf);
            buf = Vec::new();
            assert(views(rows@) =~= before.push(b));
            assert(buf@ =~= Seq::<char>::empty());
            i += 2;
        } else {
            buf.push(c);
            i += 1;
        }
    }
    let t = trim_chars(&buf);
    if t.len() > 0 {
        let ghost before = views(rows@);
        let ghost b = buf@;
        rows.push(buf);
        assert(views(rows@) =~= before.push(b));
    }
    rows
}

/// Cells separated by `sep` outside braces.
pub fn split_align_aware_exec(s: &[char], sep: char) -> (out: Vec<Vec<char>>)
    ensures
        views(out@) == split_align_aware(s@, sep),
{
    let mut cells: Vec<Vec<char>> = Vec::new();
    let mut buf: Vec<char> = Vec::new();
    let mut depth: usize = 0;
    let mut i: usize = 0;
    assert(views(cells@) =~= Seq::<Seq<char>>::empty());
    assert(buf@ =~= Seq::<char>::empty());
    while i < s.len()
        invariant
            depth <= i,
            split_align_aware(s@, sep) == split_cells_go(
                s@,
                sep,
                i as int,
                views(cells@),
                buf@,
                depth as nat,
            ),
        decreases s@.len() - i,
    {
        let c = s[i];
        if c == '{' {
            buf.push('{');
            depth += 1;
        } else if c == '}' {
            buf.push('}');
            if depth > 0 {
                depth -= 1;
            }
        } else if c == sep && depth == 0 {
            let ghost before = views(cells@);
            let ghost b = buf@;
            cells.push(buf);
            buf = Vec::new();
            assert(views(cells@) =~= before.push(b));
            assert(buf@ =~= Seq::<char>::empty());
        } else {
            buf.push(c);
        }
        i += 1;
    }
    let ghost before = views(cells@);
    let ghost b = buf@;
    cells.push(buf);
    assert(views(cells@) =~= before.push(b));
    cells
}

// ---------------------------------------------------------------- numbers

pub proof fn lemma_digits_nonneg(d: Seq<char>)
    requires
        all_digits(d),
    ensures
        digits_value(d) >= 0,
    decreases d.len(),
{
    if d.len() > 0 {
        lemma_digits_nonneg(d.drop_last());
        assert(d.last() == d[d.len() - 1]);
    }
}

/// A prefix of a run of digits is worth no more than the whole run.
pub proof fn lemma_digits_prefix(d: Seq<char>, j: int)
    requires
        all_digits(d),
        0 <= j <= d.len(),
    ensures
        digits_value(d.take(j)) <= digits_value(d),
    decreases d.len(),
{
    if j == d.len() {
        assert(d.take(j) =~= d);
    } else {
        assert(d.drop_last().take(j) =~= d.take(j));
        lemma_digits_prefix(d.drop_last(), j);
        lemma_digits_nonneg(d.drop_last());
        assert(d.last() == d[d.len() - 1]);
    }
}

/// `s.parse::<usize>()`.
pub fn parse_usize_exec(s: &[char]) -> (r: Option<usize>)
    ensures
        r == parse_usize(s@),
{
    let start: usize = if s.len() > 0 && s[0] == '+' { 1 } else { 0 };
    let ghost d = if s@.len() > 0 && s@[0] == '+' { s@.drop_first() } else { s@ };
    assert(d =~= s@.skip(start as int));
    if start == s.len() {
        return None;
    }
    let mut acc: usize = 0;
    let mut k: usize = start;
    assert(d.take(0) =~= Seq::<char>::empty());
    while k < s.len()
        invariant
            start <= k <= s@.len(),
            d == s@.skip(start as int),
            d == (if s@.len() > 0 && s@[0] == '+' { s@.drop_first() } else { s@ }),
            forall|j: int| 0 <= j < k - start ==> '0' <= #[trigger] d[j] && d[j] <= '9',
            acc == digits_value(d.take(k - start)),
        decreases s@.len() - k,
    {
        let c = s[k];
        if !('0' <= c && c <= '9') {
            assert(d[k - start] == c);
            return None;
        }
        let v = (c as u32 - '0' as u32) as usize;
        assert(v == digit_value(c));
        assert(0 <= digit_value(c) <= 9);
        assert(d.take(k + 1 - start).drop_last() =~= d.take(k - start));
        assert(d.take(k + 1 - start).last() == c);
        match acc.checked_mul(10) {
            None => {
                proof {
                    if all_digits(d) {
                        lemma_digits_nonneg(d.take(k - start));
                        lemma_digits_prefix(d, k + 1 - start);
                        assert(digits_value(d) > usize::MAX);
                    }
                }
                return None;
            },
            Some(m) => match m.checked_add(v) {
                None => {
                    proof {
                        if all_digits(d) {
                            lemma_digits_prefix(d, k + 1 - start);
                            assert(digits_value(d) > usize::MAX);
                        }
                    }
                    return None;
                },
                Some(n) => {
                    acc = n;
                },
            },
        }
        k += 1;
    }
    assert(d.take(k - start) =~= d);
    Some(acc)
}

/// `s.parse::<u64>()`.
pub fn parse_u64_exec(s: &[char]) -> (r: Option<u64>)
    ensures
        r == parse_u64(s@),
{
    let start: usize = if s.len() > 0 && s[0] == '+' { 1 } else { 0 };
    let ghost d = if s@.len() > 0 && s@[0] == '+' { s@.drop_first() } else { s@ };
    assert(d =~= s@.skip(start as int));
    if start == s.len() {
        return None;
    }
    let mut acc: u64 = 0;
    let mut k: usize = start;
    assert(d.take(0) =~= Seq::<char>::empty());
    while k < s.len()
        invariant
            start <= k <= s@.len(),
            d == s@.skip(start as int),
            d == (if s@.len() > 0 && s@[0] == '+' { s@.drop_first() } else { s@ }),
            forall|j: int| 0 <= j < k - start ==> '0' <= #[trigger] d[j] && d[j] <= '9',
            acc == digits_value(d.take(k - start)),
        decreases s@.len() - k,
    {
        let c = s[k];
        if !('0' <= c && c <= '9') {
            assert(d[k - start] == c);
            return None;
        }
        let v = (c as u32 - '0' as u32) as u64;
        assert(v == digit_value(c));
        assert(0 <= digit_value(c) <= 9);
        assert(d.take(k + 1 - start).drop_last() =~= d.take(k - start));
        assert(d.take(k + 1 - start).last() == c);
        match acc.checked_mul(10) {
            None => {
                proof {
                    if all_digits(d) {
                        lemma_digits_nonneg(d.take(k - start));
                        lemma_digits_prefix(d, k + 1 - start);
                        assert(digits_value(d) > u64::MAX);
                    }
                }
                return None;
            },
            Some(m) => match m.checked_add(v) {
                None => {
                    proof {
                        if all_digits(d) {
                            lemma_digits_prefix(d, k + 1 - start);
                            assert(digits_value(d) > u64::MAX);
                        }
                    }
                    return None;
                },
                Some(n) => {
                    acc = n;
                },
            },
        }
        k += 1;
    }
    assert(d.take(k - start) =~= d);
    Some(acc)
}

// ---------------------------------------------------------------- cells

fn shortstack_exec() -> (v: Vec<char>)
    ensures
        v@ == shortstack(),
{
    let v = vec!['\\', 's', 'h', 'o', 'r', 't', 's', 't', 'a', 'c', 'k'];
    assert(v@ =~= shortstack());
    v
}

fn multicolumn_exec() -> (v: Vec<char>)
    ensures
        v@ == multicolumn(),
{
    let v = vec!['m', 'u', 'l', 't', 'i', 'c', 'o', 'l', 'u', 'm', 'n'];
    assert(v@ =~= multicolumn());
    v
}

fn multirow_exec() -> (v: Vec<char>)
    ensures
        v@ == multirow(),
{
    let v = vec!['m', 'u', 'l', 't', 'i', 'r', 'o', 'w'];
    assert(v@ =~= multirow());
    v
}

/// Contents of a `\shortstack[..]{...}` with its breaks as newlines.
pub fn unwrap_shortstack_exec(s: &[char]) -> (out: Vec<char>)
    ensures
        out@ == unwrap_shortstack(s@),
{
    let t = trim_chars(s);
    let name = shortstack_exec();
    assert(t@.skip(0) =~= t@);
    if !matches_at(&t, 0, &name) {
        return t;
    }
    let after = tail(&t, name.len());
    let rest = skip_optional_pos_exec(&after);
    if !(rest.len() > 0 && rest[0] == '{') {
        return t;
    }
    let inner = tail(&rest, 1);
    assert(inner@ =~= rest@.drop_first());
    match split_braced_exec(&inner) {
        None => t,
        Some(p) => {
            let sp = vec![' ', '\\', '\\'];
            let bs = vec!['\\', '\\'];
            let nl = vec!['\n'];
            assert(sp@ =~= seq![' ', '\\', '\\']);
            assert(bs@ =~= seq!['\\', '\\']);
            assert(nl@ =~= seq!['\n']);
            let a = replace_exec(&p.0, &sp, &nl);
            replace_exec(&a, &bs, &nl)
        },
    }
}

/// `\name{n}[{spec}]{text}`: the count and the unwrapped text.
pub fn parse_command_exec(cell: &[char], name: &[char]) -> (r: Option<(usize, Vec<char>)>)
    ensures
        match parse_command(cell@, name@) {
            Some(p) => r.is_some() && r.unwrap().0 == p.0 && r.unwrap().1@ == p.1,
            None => r.is_none(),
        },
{
    let mut prefix: Vec<char> = Vec::new();
    prefix.push('\\');
    push_all(&mut prefix, name);
    prefix.push('{');
    assert(prefix@ =~= seq!['\\'] + name@ + seq!['{']);
    let t = trim_chars(cell);
    assert(t@.skip(0) =~= t@);
    if !matches_at(&t, 0, &prefix) {
        return None;
    }
    let rest = tail(&t, prefix.len());
    let p1 = match split_braced_exec(&rest) {
        None => {
            return None;
        },
        Some(p) => p,
    };
    let nt = trim_chars(&p1.0);
    let n = match parse_usize_exec(&nt) {
        None => {
            return None;
        },
        Some(n) => n,
    };
    let after_n = trim_start_chars(&p1.1);
    let r2: Vec<char> = if after_n.len() > 0 && after_n[0] == '{' {
        let inner = tail(&after_n, 1);
        assert(inner@ =~= after_n@.drop_first());
        match split_braced_exec(&inner) {
            None => {
                return None;
            },
            Some(p2) => trim_start_chars(&p2.1),
        }
    } else {
        after_n
    };
    if !(r2.len() > 0 && r2[0] == '{') {
        return None;
    }
    let inner3 = tail(&r2, 1);
    assert(inner3@ =~= r2@.drop_first());
    match split_braced_exec(&inner3) {
        None => None,
        Some(p3) => Some((n, unwrap_shortstack_exec(&p3.0))),
    }
}

/// A cell read from its LaTeX source.
pub fn parse_cell_exec(cell: &[char]) -> (c: Cell)
    ensures
        cell_v(c) == parse_cell(cell@),
{
    let mc = multicolumn_exec();
    if let Some(p) = parse_command_exec(cell, &mc) {
        return Cell { text: string_of(&p.1), rowspan: 1, colspan: p.0 };
    }
    let mr = multirow_exec();
    if let Some(p) = parse_command_exec(cell, &mr) {
        return Cell { text: string_of(&p.1), rowspan: p.0, colspan: 1 };
    }
    let t = unwrap_shortstack_exec(cell);
    Cell { text: string_of(&t), rowspan: 1, colspan: 1 }
}

/// The cells of one raw row.
fn parse_row_exec(raw: &[char]) -> (row: Vec<Cell>)
    ensures
        row@.map_values(|c: Cell| cell_v(c)) == parse_row(raw@),
{
    let pieces = split_align_aware_exec(raw, '&');
    let ghost ps = split_align_aware(raw@, '&');
    let mut row: Vec<Cell> = Vec::new();
    let mut k: usize = 0;
    while k < pieces.len()
        invariant
            k <= pieces@.len(),
            views(pieces@) == ps,
            ps == split_align_aware(raw@, '&'),
            row@.map_values(|c: Cell| cell_v(c)) == ps.take(k as int).map_values(
                |c: Seq<char>| parse_cell(trim(c)),
            ),
        decreases pieces@.len() - k,
    {
        let ghost before = row@.map_values(|c: Cell| cell_v(c));
        assert(ps[k as int] == pieces@[k as int]@);
        let t = trim_chars(&pieces[k]);
        let c = parse_cell_exec(&t);
        row.push(c);
        assert(row@.map_values(|c: Cell| cell_v(c)) =~= before.push(cell_v(c)));
        assert(ps.take(k + 1).map_values(|c: Seq<char>| parse_cell(trim(c))) =~= ps.take(
            k as int,
        ).map_values(|c: Seq<char>| parse_cell(trim(c))).push(parse_cell(trim(ps[k as int]))));
        k += 1;
    }
    assert(ps.take(k as int) =~= ps);
    row
}

// ---------------------------------------------------------------- islands

fn begin_tabular_exec() -> (v: Vec<char>)
    ensures
        v@ == begin_tabular(),
{
    let v = vec!['\\', 'b', 'e', 'g', 'i', 'n', '{', 't', 'a', 'b', 'u', 'l', 'a', 'r', '}'];
    assert(v@ =~= begin_tabular());
    v
}

fn end_tabular_exec() -> (v: Vec<char>)
    ensures
        v@ == end_tabular(),
{
    let v = vec!['\\', 'e', 'n', 'd', '{', 't', 'a', 'b', 'u', 'l', 'a', 'r', '}'];
    assert(v@ =~= end_tabular());
    v
}

fn hline_exec() -> (v: Vec<char>)
    ensures
        v@ == hline(),
{
    let v = vec!['\\', 'h', 'l', 'i', 'n', 'e'];
    assert(v@ =~= hline());
    v
}

/// Parses a `\begin{tabular}...\end{tabular}` island into a [`Table`]: rows
/// split at `\\` and cells at `&` outside braces, `\hline` dropped, blank rows
/// skipped, `\multicolumn` and `\multirow` read as spans. `None` when the
/// text is not such an island or holds no row.
pub fn parse_tabular(tex: &str) -> (r: Option<Table>)
    ensures
        match parse_tabular_spec(tex@) {
            Some(rows) => r.is_some() && table_v(r.unwrap()) == rows,
            None => r.is_none(),
        },
{
    let all = chars_of(tex);
    let t = trim_chars(&all);
    let begin = begin_tabular_exec();
    assert(t@.skip(0) =~= t@);
    if !matches_at(&t, 0, &begin) {
        return None;
    }
    let rest = tail(&t, begin.len());
    let rest1 = skip_optional_pos_exec(&rest);
    let rest2 = match skip_colspec_exec(&rest1) {
        None => {
            return None;
        },
        Some(r2) => r2,
    };
    let end = end_tabular_exec();
    if end.len() > rest2.len() {
        return None;
    }
    let cut = rest2.len() - end.len();
    assert(rest2@.skip(cut as int).take(end@.len() as int) =~= rest2@.skip(cut as int));
    if !matches_at(&rest2, cut, &end) {
        return None;
    }
    let body = sub_chars(&rest2, 0, cut);
    assert(body@ =~= rest2@.take(rest2@.len() - end@.len()));
    let body_t = trim_chars(&body);
    let hl = hline_exec();
    let nothing: Vec<char> = Vec::new();
    assert(nothing@ =~= Seq::<char>::empty());
    let inner = replace_exec(&body_t, &hl, &nothing);
    let raws = split_rows_exec(&inner);
    let ghost rs = split_rows(inner@);
    let mut rows: Vec<Vec<Cell>> = Vec::new();
    let mut k: usize = 0;
    assert(rs.take(0) =~= Seq::<Seq<char>>::empty());
    assert(Seq::<Vec<Cell>>::empty().map_values(|r: Vec<Cell>| r@.map_values(|c: Cell| cell_v(c)))
        =~= parse_rows(rs.take(0)));
    while k < raws.len()
        invariant
            k <= raws@.len(),
            views(raws@) == rs,
            (Table { rows }).rows@ == rows@,
            table_v(Table { rows }) == parse_rows(rs.take(k as int)),
        decreases raws@.len() - k,
    {
        assert(rs[k as int] == raws@[k as int]@);
        assert(rs.take(k + 1).drop_last() =~= rs.take(k as int));
        assert(rs.take(k + 1).last() == rs[k as int]);
        let raw = trim_chars(&raws[k]);
        if raw.len() > 0 {
            let ghost before = table_v(Table { rows });
            let row = parse_row_exec(&raw);
            rows.push(row);
            assert(table_v(Table { rows }) =~= before.push(parse_row(raw@)));
        }
        k += 1;
    }
    assert(rs.take(k as int) =~= rs);
    if rows.len() == 0 {
        return None;
    }
    Some(Table { rows })
}

/// The HTML of a LaTeX `tabular` island, or `None` when it is not one.
pub fn latex_to_html(tex: &str) -> (r: Option<String>)
    ensures
        match parse_tabular_spec(tex@) {
            Some(rows) => r.is_some() && r.unwrap()@ == html_spec(rows),
            None => r.is_none(),
        },
{
    match parse_tabular(tex) {
        Some(t) => Some(t.to_html()),
        None => None,
    }
}

} // verus!
