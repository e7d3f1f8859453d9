//! Pipe escapes in Markdown cell bodies: escaping commutes with the way a
//! cell body is laid out, and removing the escapes gives the text back.

use vstd::prelude::*;
use crate::cells::{is_list, is_list_marker, leading_digits, is_ascii_digit, md_cell_spec};
use crate::text::{
    collapse_ws, is_ws, join, keep_nonempty, nonblank_lines, newline, replace_all, split_by,
    starts_with, trim, trim_all, trim_end, trim_start, white, words, free_of,
    lemma_split_append_free, lemma_split_nonempty,
};

verus! {

/// Every `|` written as `\|`.
pub open spec fn escape_pipes(s: Seq<char>) -> Seq<char> {
    replace_all(s, seq!['|'], seq!['\\', '|'])
}

/// Every `\|` written back as `|`, left to right.
pub open spec fn unescape_pipes(s: Seq<char>) -> Seq<char> {
    replace_all(s, seq!['\\', '|'], seq!['|'])
}

/// What `escape_pipes` writes for one character.
pub open spec fn pipe_piece(c: char) -> Seq<char> {
    if c == '|' {
        seq!['\\', '|']
    } else {
        seq![c]
    }
}

/// Each piece with its pipes escaped.
pub open spec fn escape_each(ps: Seq<Seq<char>>) -> Seq<Seq<char>> {
    ps.map_values(|x: Seq<char>| escape_pipes(x))
}

/// A cell body laid out for Markdown before its pipes are escaped: list
/// lines joined with `<br>`, other text with its white space collapsed.
pub open spec fn md_layout(s: Seq<char>) -> Seq<char> {
    if is_list(s) {
        join(nonblank_lines(s), seq!['<', 'b', 'r', '>'])
    } else {
        collapse_ws(s)
    }
}

proof fn lemma_esc_empty(s: Seq<char>)
    requires
        s.len() == 0,
    ensures
        escape_pipes(s) == Seq::<char>::empty(),
{
}

proof fn lemma_esc_front(s: Seq<char>)
    requires
        s.len() > 0,
    ensures
        escape_pipes(s) == pipe_piece(s[0]) + escape_pipes(s.drop_first()),
{
    if s[0] == '|' {
        assert(s.take(1) =~= seq!['|']);
        assert(s.skip(1) =~= s.drop_first());
    } else {
        assert(!starts_with(s, seq!['|'])) by {
            if starts_with(s, seq!['|']) {
                assert(s.take(1)[0] == '|');
            }
        }
    }
}

proof fn lemma_esc_first(s: Seq<char>)
    requires
        s.len() > 0,
    ensures
        escape_pipes(s).len() > 0,
        escape_pipes(s)[0] == (if s[0] == '|' { '\\' } else { s[0] }),
        escape_pipes(s)[0] != '|',
{
    lemma_esc_front(s);
}

proof fn lemma_esc_concat(a: Seq<char>, b: Seq<char>)
    ensures
        escape_pipes(a + b) == escape_pipes(a) + escape_pipes(b),
    decreases a.len(),
{
    if a.len() == 0 {
        assert(a + b =~= b);
        lemma_esc_empty(a);
        assert(escape_pipes(a) + escape_pipes(b) =~= escape_pipes(b));
    } else {
        lemma_esc_front(a + b);
        assert((a + b)[0] == a[0]);
        assert((a + b).drop_first() =~= a.drop_first() + b);
        lemma_esc_concat(a.drop_first(), b);
        lemma_esc_front(a);
        assert(pipe_piece(a[0]) + (escape_pipes(a.drop_first()) + escape_pipes(b)) =~= (pipe_piece(
            a[0],
        ) + escape_pipes(a.drop_first())) + escape_pipes(b));
    }
}

proof fn lemma_esc_push(a: Seq<char>, c: char)
    ensures
        escape_pipes(a.push(c)) == escape_pipes(a) + pipe_piece(c),
{
    assert(a.push(c) =~= a + seq![c]);
    lemma_esc_concat(a, seq![c]);
    lemma_esc_front(seq![c]);
    assert(seq![c].drop_first() =~= Seq::<char>::empty());
    lemma_esc_empty(seq![c].drop_first());
    assert(pipe_piece(c) + Seq::<char>::empty() =~= pipe_piece(c));
}

/// Text without `|` is left as it is.
proof fn lemma_esc_plain(x: Seq<char>)
    requires
        forall|i: int| 0 <= i < x.len() ==> #[trigger] x[i] != '|',
    ensures
        escape_pipes(x) == x,
    decreases x.len(),
{
    if x.len() > 0 {
        lemma_esc_front(x);
        assert forall|i: int| 0 <= i < x.drop_first().len() implies #[trigger] x.drop_first()[i]
            != '|' by {
            assert(x.drop_first()[i] == x[i + 1]);
        }
        lemma_esc_plain(x.drop_first());
        assert(seq![x[0]] + x.drop_first() =~= x);
    }
}

proof fn lemma_esc_len(x: Seq<char>)
    ensures
        (escape_pipes(x).len() == 0) == (x.len() == 0),
{
    if x.len() > 0 {
        lemma_esc_first(x);
    }
}

/// Unescaping undoes escaping, whatever backslashes the text held before.
pub proof fn lemma_unescape_escape(x: Seq<char>)
    ensures
        unescape_pipes(escape_pipes(x)) == x,
    decreases x.len(),
{
    let pat = seq!['\\', '|'];
    if x.len() == 0 {
        lemma_esc_empty(x);
        assert(unescape_pipes(Seq::<char>::empty()) =~= Seq::<char>::empty());
    } else {
        let rest = x.drop_first();
        lemma_esc_front(x);
        lemma_unescape_escape(rest);
        let e = escape_pipes(rest);
        if x[0] == '|' {
            let s = pat + e;
            assert(s.take(2) =~= pat);
            assert(s.skip(2) =~= e);
            assert(seq!['|'] + rest =~= x);
        } else {
            let s = seq![x[0]] + e;
            assert(!starts_with(s, pat)) by {
                if starts_with(s, pat) {
                    assert(s.take(2)[0] == '\\');
                    assert(s.take(2)[1] == '|');
                    assert(s[1] == e[0]);
                    lemma_esc_first(rest);
                }
            }
            assert(s.drop_first() =~= e);
            assert(seq![x[0]] + rest =~= x);
        }
    }
}


proof fn lemma_esc_split(s: Seq<char>, p: spec_fn(char) -> bool)
    requires
        !p('|'),
        !p('\\'),
    ensures
        split_by(escape_pipes(s), p) == escape_each(split_by(s, p)),
    decreases s.len(),
{
    if s.len() == 0 {
        lemma_esc_empty(s);
        lemma_esc_empty(Seq::<char>::empty());
        assert(split_by(s, p) =~= seq![Seq::<char>::empty()]);
        assert(escape_each(split_by(s, p)) =~= seq![Seq::<char>::empty()]);
    } else {
        let init = s.drop_last();
        let c = s.last();
        assert(init.push(c) =~= s);
        lemma_esc_push(init, c);
        lemma_esc_split(init, p);
        lemma_split_nonempty(init, p);
        let q = split_by(init, p);
        let eq = escape_each(q);
        let ei = escape_pipes(init);
        if p(c) {
            assert(pipe_piece(c) == seq![c]);
            assert(escape_pipes(s) =~= ei.push(c));
            assert(ei.push(c).drop_last() =~= ei);
            lemma_esc_empty(Seq::<char>::empty());
            assert(escape_each(q.push(Seq::<char>::empty())) =~= eq.push(Seq::<char>::empty()));
        } else {
            let piece = pipe_piece(c);
            assert(free_of(piece, p));
            lemma_split_append_free(ei, piece, p);
            lemma_esc_push(q.last(), c);
            let q2 = q.update(q.len() - 1, q.last().push(c));
            assert(escape_each(q2) =~= eq.update(eq.len() - 1, eq.last() + piece));
        }
    }
}

proof fn lemma_esc_keep(ps: Seq<Seq<char>>)
    ensures
        keep_nonempty(escape_each(ps)) == escape_each(keep_nonempty(ps)),
    decreases ps.len(),
{
    if ps.len() == 0 {
        assert(escape_each(ps) =~= Seq::<Seq<char>>::empty());
        assert(escape_each(Seq::<Seq<char>>::empty()) =~= Seq::<Seq<char>>::empty());
    } else {
        let init = ps.drop_last();
        assert(escape_each(ps).drop_last() =~= escape_each(init));
        assert(escape_each(ps).last() == escape_pipes(ps.last()));
        lemma_esc_keep(init);
        lemma_esc_len(ps.last());
        let k = keep_nonempty(init);
        assert(escape_each(k.push(ps.last())) =~= escape_each(k).push(escape_pipes(ps.last())));
    }
}

proof fn lemma_esc_join(ps: Seq<Seq<char>>, sep: Seq<char>)
    requires
        forall|i: int| 0 <= i < sep.len() ==> #[trigger] sep[i] != '|',
    ensures
        escape_pipes(join(ps, sep)) == join(escape_each(ps), sep),
    decreases ps.len(),
{
    if ps.len() == 0 {
        lemma_esc_empty(Seq::<char>::empty());
    } else if ps.len() == 1 {
    } else {
        let init = ps.drop_last();
        lemma_esc_join(init, sep);
        lemma_esc_plain(sep);
        lemma_esc_concat(join(init, sep), sep);
        lemma_esc_concat(join(init, sep) + sep, ps.last());
        assert(escape_each(ps).drop_last() =~= escape_each(init));
    }
}

proof fn lemma_esc_trim_start(x: Seq<char>)
    ensures
        trim_start(escape_pipes(x)) == escape_pipes(trim_start(x)),
    decreases x.len(),
{
    if x.len() == 0 {
        lemma_esc_empty(x);
    } else {
        lemma_esc_front(x);
        lemma_esc_first(x);
        if is_ws(x[0]) {
            let e = escape_pipes(x);
            assert(e.drop_first() =~= escape_pipes(x.drop_first()));
            lemma_esc_trim_start(x.drop_first());
        }
    }
}

proof fn lemma_esc_trim_end(x: Seq<char>)
    ensures
        trim_end(escape_pipes(x)) == escape_pipes(trim_end(x)),
    decreases x.len(),
{
    if x.len() == 0 {
        lemma_esc_empty(x);
    } else {
        let init = x.drop_last();
        assert(init.push(x.last()) =~= x);
        lemma_esc_push(init, x.last());
        let e = escape_pipes(x);
        if is_ws(x.last()) {
            assert(e.last() == x.last());
            assert(e.drop_last() =~= escape_pipes(init));
            lemma_esc_trim_end(init);
        } else {
            assert(!is_ws(e.last()));
        }
    }
}

proof fn lemma_esc_trim(x: Seq<char>)
    ensures
        trim(escape_pipes(x)) == escape_pipes(trim(x)),
{
    lemma_esc_trim_start(x);
    lemma_esc_trim_end(trim_start(x));
}

/// The lines of escaped text are the escaped lines.
proof fn lemma_esc_lines(s: Seq<char>)
    ensures
        nonblank_lines(escape_pipes(s)) == escape_each(nonblank_lines(s)),
{
    let nl = newline();
    lemma_esc_split(s, nl);
    let ps = split_by(s, nl);
    assert(trim_all(escape_each(ps)) =~= escape_each(trim_all(ps))) by {
        assert forall|i: int| 0 <= i < ps.len() implies #[trigger] trim_all(escape_each(ps))[i]
            == escape_each(trim_all(ps))[i] by {
            lemma_esc_trim(ps[i]);
        }
    }
    lemma_esc_keep(trim_all(ps));
}

/// The words of escaped text are the escaped words.
proof fn lemma_esc_words(s: Seq<char>)
    ensures
        words(escape_pipes(s)) == escape_each(words(s)),
        collapse_ws(escape_pipes(s)) == escape_pipes(collapse_ws(s)),
{
    let w = white();
    assert(!w('|') && !w('\\'));
    lemma_esc_split(s, w);
    lemma_esc_keep(split_by(s, w));
    lemma_esc_join(words(s), seq![' ']);
}


proof fn lemma_esc_starts2(u: Seq<char>, a: char, b: char)
    requires
        a != '|' && a != '\\',
        b != '|' && b != '\\',
    ensures
        starts_with(escape_pipes(u), seq![a, b]) == starts_with(u, seq![a, b]),
{
    let e = escape_pipes(u);
    let pat = seq![a, b];
    if u.len() == 0 {
        lemma_esc_empty(u);
    } else {
        lemma_esc_front(u);
        lemma_esc_first(u);
        let rest = u.drop_first();
        if starts_with(e, pat) {
            assert(e.take(2)[0] == a && e.take(2)[1] == b);
            assert(u[0] != '|');
            assert(e[1] == escape_pipes(rest)[0]);
            if rest.len() == 0 {
                lemma_esc_empty(rest);
            }
            lemma_esc_first(rest);
            assert(u.take(2) =~= pat);
        }
        if starts_with(u, pat) {
            assert(u.take(2)[0] == a && u.take(2)[1] == b);
            assert(rest[0] == b);
            lemma_esc_first(rest);
            assert(e.take(2) =~= pat);
        }
    }
}

proof fn lemma_digits_len(t: Seq<char>)
    ensures
        leading_digits(t) <= t.len(),
    decreases t.len(),
{
    if t.len() > 0 {
        lemma_digits_len(t.drop_first());
    }
}

proof fn lemma_esc_digits(t: Seq<char>)
    ensures
        leading_digits(t) <= t.len(),
        leading_digits(escape_pipes(t)) == leading_digits(t),
        escape_pipes(t).skip(leading_digits(t) as int) == escape_pipes(t.skip(leading_digits(t) as int)),
    decreases t.len(),
{
    if t.len() == 0 {
        lemma_esc_empty(t);
        assert(t.skip(0) =~= t);
    } else {
        lemma_esc_front(t);
        lemma_esc_first(t);
        let e = escape_pipes(t);
        if is_ascii_digit(t[0]) {
            let rest = t.drop_first();
            lemma_esc_digits(rest);
            assert(e.drop_first() =~= escape_pipes(rest));
            let d = leading_digits(t) as int;
            assert(d == 1 + leading_digits(rest));
            lemma_digits_len(escape_pipes(rest));
            assert(pipe_piece(t[0]) == seq![t[0]]);
            assert(e.skip(d) =~= escape_pipes(rest).skip(d - 1));
            assert(t.skip(d) =~= rest.skip(d - 1));
        } else {
            assert(e.skip(0) =~= e);
            assert(t.skip(0) =~= t);
        }
    }
}

proof fn lemma_esc_marker(l: Seq<char>)
    ensures
        is_list_marker(escape_pipes(l)) == is_list_marker(l),
{
    let t = trim_start(l);
    lemma_esc_trim_start(l);
    lemma_esc_digits(t);
    let d = leading_digits(t) as int;
    lemma_esc_starts2(t, '-', ' ');
    lemma_esc_starts2(t, '*', ' ');
    lemma_esc_starts2(t, '+', ' ');
    lemma_esc_starts2(t.skip(d), '.', ' ');
    lemma_esc_starts2(t.skip(d), ')', ' ');
}

/// Escaping pipes does not change whether text is a list.
proof fn lemma_esc_is_list(s: Seq<char>)
    ensures
        is_list(escape_pipes(s)) == is_list(s),
{
    lemma_esc_lines(s);
    let ls = nonblank_lines(s);
    let es = nonblank_lines(escape_pipes(s));
    assert forall|i: int| 0 <= i < ls.len() implies #[trigger] is_list_marker(es[i])
        == is_list_marker(ls[i]) by {
        lemma_esc_marker(ls[i]);
    }
    if is_list(s) {
        assert forall|i: int| 0 <= i < es.len() implies #[trigger] is_list_marker(es[i]) by {
            assert(is_list_marker(ls[i]));
        }
    }
    if is_list(escape_pipes(s)) {
        assert forall|i: int| 0 <= i < ls.len() implies #[trigger] is_list_marker(ls[i]) by {
            assert(is_list_marker(es[i]));
        }
    }
}

/// A Markdown cell body is its text laid out as usual with every pipe
/// escaped, and removing the escapes gives that layout back: no character
/// of the cell is lost or changed, only white space is collapsed (or, for
/// a list, its lines are joined with `<br>`).
pub proof fn lemma_md_cell_unescapes(s: Seq<char>)
    ensures
        md_cell_spec(s) == escape_pipes(md_layout(s)),
        unescape_pipes(md_cell_spec(s)) == md_layout(s),
{
    lemma_esc_is_list(s);
    if is_list(s) {
        lemma_esc_lines(s);
        lemma_esc_join(nonblank_lines(s), seq!['<', 'b', 'r', '>']);
    } else {
        lemma_esc_words(s);
    }
    lemma_unescape_escape(md_layout(s));
}

} // verus!
