//! Cell text handling shared by the table formats: list detection, Markdown and
//! LaTeX cell bodies, HTML entity escaping.

use vstd::prelude::*;
use crate::text::{
    chars_of, collapse_ws, collapse_ws_exec, contains, contains_exec, has_char, join, join_exec,
    matches_at, nonblank_lines, nonblank_lines_exec, push_all, replace_all, replace_exec,
    starts_with, string_of, trim, trim_chars, trim_start, trim_start_chars, views,
};
use crate::text::{
    free_of, keep_nonempty, lemma_join_ends, lemma_join_free, lemma_keep_nonempty_props,
    lemma_split_append_free, lemma_split_free, lemma_split_join, lemma_trim_fixed, lemma_trim_props,
    newline, split_by, trim_all, trimmed, white, words,
};
use crate::text::{is_ws, trim_end};

verus! {

pub open spec fn is_ascii_digit(c: char) -> bool {
    '0' <= c && c <= '9'
}

/// Number of ASCII digits at the start of `t`.
pub open spec fn leading_digits(t: Seq<char>) -> nat
    decreases t.len(),
{
    if t.len() > 0 && is_ascii_digit(t[0]) {
        1 + leading_digits(t.drop_first())
    } else {
        0
    }
}

/// A list item line: `- `, `* `, `+ ` or digits followed by `. ` or `) `.
pub open spec fn is_list_marker(line: Seq<char>) -> bool {
    let t = trim_start(line);
    let d = leading_digits(t) as int;
    ||| starts_with(t, seq!['-', ' '])
    ||| starts_with(t, seq!['*', ' '])
    ||| starts_with(t, seq!['+', ' '])
    ||| (d > 0 && (starts_with(t.skip(d), seq!['.', ' ']) || starts_with(t.skip(d), seq![')', ' '])))
}

/// Text whose non-blank lines are all list items (and there is at least one).
pub open spec fn is_list(text: Seq<char>) -> bool {
    let ls = nonblank_lines(text);
    ls.len() > 0 && forall|i: int| 0 <= i < ls.len() ==> #[trigger] is_list_marker(ls[i])
}

/// Number of ASCII digits at the start of `t`.
pub fn leading_digits_exec(t: &[char]) -> (n: usize)
    ensures
        n == leading_digits(t@),
        n <= t@.len(),
{
    let mut i: usize = 0;
    assert(t@.skip(0) =~= t@);
    while i < t.len() && '0' <= t[i] && t[i] <= '9'
        invariant
            i <= t@.len(),
            leading_digits(t@) == i + leading_digits(t@.skip(i as int)),
        decreases t@.len() - i,
    {
        assert(t@.skip(i as int).drop_first() =~= t@.skip(i + 1));
        i += 1;
    }
    i
}

/// Whether `line` starts (after white space) with a list marker.
pub fn list_marker(line: &[char]) -> (b: bool)
    ensures
        b == is_list_marker(line@),
{
    let t = trim_start_chars(line);
    let dash = vec!['-', ' '];
    assert(dash@ =~= seq!['-', ' ']);
    let star = vec!['*', ' '];
    assert(star@ =~= seq!['*', ' ']);
    let plus = vec!['+', ' '];
    assert(plus@ =~= seq!['+', ' ']);
    assert(t@.skip(0) =~= t@);
    if matches_at(&t, 0, &dash) || matches_at(&t, 0, &star) || matches_at(&t, 0, &plus) {
        return true;
    }
    let digits = leading_digits_exec(&t);
    if digits == 0 {
        return false;
    }
    let dot = vec!['.', ' '];
    assert(dot@ =~= seq!['.', ' ']);
    let paren = vec![')', ' '];
    assert(paren@ =~= seq![')', ' ']);
    matches_at(&t, digits, &dot) || matches_at(&t, digits, &paren)
}

/// Whether every non-blank line of `text` is a list item (and there is one).
pub fn looks_like_list_chars(text: &[char]) -> (b: bool)
    ensures
        b == is_list(text@),
{
    let lines = nonblank_lines_exec(text);
    if lines.len() == 0 {
        return false;
    }
    let mut i: usize = 0;
    while i < lines.len()
        invariant
            i <= lines@.len(),
            views(lines@) == nonblank_lines(text@),
            forall|j: int| 0 <= j < i ==> #[trigger] is_list_marker(nonblank_lines(text@)[j]),
        decreases lines@.len() - i,
    {
        assert(views(lines@)[i as int] == lines@[i as int]@);
        if !list_marker(lines[i].as_slice()) {
            return false;
        }
        i += 1;
    }
    true
}

/// Lines that are ordered (`1.`) or unordered (`-` / `*` / `+`) list items.
pub fn looks_like_list(text: &str) -> (b: bool)
    ensures
        b == is_list(text@),
{
    let v = chars_of(text);
    looks_like_list_chars(&v)
}

/// `cell_display_text` on character sequences.
pub open spec fn display_text(text: Seq<char>) -> Seq<char> {
    if is_list(text) {
        join(nonblank_lines(text), seq!['\n'])
    } else {
        collapse_ws(text)
    }
}

/// The lines of a one-line text with no white space at its ends: itself.
proof fn lemma_single_line(s: Seq<char>)
    requires
        s.len() > 0,
        free_of(s, newline()),
        trimmed(s),
    ensures
        nonblank_lines(s) == seq![s],
{
    lemma_split_append_free(Seq::<char>::empty(), s, newline());
    assert(Seq::<char>::empty() + s =~= s);
    assert(split_by(Seq::<char>::empty(), newline()) =~= seq![Seq::<char>::empty()]);
    assert(split_by(s, newline()) =~= seq![s]);
    lemma_trim_fixed(s);
    assert(trim_all(seq![s]) =~= seq![s]);
    lemma_keep_nonempty_props(seq![s], |x: Seq<char>| true);
}

/// Showing a cell's text a second time changes nothing: its list lines, or
/// its words, come back as they are.
pub proof fn lemma_display_text_idempotent(t: Seq<char>)
    ensures
        display_text(display_text(t)) == display_text(t),
{
    let nl = newline();
    let w = white();
    if is_list(t) {
        let pieces = split_by(t, nl);
        lemma_split_free(t, nl);
        let tp = trim_all(pieces);
        let q = |x: Seq<char>| free_of(x, nl) && trimmed(x);
        assert forall|i: int| 0 <= i < tp.len() implies q(#[trigger] tp[i]) by {
            lemma_trim_props(pieces[i], nl);
        }
        lemma_keep_nonempty_props(tp, q);
        let lines = nonblank_lines(t);
        assert(lines == keep_nonempty(tp));
        assert forall|i: int| 0 <= i < lines.len() implies free_of(#[trigger] lines[i], nl) by {
            assert(q(lines[i]));
        }
        lemma_split_join(lines, '\n', nl);
        let out = join(lines, seq!['\n']);
        assert(trim_all(lines) =~= lines) by {
            assert forall|i: int| 0 <= i < lines.len() implies trim(#[trigger] lines[i]) == lines[i] by {
                assert(q(lines[i]));
                lemma_trim_fixed(lines[i]);
            }
        }
        lemma_keep_nonempty_props(lines, q);
        assert(nonblank_lines(out) == lines);
    } else {
        let pieces = split_by(t, w);
        lemma_split_free(t, w);
        let q = |x: Seq<char>| free_of(x, w);
        lemma_keep_nonempty_props(pieces, q);
        let ws = words(t);
        let out = collapse_ws(t);
        if ws.len() == 0 {
            assert(out == Seq::<char>::empty());
            assert(split_by(out, nl) =~= seq![Seq::<char>::empty()]);
            assert(split_by(out, w) =~= seq![Seq::<char>::empty()]);
            assert(trim_all(seq![Seq::<char>::empty()]) =~= seq![Seq::<char>::empty()]) by {
                assert(trim(Seq::<char>::empty()) =~= Seq::<char>::empty());
            }
            assert(keep_nonempty(seq![Seq::<char>::empty()]) =~= Seq::<Seq<char>>::empty()) by {
                assert(seq![Seq::<char>::empty()].drop_last() =~= Seq::<Seq<char>>::empty());
                assert(keep_nonempty(Seq::<Seq<char>>::empty()) =~= Seq::<Seq<char>>::empty());
            }
            assert(!is_list(out));
            assert(words(out) =~= Seq::<Seq<char>>::empty());
        } else {
            assert forall|i: int| 0 <= i < ws.len() implies free_of(#[trigger] ws[i], w) by {
                assert(q(ws[i]));
            }
            lemma_split_join(ws, ' ', w);
            lemma_keep_nonempty_props(ws, q);
            assert(words(out) == ws);
            if is_list(out) {
                assert forall|i: int| 0 <= i < ws.len() implies free_of(#[trigger] ws[i], nl) by {
                    assert(free_of(ws[i], w));
                    assert forall|k: int| 0 <= k < ws[i].len() implies !nl(#[trigger] ws[i][k]) by {
                        assert(!w(ws[i][k]));
                    }
                }
                lemma_join_free(ws, ' ', nl);
                assert forall|i: int| 0 <= i < ws.len() implies #[trigger] ws[i].len() > 0 by {
                    assert(ws[i].len() > 0 && q(ws[i]));
                }
                lemma_join_ends(ws, seq![' ']);
                assert(!w(ws[0][0])) by {
                    assert(free_of(ws[0], w));
                }
                assert(!w(ws.last()[ws.last().len() - 1])) by {
                    assert(free_of(ws[ws.len() - 1], w));
                }
                lemma_single_line(out);
                assert(join(seq![out], seq!['\n']) == out);
            }
        }
    }
}

/// Collapse OCR wrap, but keep list item line breaks for preview/export.
pub fn cell_display_text(text: &str) -> (out: String)
    ensures
        out@ == display_text(text@),
{
    let v = chars_of(text);
    let r = if looks_like_list_chars(&v) {
        let lines = nonblank_lines_exec(&v);
        let nl = vec!['\n'];
        assert(nl@ =~= seq!['\n']);
        join_exec(&lines, &nl)
    } else {
        collapse_ws_exec(&v)
    };
    string_of(&r)
}

// ------------------------------------------------------------ pipe laws

/// Every `|` of `s` has a backslash right before it, so none of them ends
/// a Markdown table cell.
pub open spec fn pipes_escaped(s: Seq<char>) -> bool {
    forall|i: int| 0 <= i < s.len() && #[trigger] s[i] == '|' ==> i > 0 && s[i - 1] == '\\'
}

proof fn lemma_pipes_concat(a: Seq<char>, b: Seq<char>)
    requires
        pipes_escaped(a),
        pipes_escaped(b),
    ensures
        pipes_escaped(a + b),
{
    let s = a + b;
    assert forall|i: int| 0 <= i < s.len() && #[trigger] s[i] == '|' implies i > 0 && s[i - 1] == '\\' by {
        if i < a.len() {
            assert(s[i] == a[i]);
            assert(s[i - 1] == a[i - 1]);
        } else {
            assert(s[i] == b[i - a.len()]);
            if i - a.len() > 0 {
                assert(s[i - 1] == b[i - 1 - a.len()]);
            }
        }
    }
}

proof fn lemma_pipes_plain(a: Seq<char>)
    requires
        forall|i: int| 0 <= i < a.len() ==> #[trigger] a[i] != '|',
    ensures
        pipes_escaped(a),
{
}

proof fn lemma_pipes_prefix(s: Seq<char>, k: int)
    requires
        pipes_escaped(s),
        0 <= k <= s.len(),
    ensures
        pipes_escaped(s.take(k)),
{
    assert forall|i: int| 0 <= i < s.take(k).len() && #[trigger] s.take(k)[i] == '|' implies i > 0 && s.take(k)[i
        - 1] == '\\' by {
        assert(s.take(k)[i] == s[i]);
    }
}

/// Replacing each `|` with `\|` escapes every pipe.
proof fn lemma_pipes_replace(s: Seq<char>)
    ensures
        pipes_escaped(replace_all(s, seq!['|'], seq!['\\', '|'])),
    decreases s.len(),
{
    if s.len() == 0 {
        assert(replace_all(s, seq!['|'], seq!['\\', '|']) =~= Seq::<char>::empty());
    } else {
        lemma_pipes_replace(s.drop_first());
        lemma_replace_char_front(s, '|', seq!['\\', '|']);
        let piece = if s[0] == '|' { seq!['\\', '|'] } else { seq![s[0]] };
        assert(pipes_escaped(piece)) by {
            assert forall|i: int| 0 <= i < piece.len() && #[trigger] piece[i] == '|' implies i > 0
                && piece[i - 1] == '\\' by {}
        }
        lemma_pipes_concat(piece, replace_all(s.drop_first(), seq!['|'], seq!['\\', '|']));
    }
}

/// Splitting at characters other than the backslash keeps pipes escaped in
/// every piece.
proof fn lemma_pipes_split(s: Seq<char>, p: spec_fn(char) -> bool)
    requires
        pipes_escaped(s),
        !p('\\'),
    ensures
        forall|k: int| 0 <= k < split_by(s, p).len() ==> pipes_escaped(#[trigger] split_by(s, p)[k]),
        s.len() > 0 && !p(s.last()) ==> split_by(s, p).last().len() > 0 && split_by(s, p).last().last()
            == s.last(),
    decreases s.len(),
{
    if s.len() == 0 {
        assert(split_by(s, p) =~= seq![Seq::<char>::empty()]);
        assert(pipes_escaped(Seq::<char>::empty()));
    } else {
        let init = s.drop_last();
        lemma_pipes_prefix(s, s.len() - 1);
        assert(s.take(s.len() - 1) =~= init);
        lemma_pipes_split(init, p);
        crate::text::lemma_split_nonempty(init, p);
        let prev = split_by(init, p);
        let c = s.last();
        if p(c) {
            assert(pipes_escaped(Seq::<char>::empty()));
            assert forall|k: int| 0 <= k < split_by(s, p).len() implies pipes_escaped(
                #[trigger] split_by(s, p)[k],
            ) by {
                if k < prev.len() {
                    assert(split_by(s, p)[k] == prev[k]);
                }
            }
        } else {
            let l = prev.last();
            assert(pipes_escaped(prev[prev.len() - 1]));
            let l2 = l.push(c);
            assert(pipes_escaped(l2)) by {
                assert forall|i: int| 0 <= i < l2.len() && #[trigger] l2[i] == '|' implies i > 0 && l2[i
                    - 1] == '\\' by {
                    if i < l.len() {
                        assert(l2[i] == l[i]);
                        assert(l2[i - 1] == l[i - 1]);
                    } else {
                        assert(c == '|');
                        assert(s[s.len() - 1] == '|');
                        assert(s.len() - 1 > 0 && s[s.len() - 2] == '\\');
                        assert(init.last() == '\\');
                        assert(l.len() > 0 && l.last() == '\\');
                        assert(l2[i - 1] == l[l.len() - 1]);
                    }
                }
            }
            assert forall|k: int| 0 <= k < split_by(s, p).len() implies pipes_escaped(
                #[trigger] split_by(s, p)[k],
            ) by {
                if k < prev.len() - 1 {
                    assert(split_by(s, p)[k] == prev[k]);
                } else {
                    assert(split_by(s, p)[k] == l2);
                }
            }
        }
    }
}

proof fn lemma_pipes_trim(s: Seq<char>)
    requires
        pipes_escaped(s),
    ensures
        pipes_escaped(trim(s)),
{
    lemma_pipes_trim_start(s);
    lemma_pipes_trim_end(trim_start(s));
}

proof fn lemma_pipes_trim_start(s: Seq<char>)
    requires
        pipes_escaped(s),
    ensures
        pipes_escaped(trim_start(s)),
    decreases s.len(),
{
    if s.len() > 0 && is_ws(s[0]) {
        let t = s.drop_first();
        assert(pipes_escaped(t)) by {
            assert forall|i: int| 0 <= i < t.len() && #[trigger] t[i] == '|' implies i > 0 && t[i - 1] == '\\' by {
                assert(t[i] == s[i + 1]);
                assert(s[i] == '\\');
                if i == 0 {
                    assert(s[0] == '\\');
                } else {
                    assert(t[i - 1] == s[i]);
                }
            }
        }
        lemma_pipes_trim_start(t);
    }
}

proof fn lemma_pipes_trim_end(s: Seq<char>)
    requires
        pipes_escaped(s),
    ensures
        pipes_escaped(trim_end(s)),
    decreases s.len(),
{
    if s.len() > 0 && is_ws(s.last()) {
        lemma_pipes_prefix(s, s.len() - 1);
        assert(s.take(s.len() - 1) =~= s.drop_last());
        lemma_pipes_trim_end(s.drop_last());
    }
}

proof fn lemma_pipes_join(ps: Seq<Seq<char>>, sep: Seq<char>)
    requires
        pipes_escaped(sep),
        forall|k: int| 0 <= k < ps.len() ==> pipes_escaped(#[trigger] ps[k]),
    ensures
        pipes_escaped(join(ps, sep)),
    decreases ps.len(),
{
    if ps.len() == 0 {
        assert(pipes_escaped(Seq::<char>::empty()));
    } else if ps.len() == 1 {
        assert(pipes_escaped(ps[0]));
    } else {
        let init = ps.drop_last();
        assert forall|k: int| 0 <= k < init.len() implies pipes_escaped(#[trigger] init[k]) by {
            assert(init[k] == ps[k]);
        }
        lemma_pipes_join(init, sep);
        assert(pipes_escaped(ps[ps.len() - 1]));
        lemma_pipes_concat(join(init, sep), sep);
        lemma_pipes_concat(join(init, sep) + sep, ps.last());
    }
}

/// Every Markdown cell body keeps its pipes escaped, so a row has one
/// unescaped `|` per column border and no more.
pub proof fn lemma_md_cell_pipes_escaped(s: Seq<char>)
    ensures
        pipes_escaped(md_cell_spec(s)),
{
    let s2 = replace_all(s, seq!['|'], seq!['\\', '|']);
    lemma_pipes_replace(s);
    if is_list(s2) {
        let nl = newline();
        lemma_pipes_split(s2, nl);
        let pieces = split_by(s2, nl);
        let tp = trim_all(pieces);
        assert forall|k: int| 0 <= k < tp.len() implies pipes_escaped(#[trigger] tp[k]) by {
            lemma_pipes_trim(pieces[k]);
        }
        lemma_keep_nonempty_props(tp, |x: Seq<char>| pipes_escaped(x));
        let lines = nonblank_lines(s2);
        assert forall|k: int| 0 <= k < lines.len() implies pipes_escaped(#[trigger] lines[k]) by {
            assert((|x: Seq<char>| pipes_escaped(x))(lines[k]));
        }
        lemma_pipes_plain(seq!['<', 'b', 'r', '>']);
        lemma_pipes_join(lines, seq!['<', 'b', 'r', '>']);
    } else {
        let w = white();
        assert(!w('\\'));
        lemma_pipes_split(s2, w);
        let pieces = split_by(s2, w);
        lemma_keep_nonempty_props(pieces, |x: Seq<char>| pipes_escaped(x));
        let ws = words(s2);
        assert forall|k: int| 0 <= k < ws.len() implies pipes_escaped(#[trigger] ws[k]) by {
            assert((|x: Seq<char>| pipes_escaped(x))(ws[k]));
        }
        lemma_pipes_plain(seq![' ']);
        lemma_pipes_join(ws, seq![' ']);
    }
}

/// Markdown cell body: pipes escaped; list lines joined with `<br>`, other
/// text collapsed to single spaces.
pub open spec fn md_cell_spec(s: Seq<char>) -> Seq<char> {
    let s2 = replace_all(s, seq!['|'], seq!['\\', '|']);
    if is_list(s2) {
        join(nonblank_lines(s2), seq!['<', 'b', 'r', '>'])
    } else {
        collapse_ws(s2)
    }
}

pub fn md_cell(s: &[char]) -> (out: Vec<char>)
    ensures
        out@ == md_cell_spec(s@),
{
    let pipe = vec!['|'];
    assert(pipe@ =~= seq!['|']);
    let esc = vec!['\\', '|'];
    assert(esc@ =~= seq!['\\', '|']);
    let s2 = replace_exec(s, &pipe, &esc);
    if looks_like_list_chars(&s2) {
        let lines = nonblank_lines_exec(&s2);
        let br = vec!['<', 'b', 'r', '>'];
        assert(br@ =~= seq!['<', 'b', 'r', '>']);
        join_exec(&lines, &br)
    } else {
        collapse_ws_exec(&s2)
    }
}

/// What `escape_latex_cell` writes for one character.
pub open spec fn latex_escape_char(c: char) -> Seq<char> {
    if c == '\\' {
        seq!['\\', 't', 'e', 'x', 't', 'b', 'a', 'c', 'k', 's', 'l', 'a', 's', 'h', '{', '}']
    } else if c == '{' {
        seq!['\\', '{']
    } else if c == '}' {
        seq!['\\', '}']
    } else if c == '%' {
        seq!['\\', '%']
    } else if c == '&' {
        seq!['\\', '&']
    } else if c == '$' {
        seq!['\\', '$']
    } else if c == '#' {
        seq!['\\', '#']
    } else if c == '_' {
        seq!['\\', '_']
    } else if c == '~' {
        seq![
            '\\', 't', 'e', 'x', 't', 'a', 's', 'c', 'i', 'i', 't', 'i', 'l', 'd', 'e', '{', '}',
        ]
    } else if c == '^' {
        seq![
            '\\', 't', 'e', 'x', 't', 'a', 's', 'c', 'i', 'i', 'c', 'i', 'r', 'c', 'u', 'm', '{',
            '}',
        ]
    } else if c == '\n' {
        seq![' ']
    } else {
        seq![c]
    }
}

/// LaTeX special characters escaped, newlines turned into spaces.
pub open spec fn escape_latex(s: Seq<char>) -> Seq<char>
    decreases s.len(),
{
    if s.len() == 0 {
        Seq::empty()
    } else {
        escape_latex(s.drop_last()) + latex_escape_char(s.last())
    }
}

// ------------------------------------------------------------ reading TeX back

pub open spec fn tex_backslash() -> Seq<char> {
    seq!['\\', 't', 'e', 'x', 't', 'b', 'a', 'c', 'k', 's', 'l', 'a', 's', 'h', '{', '}']
}

pub open spec fn tex_tilde() -> Seq<char> {
    seq!['\\', 't', 'e', 'x', 't', 'a', 's', 'c', 'i', 'i', 't', 'i', 'l', 'd', 'e', '{', '}']
}

pub open spec fn tex_circum() -> Seq<char> {
    seq!['\\', 't', 'e', 'x', 't', 'a', 's', 'c', 'i', 'i', 'c', 'i', 'r', 'c', 'u', 'm', '{', '}']
}

/// The characters TeX treats specially in running text.
pub open spec fn tex_special(c: char) -> bool {
    c == '\\' || c == '{' || c == '}' || c == '%' || c == '&' || c == '$' || c == '#' || c == '_'
        || c == '~' || c == '^'
}

/// The characters that a backslash in front makes literal.
pub open spec fn tex_escapable(c: char) -> bool {
    c == '{' || c == '}' || c == '%' || c == '&' || c == '$' || c == '#' || c == '_'
}

pub open spec fn prepend(c: char, r: Option<Seq<char>>) -> Option<Seq<char>> {
    match r {
        Some(t) => Some(seq![c] + t),
        None => None,
    }
}

/// The text a TeX reader sees in `s`: `\textbackslash{}`,
/// `\textasciitilde{}`, `\textasciicircum{}` and a backslash before one of
/// `{ } % & $ # _` stand for that character; any other special character
/// makes the text something other than plain text (`None`).
pub open spec fn tex_read(s: Seq<char>) -> Option<Seq<char>>
    decreases s.len(),
{
    if s.len() == 0 {
        Some(Seq::empty())
    } else if starts_with(s, tex_backslash()) {
        prepend('\\', tex_read(s.skip(tex_backslash().len() as int)))
    } else if starts_with(s, tex_tilde()) {
        prepend('~', tex_read(s.skip(tex_tilde().len() as int)))
    } else if starts_with(s, tex_circum()) {
        prepend('^', tex_read(s.skip(tex_circum().len() as int)))
    } else if s[0] == '\\' && s.len() >= 2 && tex_escapable(s[1]) {
        prepend(s[1], tex_read(s.skip(2)))
    } else if tex_special(s[0]) {
        None
    } else {
        prepend(s[0], tex_read(s.drop_first()))
    }
}

proof fn lemma_not_prefix(s: Seq<char>, w: Seq<char>, k: int)
    requires
        0 <= k < w.len(),
        k < s.len(),
        s[k] != w[k],
    ensures
        !starts_with(s, w),
{
    if starts_with(s, w) {
        assert(s.take(w.len() as int)[k] == w[k]);
    }
}

proof fn lemma_is_prefix(w: Seq<char>, y: Seq<char>)
    ensures
        starts_with(w + y, w),
        (w + y).skip(w.len() as int) == y,
{
    assert((w + y).take(w.len() as int) =~= w);
    assert((w + y).skip(w.len() as int) =~= y);
}

/// `escape_latex` read from the front.
proof fn lemma_escape_front(t: Seq<char>)
    requires
        t.len() > 0,
    ensures
        escape_latex(t) == latex_escape_char(t[0]) + escape_latex(t.drop_first()),
    decreases t.len(),
{
    if t.len() == 1 {
        assert(t.drop_last() =~= Seq::<char>::empty());
        assert(t.drop_first() =~= Seq::<char>::empty());
        assert(escape_latex(Seq::<char>::empty()) =~= Seq::<char>::empty());
        assert(latex_escape_char(t[0]) + Seq::<char>::empty() =~= latex_escape_char(t[0]));
    } else {
        let init = t.drop_last();
        lemma_escape_front(init);
        assert(init[0] == t[0]);
        assert(t.drop_first().drop_last() =~= init.drop_first());
        assert(t.drop_first().last() == t.last());
        assert(latex_escape_char(t[0]) + escape_latex(init.drop_first()) + latex_escape_char(t.last())
            =~= latex_escape_char(t[0]) + (escape_latex(init.drop_first()) + latex_escape_char(t.last())));
    }
}

/// Reading one escaped character back.
proof fn lemma_read_piece(c: char, y: Seq<char>)
    ensures
        tex_read(latex_escape_char(c) + y) == prepend(if c == '\n' { ' ' } else { c }, tex_read(y)),
{
    let s = latex_escape_char(c) + y;
    let b = tex_backslash();
    let ti = tex_tilde();
    let ci = tex_circum();
    if c == '\\' {
        lemma_is_prefix(b, y);
    } else if c == '~' {
        lemma_not_prefix(s, b, 5);
        lemma_is_prefix(ti, y);
    } else if c == '^' {
        lemma_not_prefix(s, b, 5);
        lemma_not_prefix(s, ti, 10);
        lemma_is_prefix(ci, y);
    } else if tex_escapable(c) {
        assert(s[0] == '\\' && s[1] == c);
        lemma_not_prefix(s, b, 1);
        lemma_not_prefix(s, ti, 1);
        lemma_not_prefix(s, ci, 1);
        assert(s.skip(2) =~= y);
    } else {
        let d = if c == '\n' { ' ' } else { c };
        assert(latex_escape_char(c) == seq![d]);
        assert(s[0] == d);
        lemma_not_prefix(s, b, 0);
        lemma_not_prefix(s, ti, 0);
        lemma_not_prefix(s, ci, 0);
        assert(s.drop_first() =~= y);
    }
}

/// Text with each newline read as a space.
pub open spec fn newlines_as_spaces(t: Seq<char>) -> Seq<char> {
    t.map_values(|c: char| if c == '\n' { ' ' } else { c })
}

/// The escaped text holds no bare special character: a TeX reader takes
/// every character back, newlines as spaces.
pub proof fn lemma_escape_reads_back(t: Seq<char>)
    ensures
        tex_read(escape_latex(t)) is Some,
        tex_read(escape_latex(t)) == Some(newlines_as_spaces(t)),
        (forall|i: int| 0 <= i < t.len() ==> #[trigger] t[i] != '\n') ==> tex_read(escape_latex(t))
            == Some(t),
    decreases t.len(),
{
    if t.len() == 0 {
        assert(escape_latex(t) =~= Seq::<char>::empty());
        assert(newlines_as_spaces(t) =~= Seq::<char>::empty());
    } else {
        lemma_escape_front(t);
        lemma_escape_reads_back(t.drop_first());
        lemma_read_piece(t[0], escape_latex(t.drop_first()));
        let d = if t[0] == '\n' { ' ' } else { t[0] };
        assert(seq![d] + newlines_as_spaces(t.drop_first()) =~= newlines_as_spaces(t));
        if forall|i: int| 0 <= i < t.len() ==> #[trigger] t[i] != '\n' {
            assert forall|i: int| 0 <= i < t.drop_first().len() implies #[trigger] t.drop_first()[i] != '\n' by {
                assert(t.drop_first()[i] == t[i + 1]);
            }
            assert(t[0] != '\n');
            assert(seq![t[0]] + t.drop_first() =~= t);
        }
    }
}

/// A LaTeX cell body of text that is neither a list nor holds `$` has no
/// bare special character, and reads back as the trimmed text (newlines as
/// spaces).
pub proof fn lemma_latex_cell_reads_back(s: Seq<char>)
    requires
        !is_list(trim(s)),
        !trim(s).contains('$'),
    ensures
        tex_read(latex_cell_spec(s)) is Some,
        tex_read(latex_cell_spec(s)) == Some(newlines_as_spaces(trim(s))),
        (forall|i: int| 0 <= i < trim(s).len() ==> #[trigger] trim(s)[i] != '\n') ==> tex_read(
            latex_cell_spec(s),
        ) == Some(trim(s)),
{
    lemma_escape_reads_back(trim(s));
    if trim(s).len() == 0 {
        assert(tex_read(Seq::<char>::empty()) == Some(Seq::<char>::empty()));
        assert(newlines_as_spaces(trim(s)) =~= Seq::<char>::empty());
    }
}

pub fn escape_latex_cell(text: &[char]) -> (out: Vec<char>)
    ensures
        out@ == escape_latex(text@),
{
    let mut out: Vec<char> = Vec::new();
    let mut i: usize = 0;
    assert(text@.take(0) =~= Seq::<char>::empty());
    while i < text.len()
        invariant
            i <= text@.len(),
            out@ == escape_latex(text@.take(i as int)),
        decreases text@.len() - i,
    {
        let ch = text[i];
        let piece: Vec<char> = if ch == '\\' {
            vec!['\\', 't', 'e', 'x', 't', 'b', 'a', 'c', 'k', 's', 'l', 'a', 's', 'h', '{', '}']
        } else if ch == '{' {
            vec!['\\', '{']
        } else if ch == '}' {
            vec!['\\', '}']
        } else if ch == '%' {
            vec!['\\', '%']
        } else if ch == '&' {
            vec!['\\', '&']
        } else if ch == '$' {
            vec!['\\', '$']
        } else if ch == '#' {
            vec!['\\', '#']
        } else if ch == '_' {
            vec!['\\', '_']
        } else if ch == '~' {
            vec![
                '\\', 't', 'e', 'x', 't', 'a', 's', 'c', 'i', 'i', 't', 'i', 'l', 'd', 'e', '{', '}',
            ]
        } else if ch == '^' {
            vec![
                '\\', 't', 'e', 'x', 't', 'a', 's', 'c', 'i', 'i', 'c', 'i', 'r', 'c', 'u', 'm',
                '{', '}',
            ]
        } else if ch == '\n' {
            vec![' ']
        } else {
            vec![ch]
        };
        assert(piece@ =~= latex_escape_char(ch));
        push_all(&mut out, &piece);
        assert(text@.take(i + 1).drop_last() =~= text@.take(i as int));
        i += 1;
    }
    assert(text@.take(text@.len() as int) =~= text@);
    out
}

/// A list line in a LaTeX `\shortstack`: math kept with pipes dropped,
/// other text escaped.
pub open spec fn latex_list_line(l: Seq<char>) -> Seq<char> {
    if l.contains('$') {
        replace_all(l, seq!['|'], Seq::empty())
    } else {
        escape_latex(l)
    }
}

/// LaTeX cell body.
pub open spec fn latex_cell_spec(s: Seq<char>) -> Seq<char> {
    let t = trim(s);
    if t.len() == 0 {
        Seq::empty()
    } else if is_list(t) {
        seq!['\\', 's', 'h', 'o', 'r', 't', 's', 't', 'a', 'c', 'k', '[', 'l', ']', '{']
            + join(nonblank_lines(t).map_values(|l: Seq<char>| latex_list_line(l)), seq![' ', '\\', '\\', ' '])
            + seq!['}']
    } else if t.contains('$') {
        replace_all(t, seq!['\n'], seq![' '])
    } else {
        escape_latex(t)
    }
}

pub fn latex_cell(s: &[char]) -> (out: Vec<char>)
    ensures
        out@ == latex_cell_spec(s@),
{
    let t = trim_chars(s);
    if t.len() == 0 {
        return Vec::new();
    }
    if looks_like_list_chars(&t) {
        let lines = nonblank_lines_exec(&t);
        let mut mapped: Vec<Vec<char>> = Vec::new();
        let mut i: usize = 0;
        let ghost target = nonblank_lines(t@).map_values(|l: Seq<char>| latex_list_line(l));
        assert(views(mapped@) =~= target.take(0));
        while i < lines.len()
            invariant
                i <= lines@.len(),
                views(lines@) == nonblank_lines(t@),
                target == nonblank_lines(t@).map_values(|l: Seq<char>| latex_list_line(l)),
                views(mapped@) == target.take(i as int),
            decreases lines@.len() - i,
        {
            let l = lines[i].as_slice();
            assert(views(lines@)[i as int] == l@);
            let piece = if has_char(l, '$') {
                let pipe = vec!['|'];
                assert(pipe@ =~= seq!['|']);
                let none: Vec<char> = Vec::new();
                replace_exec(l, &pipe, &none)
            } else {
                escape_latex_cell(l)
            };
            let ghost before = views(mapped@);
            mapped.push(piece);
            assert(views(mapped@) =~= before.push(latex_list_line(l@)));
            i += 1;
            assert(views(mapped@) =~= target.take(i as int));
        }
        assert(target.take(lines@.len() as int) =~= target);
        let mut out = vec![
            '\\', 's', 'h', 'o', 'r', 't', 's', 't', 'a', 'c', 'k', '[', 'l', ']', '{',
        ];
        let sep = vec![' ', '\\', '\\', ' '];
        assert(sep@ =~= seq![' ', '\\', '\\', ' ']);
        let body = join_exec(&mapped, &sep);
        push_all(&mut out, &body);
        out.push('}');
        return out;
    }
    if has_char(&t, '$') {
        let nl = vec!['\n'];
        assert(nl@ =~= seq!['\n']);
        let sp = vec![' '];
        assert(sp@ =~= seq![' ']);
        return replace_exec(&t, &nl, &sp);
    }
    escape_latex_cell(&t)
}

/// `&`, `<`, `>` written as HTML entities.
pub open spec fn html_escape_spec(s: Seq<char>) -> Seq<char> {
    replace_all(
        replace_all(
            replace_all(s, seq!['&'], seq!['&', 'a', 'm', 'p', ';']),
            seq!['<'],
            seq!['&', 'l', 't', ';'],
        ),
        seq!['>'],
        seq!['&', 'g', 't', ';'],
    )
}

pub fn html_escape(s: &[char]) -> (out: Vec<char>)
    ensures
        out@ == html_escape_spec(s@),
{
    let lit1 = vec!['&'];
    assert(lit1@ =~= seq!['&']);
    let lit2 = vec!['&', 'a', 'm', 'p', ';'];
    assert(lit2@ =~= seq!['&', 'a', 'm', 'p', ';']);
    let a = replace_exec(s, &lit1, &lit2);
    let lit3 = vec!['<'];
    assert(lit3@ =~= seq!['<']);
    let lit4 = vec!['&', 'l', 't', ';'];
    assert(lit4@ =~= seq!['&', 'l', 't', ';']);
    let b = replace_exec(&a, &lit3, &lit4);
    let lit5 = vec!['>'];
    assert(lit5@ =~= seq!['>']);
    let lit6 = vec!['&', 'g', 't', ';'];
    assert(lit6@ =~= seq!['&', 'g', 't', ';']);
    replace_exec(&b, &lit5, &lit6)
}

/// The common HTML entities decoded, then trimmed.
pub open spec fn decode_html_spec(s: Seq<char>) -> Seq<char> {
    let s1 = replace_all(s, seq!['&', 'n', 'b', 's', 'p', ';'], seq![' ']);
    let s2 = replace_all(s1, seq!['&', 'a', 'm', 'p', ';'], seq!['&']);
    let s3 = replace_all(s2, seq!['&', 'l', 't', ';'], seq!['<']);
    let s4 = replace_all(s3, seq!['&', 'g', 't', ';'], seq!['>']);
    let s5 = replace_all(s4, seq!['&', 'q', 'u', 'o', 't', ';'], seq!['"']);
    let s6 = replace_all(s5, seq!['&', '#', 'x', '2', '7', ';'], seq!['\'']);
    let s7 = replace_all(s6, seq!['&', '#', '3', '9', ';'], seq!['\'']);
    let s8 = replace_all(s7, seq!['&', 'a', 'p', 'o', 's', ';'], seq!['\'']);
    trim(s8)
}

// ------------------------------------------------------------ escaping laws

/// Replacing a pattern passes over text that holds no character the
/// pattern starts with.
pub proof fn lemma_replace_skip(x: Seq<char>, y: Seq<char>, p: Seq<char>, r: Seq<char>)
    requires
        p.len() > 0,
        forall|i: int| 0 <= i < x.len() ==> #[trigger] x[i] != p[0],
    ensures
        replace_all(x + y, p, r) == x + replace_all(y, p, r),
    decreases x.len(),
{
    if x.len() > 0 {
        assert((x + y)[0] == x[0]);
        assert(!starts_with(x + y, p)) by {
            if starts_with(x + y, p) {
                assert((x + y).take(p.len() as int)[0] == p[0]);
            }
        }
        assert((x + y).drop_first() =~= x.drop_first() + y);
        assert forall|i: int| 0 <= i < x.drop_first().len() implies #[trigger] x.drop_first()[i] != p[0] by {
            assert(x.drop_first()[i] == x[i + 1]);
        }
        lemma_replace_skip(x.drop_first(), y, p, r);
        assert(seq![x[0]] + (x.drop_first() + replace_all(y, p, r)) =~= x + replace_all(y, p, r));
    } else {
        assert(x + y =~= y);
        assert(x + replace_all(y, p, r) =~= replace_all(y, p, r));
    }
}

/// The pattern at the front is replaced.
proof fn lemma_replace_hit(y: Seq<char>, p: Seq<char>, r: Seq<char>)
    requires
        p.len() > 0,
    ensures
        replace_all(p + y, p, r) == r + replace_all(y, p, r),
{
    assert((p + y).len() > 0);
    assert((p + y).take(p.len() as int) =~= p);
    assert((p + y).skip(p.len() as int) =~= y);
}

/// An entity `&..;` that differs from the pattern in its second character
/// is passed over.
proof fn lemma_replace_miss(e: Seq<char>, y: Seq<char>, p: Seq<char>, r: Seq<char>)
    requires
        e.len() >= 2,
        p.len() >= 2,
        e[0] == '&',
        p[0] == '&',
        p[1] != e[1],
        forall|i: int| 1 <= i < e.len() ==> #[trigger] e[i] != '&',
    ensures
        replace_all(e + y, p, r) == e + replace_all(y, p, r),
{
    assert((e + y)[0] == e[0] && (e + y)[1] == e[1]);
    assert(!starts_with(e + y, p)) by {
        if starts_with(e + y, p) {
            assert((e + y).take(p.len() as int)[1] == p[1]);
        }
    }
    let t = e.drop_first();
    assert((e + y).drop_first() =~= t + y);
    assert forall|i: int| 0 <= i < t.len() implies #[trigger] t[i] != p[0] by {
        assert(t[i] == e[i + 1]);
    }
    lemma_replace_skip(t, y, p, r);
    assert(seq![e[0]] + (t + replace_all(y, p, r)) =~= e + replace_all(y, p, r));
}

pub open spec fn lt_entity() -> Seq<char> {
    seq!['&', 'l', 't', ';']
}

pub open spec fn gt_entity() -> Seq<char> {
    seq!['&', 'g', 't', ';']
}

/// `s` with `<` and `>` written as entities, a character at a time.
pub open spec fn angle_escaped(s: Seq<char>) -> Seq<char>
    decreases s.len(),
{
    if s.len() == 0 {
        Seq::empty()
    } else {
        (if s[0] == '<' {
            lt_entity()
        } else if s[0] == '>' {
            gt_entity()
        } else {
            seq![s[0]]
        }) + angle_escaped(s.drop_first())
    }
}

/// `s` with only `>` written as an entity.
pub open spec fn gt_escaped(s: Seq<char>) -> Seq<char>
    decreases s.len(),
{
    if s.len() == 0 {
        Seq::empty()
    } else {
        (if s[0] == '>' { gt_entity() } else { seq![s[0]] }) + gt_escaped(s.drop_first())
    }
}

pub open spec fn amp_free(s: Seq<char>) -> bool {
    forall|i: int| 0 <= i < s.len() ==> #[trigger] s[i] != '&'
}

proof fn lemma_amp_free_rest(s: Seq<char>)
    requires
        amp_free(s),
        s.len() > 0,
    ensures
        amp_free(s.drop_first()),
        s[0] != '&',
{
    assert forall|i: int| 0 <= i < s.drop_first().len() implies #[trigger] s.drop_first()[i] != '&' by {
        assert(s.drop_first()[i] == s[i + 1]);
    }
}

proof fn lemma_replace_char_front(s: Seq<char>, c: char, r: Seq<char>)
    requires
        s.len() > 0,
    ensures
        replace_all(s, seq![c], r) == (if s[0] == c { r } else { seq![s[0]] }) + replace_all(
            s.drop_first(),
            seq![c],
            r,
        ),
{
    if s[0] == c {
        assert(s.take(1) =~= seq![c]);
        assert(s.skip(1) =~= s.drop_first());
    } else {
        assert(!starts_with(s, seq![c])) by {
            if starts_with(s, seq![c]) {
                assert(s.take(1)[0] == c);
            }
        }
    }
}

/// HTML escaping of text without `&` writes `<` and `>` as entities.
proof fn lemma_escape_angles(s: Seq<char>)
    requires
        amp_free(s),
    ensures
        replace_all(replace_all(s, seq!['<'], lt_entity()), seq!['>'], gt_entity()) == angle_escaped(s),
    decreases s.len(),
{
    let lt = lt_entity();
    let gt = gt_entity();
    if s.len() == 0 {
        assert(replace_all(s, seq!['<'], lt) =~= Seq::<char>::empty());
    } else {
        lemma_amp_free_rest(s);
        let rest = s.drop_first();
        lemma_escape_angles(rest);
        lemma_replace_char_front(s, '<', lt);
        let y = replace_all(rest, seq!['<'], lt);
        if s[0] == '<' {
            assert forall|i: int| 0 <= i < lt.len() implies #[trigger] lt[i] != seq!['>'][0] by {}
            lemma_replace_skip(lt, y, seq!['>'], gt);
        } else {
            lemma_replace_char_front(seq![s[0]] + y, '>', gt);
            assert((seq![s[0]] + y).drop_first() =~= y);
        }
    }
}

/// Decoding steps that look for other entities pass over angle-escaped
/// text.
proof fn lemma_angles_pass(s: Seq<char>, p: Seq<char>, r: Seq<char>)
    requires
        amp_free(s),
        p.len() >= 2,
        p[0] == '&',
        p[1] != 'l',
        p[1] != 'g',
    ensures
        replace_all(angle_escaped(s), p, r) == angle_escaped(s),
    decreases s.len(),
{
    if s.len() == 0 {
        assert(replace_all(Seq::<char>::empty(), p, r) =~= Seq::<char>::empty());
    } else {
        lemma_amp_free_rest(s);
        lemma_angles_pass(s.drop_first(), p, r);
        let y = angle_escaped(s.drop_first());
        if s[0] == '<' {
            lemma_replace_miss(lt_entity(), y, p, r);
        } else if s[0] == '>' {
            lemma_replace_miss(gt_entity(), y, p, r);
        } else {
            lemma_replace_skip(seq![s[0]], y, p, r);
        }
    }
}

proof fn lemma_unescape_lt(s: Seq<char>)
    requires
        amp_free(s),
    ensures
        replace_all(angle_escaped(s), lt_entity(), seq!['<']) == gt_escaped(s),
    decreases s.len(),
{
    if s.len() == 0 {
        assert(replace_all(Seq::<char>::empty(), lt_entity(), seq!['<']) =~= Seq::<char>::empty());
    } else {
        lemma_amp_free_rest(s);
        lemma_unescape_lt(s.drop_first());
        let y = angle_escaped(s.drop_first());
        if s[0] == '<' {
            lemma_replace_hit(y, lt_entity(), seq!['<']);
        } else if s[0] == '>' {
            lemma_replace_miss(gt_entity(), y, lt_entity(), seq!['<']);
        } else {
            lemma_replace_skip(seq![s[0]], y, lt_entity(), seq!['<']);
        }
    }
}

proof fn lemma_unescape_gt(s: Seq<char>)
    requires
        amp_free(s),
    ensures
        replace_all(gt_escaped(s), gt_entity(), seq!['>']) == s,
    decreases s.len(),
{
    if s.len() == 0 {
        assert(replace_all(Seq::<char>::empty(), gt_entity(), seq!['>']) =~= Seq::<char>::empty());
    } else {
        lemma_amp_free_rest(s);
        lemma_unescape_gt(s.drop_first());
        let y = gt_escaped(s.drop_first());
        if s[0] == '>' {
            lemma_replace_hit(y, gt_entity(), seq!['>']);
        } else {
            lemma_replace_skip(seq![s[0]], y, gt_entity(), seq!['>']);
        }
        assert(seq![s[0]] + s.drop_first() =~= s);
    }
}

proof fn lemma_replace_none(s: Seq<char>, p: Seq<char>, r: Seq<char>)
    requires
        amp_free(s),
        p.len() > 0,
        p[0] == '&',
    ensures
        replace_all(s, p, r) == s,
{
    lemma_replace_skip(s, Seq::empty(), p, r);
    assert(s + Seq::<char>::empty() =~= s);
    assert(replace_all(Seq::<char>::empty(), p, r) =~= Seq::<char>::empty());
}

/// Decoding undoes escaping: text without `&`, escaped for HTML and then
/// decoded as cell text, comes back as it was, trimmed.
pub proof fn lemma_decode_undoes_escape(s: Seq<char>)
    requires
        amp_free(s),
    ensures
        decode_html_spec(html_escape_spec(s)) == trim(s),
{
    lemma_replace_none(s, seq!['&'], seq!['&', 'a', 'm', 'p', ';']);
    lemma_escape_angles(s);
    assert(seq!['&', 'l', 't', ';'] == lt_entity());
    assert(seq!['&', 'g', 't', ';'] == gt_entity());
    let e = angle_escaped(s);
    assert(html_escape_spec(s) == e);
    lemma_angles_pass(s, seq!['&', 'n', 'b', 's', 'p', ';'], seq![' ']);
    lemma_angles_pass(s, seq!['&', 'a', 'm', 'p', ';'], seq!['&']);
    lemma_unescape_lt(s);
    lemma_unescape_gt(s);
    lemma_replace_none(s, seq!['&', 'q', 'u', 'o', 't', ';'], seq!['"']);
    lemma_replace_none(s, seq!['&', '#', 'x', '2', '7', ';'], seq!['\'']);
    lemma_replace_none(s, seq!['&', '#', '3', '9', ';'], seq!['\'']);
    lemma_replace_none(s, seq!['&', 'a', 'p', 'o', 's', ';'], seq!['\'']);
}

/// An HTML entity: `&`, then characters other than `&` and `;`, then `;`.
pub open spec fn is_entity(e: Seq<char>) -> bool {
    &&& e.len() >= 2
    &&& e[0] == '&'
    &&& e.last() == ';'
    &&& forall|i: int| 0 < i < e.len() ==> #[trigger] e[i] != '&'
    &&& forall|i: int| 0 <= i < e.len() - 1 ==> #[trigger] e[i] != ';'
}

/// The entities `decode_html` knows, `&amp;` aside, by number.
pub open spec fn known_entity(k: int) -> Seq<char> {
    if k == 0 {
        seq!['&', 'n', 'b', 's', 'p', ';']
    } else if k == 2 {
        seq!['&', 'l', 't', ';']
    } else if k == 3 {
        seq!['&', 'g', 't', ';']
    } else if k == 4 {
        seq!['&', 'q', 'u', 'o', 't', ';']
    } else if k == 5 {
        seq!['&', '#', 'x', '2', '7', ';']
    } else if k == 6 {
        seq!['&', '#', '3', '9', ';']
    } else {
        seq!['&', 'a', 'p', 'o', 's', ';']
    }
}

/// The character each known entity stands for.
pub open spec fn entity_char(k: int) -> char {
    if k == 0 {
        ' '
    } else if k == 2 {
        '<'
    } else if k == 3 {
        '>'
    } else if k == 4 {
        '"'
    } else {
        '\''
    }
}

/// Two different entities: neither is where the other is looked for.
proof fn lemma_entity_miss(e: Seq<char>, y: Seq<char>, p: Seq<char>, r: Seq<char>)
    requires
        is_entity(e),
        is_entity(p),
        e != p,
    ensures
        replace_all(e + y, p, r) == e + replace_all(y, p, r),
{
    let i: int = if e.len() < p.len() {
        e.len() - 1
    } else if p.len() < e.len() {
        p.len() - 1
    } else {
        assert(!(e =~= p));
        choose|j: int| 0 <= j < e.len() && e[j] != p[j]
    };
    assert(0 < i < e.len() && i < p.len() && e[i] != p[i]);
    let s = e + y;
    assert(!starts_with(s, p)) by {
        if starts_with(s, p) {
            assert(s.take(p.len() as int)[i] == p[i]);
            assert(s[i] == e[i]);
        }
    }
    let t = e.drop_first();
    assert(s.drop_first() =~= t + y);
    assert forall|j: int| 0 <= j < t.len() implies #[trigger] t[j] != p[0] by {
        assert(t[j] == e[j + 1]);
    }
    lemma_replace_skip(t, y, p, r);
    assert(seq![e[0]] + (t + replace_all(y, p, r)) =~= e + replace_all(y, p, r));
}

/// One decoding pass over `&`-free text around one entity or around text
/// without `&`.
proof fn lemma_entity_pass(x: Seq<char>, m: Seq<char>, y: Seq<char>, p: Seq<char>, r: Seq<char>)
    requires
        amp_free(x),
        amp_free(y),
        is_entity(m) || amp_free(m),
        is_entity(p),
    ensures
        replace_all(x + m + y, p, r) == x + (if is_entity(m) && m == p { r } else { m }) + y,
{
    if is_entity(m) {
        lemma_replace_skip(x, m + y, p, r);
        assert(x + m + y =~= x + (m + y));
        if m == p {
            lemma_replace_hit(y, p, r);
        } else {
            lemma_entity_miss(m, y, p, r);
        }
        lemma_replace_none(y, p, r);
        assert(x + (if m == p { r } else { m } + y) =~= x + (if m == p { r } else { m }) + y);
    } else {
        assert(amp_free(x + m + y)) by {
            let s = x + m + y;
            assert forall|i: int| 0 <= i < s.len() implies #[trigger] s[i] != '&' by {
                if i < x.len() {
                    assert(s[i] == x[i]);
                } else if i < x.len() + m.len() {
                    assert(s[i] == m[i - x.len()]);
                } else {
                    assert(s[i] == y[i - x.len() - m.len()]);
                }
            }
        }
        lemma_replace_none(x + m + y, p, r);
    }
}

/// Every entity the decoder knows, `&amp;` aside, becomes its character:
/// in text without any other `&`, the cell text holds the character and
/// not the entity.
pub proof fn lemma_decode_entity(x: Seq<char>, y: Seq<char>, k: int)
    requires
        amp_free(x),
        amp_free(y),
        0 <= k < 8,
        k != 1,
    ensures
        decode_html_spec(x + known_entity(k) + y) == trim(x + seq![entity_char(k)] + y),
{
    let p0 = seq!['&', 'n', 'b', 's', 'p', ';'];
    let p1 = seq!['&', 'a', 'm', 'p', ';'];
    let p2 = seq!['&', 'l', 't', ';'];
    let p3 = seq!['&', 'g', 't', ';'];
    let p4 = seq!['&', 'q', 'u', 'o', 't', ';'];
    let p5 = seq!['&', '#', 'x', '2', '7', ';'];
    let p6 = seq!['&', '#', '3', '9', ';'];
    let p7 = seq!['&', 'a', 'p', 'o', 's', ';'];
    assert(is_entity(p0) && is_entity(p1) && is_entity(p2) && is_entity(p3));
    assert(is_entity(p4) && is_entity(p5) && is_entity(p6) && is_entity(p7));
    let e = known_entity(k);
    let c = entity_char(k);
    assert(is_entity(e));
    assert(amp_free(seq![c]));
    assert(e == p1 ==> false) by {
        if e == p1 {
            assert(e[1] == p1[1]);
            assert(e[2] == p1[2]);
        }
    }
    lemma_entity_pass(x, e, y, p0, seq![' ']);
    let m1 = if e == p0 { seq![' '] } else { e };
    lemma_entity_pass(x, m1, y, p1, seq!['&']);
    lemma_entity_pass(x, m1, y, p2, seq!['<']);
    let m3 = if m1 == p2 { seq!['<'] } else { m1 };
    lemma_entity_pass(x, m3, y, p3, seq!['>']);
    let m4 = if m3 == p3 { seq!['>'] } else { m3 };
    lemma_entity_pass(x, m4, y, p4, seq!['"']);
    let m5 = if m4 == p4 { seq!['"'] } else { m4 };
    lemma_entity_pass(x, m5, y, p5, seq!['\'']);
    let m6 = if m5 == p5 { seq!['\''] } else { m5 };
    lemma_entity_pass(x, m6, y, p6, seq!['\'']);
    let m7 = if m6 == p6 { seq!['\''] } else { m6 };
    lemma_entity_pass(x, m7, y, p7, seq!['\'']);
    let m8 = if m7 == p7 { seq!['\''] } else { m7 };
    assert(m8 == seq![c]);
}

pub fn decode_html(s: &[char]) -> (out: Vec<char>)
    ensures
        out@ == decode_html_spec(s@),
{
    let lit1 = vec!['&', 'n', 'b', 's', 'p', ';'];
    assert(lit1@ =~= seq!['&', 'n', 'b', 's', 'p', ';']);
    let lit2 = vec![' '];
    assert(lit2@ =~= seq![' ']);
    let s1 = replace_exec(s, &lit1, &lit2);
    let lit3 = vec!['&', 'a', 'm', 'p', ';'];
    assert(lit3@ =~= seq!['&', 'a', 'm', 'p', ';']);
    let lit4 = vec!['&'];
    assert(lit4@ =~= seq!['&']);
    let s2 = replace_exec(&s1, &lit3, &lit4);
    let lit5 = vec!['&', 'l', 't', ';'];
    assert(lit5@ =~= seq!['&', 'l', 't', ';']);
    let lit6 = vec!['<'];
    assert(lit6@ =~= seq!['<']);
    let s3 = replace_exec(&s2, &lit5, &lit6);
    let lit7 = vec!['&', 'g', 't', ';'];
    assert(lit7@ =~= seq!['&', 'g', 't', ';']);
    let lit8 = vec!['>'];
    assert(lit8@ =~= seq!['>']);
    let s4 = replace_exec(&s3, &lit7, &lit8);
    let lit9 = vec!['&', 'q', 'u', 'o', 't', ';'];
    assert(lit9@ =~= seq!['&', 'q', 'u', 'o', 't', ';']);
    let lit10 = vec!['"'];
    assert(lit10@ =~= seq!['"']);
    let s5 = replace_exec(&s4, &lit9, &lit10);
    let lit11 = vec!['&', '#', 'x', '2', '7', ';'];
    assert(lit11@ =~= seq!['&', '#', 'x', '2', '7', ';']);
    let lit12 = vec!['\''];
    assert(lit12@ =~= seq!['\'']);
    let s6 = replace_exec(&s5, &lit11, &lit12);
    let lit13 = vec!['&', '#', '3', '9', ';'];
    assert(lit13@ =~= seq!['&', '#', '3', '9', ';']);
    let lit14 = vec!['\''];
    assert(lit14@ =~= seq!['\'']);
    let s7 = replace_exec(&s6, &lit13, &lit14);
    let lit15 = vec!['&', 'a', 'p', 'o', 's', ';'];
    assert(lit15@ =~= seq!['&', 'a', 'p', 'o', 's', ';']);
    let lit16 = vec!['\''];
    assert(lit16@ =~= seq!['\'']);
    let s8 = replace_exec(&s7, &lit15, &lit16);
    trim_chars(&s8)
}

/// ASCII letters lowered, everything else kept.
pub open spec fn ascii_lower(s: Seq<char>) -> Seq<char> {
    s.map_values(|c: char| if 'A' <= c && c <= 'Z' { ((c as u32) + 32) as char } else { c })
}

pub fn ascii_lower_exec(s: &[char]) -> (out: Vec<char>)
    ensures
        out@ == ascii_lower(s@),
{
    let mut out: Vec<char> = Vec::new();
    let mut i: usize = 0;
    while i < s.len()
        invariant
            i <= s@.len(),
            out@ == ascii_lower(s@).take(i as int),
        decreases s@.len() - i,
    {
        let c = s[i];
        let d = if 'A' <= c && c <= 'Z' {
            let code = (c as u8) + 32;
            (code as char)
        } else {
            c
        };
        out.push(d);
        i += 1;
        assert(out@ =~= ascii_lower(s@).take(i as int));
    }
    assert(ascii_lower(s@).take(s@.len() as int) =~= ascii_lower(s@));
    out
}

/// Whether `s` holds an HTML `<table` tag (ASCII case ignored).
pub fn looks_like_html_table(s: &str) -> (b: bool)
    ensures
        b == contains(ascii_lower(s@), seq!['<', 't', 'a', 'b', 'l', 'e']),
{
    let v = chars_of(s);
    let t = ascii_lower_exec(&v);
    let pat = vec!['<', 't', 'a', 'b', 'l', 'e'];
    assert(pat@ =~= seq!['<', 't', 'a', 'b', 'l', 'e']);
    contains_exec(&t, &pat)
}

} // verus!
