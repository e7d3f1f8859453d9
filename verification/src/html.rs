//! Reading the HTML tables that recognition emits: rows, cells, spans and
//! cell text with its list markup folded into lines.

use vstd::prelude::*;
use crate::cells::{ascii_lower, ascii_lower_exec, decode_html, decode_html_spec};
use crate::table::{CellView, Cell, Table, grid_fits, latex_spec, markdown_spec, table_v};
use crate::tabular::{parse_usize, parse_usize_exec};
use crate::text::{chars_of, dec, dec_exec, push_all, string_of, trim, trim_chars};

verus! {

// ------------------------------------------------------------ matching

/// The capture groups of one match; group 0 is the whole match.
pub type Groups = Seq<Option<Seq<char>>>;

/// What `regex::Regex` finds in `text` for `pattern`: the text between
/// consecutive matches (one more piece than there are matches) and the
/// capture groups of each match, left to right; `None` when the pattern does
/// not compile.
pub uninterp spec fn regex_scan(pattern: Seq<char>, text: Seq<char>) -> Option<(Seq<Seq<char>>, Seq<Groups>)>;

/// Pieces joined with the given separators between them: `gaps[0] + seps[0]
/// + gaps[1] + ...`.
pub open spec fn interleave(gaps: Seq<Seq<char>>, seps: Seq<Seq<char>>) -> Seq<char>
    decreases seps.len(),
{
    if seps.len() == 0 {
        if gaps.len() > 0 {
            gaps[0]
        } else {
            Seq::empty()
        }
    } else {
        interleave(gaps.drop_last(), seps.drop_last()) + seps.last() + gaps.last()
    }
}

/// Group `i` of a match, or the empty text when it did not take part.
pub open spec fn group(m: Groups, i: int) -> Seq<char> {
    if 0 <= i < m.len() && m[i] is Some {
        m[i]->0
    } else {
        Seq::empty()
    }
}

/// The whole text of each match.
pub open spec fn whole(ms: Seq<Groups>) -> Seq<Seq<char>> {
    ms.map_values(|m: Groups| group(m, 0))
}

/// A well-formed scan of `text`: one gap more than matches, every match
/// with its group 0, and the gaps and matches spelling `text` again.
pub open spec fn scan_ok(text: Seq<char>, gaps: Seq<Seq<char>>, ms: Seq<Groups>) -> bool {
    &&& gaps.len() == ms.len() + 1
    &&& forall|i: int| 0 <= i < ms.len() ==> #[trigger] ms[i].len() >= 1 && ms[i][0] is Some
    &&& text == interleave(gaps, whole(ms))
}

pub open spec fn opt_view(o: Option<String>) -> Option<Seq<char>> {
    match o {
        Some(s) => Some(s@),
        None => None,
    }
}

pub open spec fn groups_v(m: Vec<Option<String>>) -> Groups {
    m@.map_values(|o: Option<String>| opt_view(o))
}

pub open spec fn scan_v(r: Option<(Vec<String>, Vec<Vec<Option<String>>>)>) -> Option<(Seq<Seq<char>>, Seq<Groups>)> {
    match r {
        Some(p) => Some((
            p.0@.map_values(|s: String| s@),
            p.1@.map_values(|m: Vec<Option<String>>| groups_v(m)),
        )),
        None => None,
    }
}

/// Compiles `pattern` with `regex::Regex::new` and walks
/// `Regex::captures_iter` over `text`. The result is named by
/// [`regex_scan`]; the crate documents that the matches do not overlap and
/// come left to right, that group 0 of each is the whole match, so the text
/// between them and the matches spell `text` again.
#[verifier::external_body]
fn scan(pattern: &str, text: &str) -> (r: Option<(Vec<String>, Vec<Vec<Option<String>>>)>)
    ensures
        scan_v(r) == regex_scan(pattern@, text@),
        scan_v(r) matches Some(p) ==> scan_ok(text@, p.0, p.1),
{
    let re = regex::Regex::new(pattern).ok()?;
    let (mut gaps, mut ms, mut last) = (Vec::new(), Vec::new(), 0);
    for c in re.captures_iter(text) {
        let m = c.get_match();
        gaps.push(text[last..m.start()].to_string());
        ms.push(c.iter().map(|g| g.map(|g| g.as_str().to_string())).collect());
        last = m.end();
    }
    gaps.push(text[last..].to_string());
    Some((gaps, ms))
}

/// Group `i` of a match as characters.
fn group_exec(m: &Vec<Option<String>>, i: usize) -> (out: Vec<char>)
    ensures
        out@ == group(groups_v(*m), i as int),
{
    if i < m.len() {
        match &m[i] {
            Some(s) => {
                assert(groups_v(*m)[i as int] == Some(s@));
                chars_of(s.as_str())
            },
            None => Vec::new(),
        }
    } else {
        Vec::new()
    }
}

/// `gaps[0] + seps[0] + gaps[1] + ...` built from the pieces.
fn interleave_exec(gaps: &Vec<String>, seps: &Vec<Vec<char>>) -> (out: Vec<char>)
    requires
        gaps@.len() == seps@.len() + 1,
    ensures
        out@ == interleave(gaps@.map_values(|s: String| s@), crate::text::views(seps@)),
{
    let ghost gs = gaps@.map_values(|s: String| s@);
    let ghost ss = crate::text::views(seps@);
    let mut out = chars_of(gaps[0].as_str());
    let mut k: usize = 0;
    assert(gs.take(1).len() == 1 && ss.take(0).len() == 0);
    assert(interleave(gs.take(1), ss.take(0)) == gs[0]);
    while k < seps.len()
        invariant
            gaps@.len() == seps@.len() + 1,
            k <= seps@.len(),
            gs == gaps@.map_values(|s: String| s@),
            ss == crate::text::views(seps@),
            out@ == interleave(gs.take(k + 1), ss.take(k as int)),
        decreases seps@.len() - k,
    {
        assert(gs.take(k + 2).drop_last() =~= gs.take(k + 1));
        assert(ss.take(k + 1).drop_last() =~= ss.take(k as int));
        assert(gs.take(k + 2).last() == gaps@[k + 1]@);
        assert(ss.take(k + 1).last() == seps@[k as int]@);
        push_all(&mut out, &seps[k]);
        let g = chars_of(gaps[k + 1].as_str());
        push_all(&mut out, &g);
        k += 1;
    }
    assert(gs.take(k + 1) =~= gs);
    assert(ss.take(k as int) =~= ss);
    out
}

/// Scans `text` given as characters.
fn scan_chars(pattern: &str, text: &[char]) -> (r: Option<(Vec<String>, Vec<Vec<Option<String>>>)>)
    ensures
        scan_v(r) == regex_scan(pattern@, text@),
        scan_v(r) matches Some(p) ==> scan_ok(text@, p.0, p.1),
{
    let t = string_of(text);
    scan(pattern, t.as_str())
}

pub open spec fn tag_re() -> Seq<char> {
    "(?is)<[^>]+>"@
}

/// Every tag removed.
pub open spec fn strip_tags_spec(s: Seq<char>) -> Seq<char> {
    match regex_scan(tag_re(), s) {
        None => s,
        Some(p) => interleave(p.0, Seq::new(p.1.len(), |i: int| Seq::<char>::empty())),
    }
}

/// `n` empty pieces.
fn empties(n: usize) -> (out: Vec<Vec<char>>)
    ensures
        crate::text::views(out@) == Seq::new(n as nat, |i: int| Seq::<char>::empty()),
{
    let mut out: Vec<Vec<char>> = Vec::new();
    let mut k: usize = 0;
    while k < n
        invariant
            k <= n,
            crate::text::views(out@) == Seq::new(k as nat, |i: int| Seq::<char>::empty()),
        decreases n - k,
    {
        let e: Vec<char> = Vec::new();
        assert(e@ =~= Seq::<char>::empty());
        let ghost before = crate::text::views(out@);
        out.push(e);
        assert(crate::text::views(out@) =~= before.push(Seq::<char>::empty()));
        k += 1;
        assert(crate::text::views(out@) =~= Seq::new(k as nat, |i: int| Seq::<char>::empty()));
    }
    out
}

/// Every tag removed: `<...>` runs replaced by nothing.
pub fn strip_tags(s: &[char]) -> (out: Vec<char>)
    ensures
        out@ == strip_tags_spec(s@),
{
    let pat = "(?is)<[^>]+>";
    assert(pat@ == tag_re());
    match scan_chars(pat, s) {
        None => {
            let mut v: Vec<char> = Vec::new();
            push_all(&mut v, s);
            v
        },
        Some(p) => {
            let seps = empties(p.1.len());
            assert(crate::text::views(seps@).len() == seps@.len());
            assert(p.0@.map_values(|s: String| s@).len() == p.0@.len());
            interleave_exec(&p.0, &seps)
        },
    }
}

// ------------------------------------------------------------ cell markup

pub open spec fn ul_re() -> Seq<char> {
    "(?is)<ul\\b[^>]*>(.*?)</ul>"@
}

pub open spec fn ol_re() -> Seq<char> {
    "(?is)<ol\\b[^>]*>(.*?)</ol>"@
}

pub open spec fn li_re() -> Seq<char> {
    "(?is)<li\\b[^>]*>(.*?)</li>"@
}

pub open spec fn br_re() -> Seq<char> {
    "(?i)<br\\s*/?>"@
}

pub open spec fn block_re() -> Seq<char> {
    "(?i)</(?:p|div|h[1-6])>"@
}

/// Every match of `pat` in `s` replaced by `f` of its groups; `s` itself
/// when the pattern does not compile.
pub open spec fn replace_with(pat: Seq<char>, s: Seq<char>, f: spec_fn(Groups) -> Seq<char>) -> Seq<char> {
    match regex_scan(pat, s) {
        None => s,
        Some(p) => interleave(p.0, p.1.map_values(f)),
    }
}

/// A list item's text: its tags removed, trimmed.
pub open spec fn item_text(m: Groups) -> Seq<char> {
    trim(strip_tags_spec(group(m, 1)))
}

/// The first `k` items as lines, `- item` or `n. item` with `n` the item's
/// place among all the items; empty items give no line.
pub open spec fn list_lines(ms: Seq<Groups>, ordered: bool, k: int) -> Seq<char>
    decreases k,
{
    if k <= 0 {
        Seq::empty()
    } else {
        let prev = list_lines(ms, ordered, k - 1);
        let item = item_text(ms[k - 1]);
        if item.len() == 0 {
            prev
        } else {
            let line = (if ordered {
                dec(k as nat) + seq!['.', ' ']
            } else {
                seq!['-', ' ']
            }) + item;
            if prev.len() == 0 {
                line
            } else {
                prev + seq!['\n'] + line
            }
        }
    }
}

/// The lines for the items inside one list.
pub open spec fn list_block(inner: Seq<char>, ordered: bool) -> Seq<char> {
    match regex_scan(li_re(), inner) {
        None => Seq::empty(),
        Some(p) => list_lines(p.1, ordered, p.1.len() as int),
    }
}

/// Each list matched by `pat`, first to last, replaced by its lines; the
/// text is scanned again after each replacement, which shortens it.
pub open spec fn replace_lists(s: Seq<char>, pat: Seq<char>, ordered: bool) -> Seq<char>
    decreases s.len(),
{
    match regex_scan(pat, s) {
        None => s,
        Some(p) => if p.1.len() == 0 || p.0.len() == 0 {
            s
        } else {
            let next = p.0[0] + list_block(group(p.1[0], 1), ordered) + interleave(
                p.0.drop_first(),
                whole(p.1.drop_first()),
            );
            if next.len() < s.len() {
                replace_lists(next, pat, ordered)
            } else {
                next
            }
        },
    }
}

/// A list item left outside any list: `- item` and a newline, or nothing.
pub open spec fn stray_item(m: Groups) -> Seq<char> {
    let item = item_text(m);
    if item.len() == 0 {
        Seq::empty()
    } else {
        seq!['-', ' '] + item + seq!['\n']
    }
}

/// Cell HTML with lists folded into lines, `<br>` and block ends as
/// newlines.
pub open spec fn rewrite_markup(html: Seq<char>) -> Seq<char> {
    let lists = replace_lists(replace_lists(html, ul_re(), false), ol_re(), true);
    let breaks = replace_with(br_re(), lists, |m: Groups| seq!['\n']);
    let items = replace_with(li_re(), breaks, |m: Groups| stray_item(m));
    replace_with(block_re(), items, |m: Groups| seq!['\n'])
}

/// The text of a table cell given as HTML.
pub open spec fn cell_text(raw: Seq<char>) -> Seq<char> {
    decode_html_spec(strip_tags_spec(rewrite_markup(raw)))
}

/// `n` copies of `rep`.
fn copies(n: usize, rep: &[char]) -> (out: Vec<Vec<char>>)
    ensures
        crate::text::views(out@) == Seq::new(n as nat, |i: int| rep@),
{
    let mut out: Vec<Vec<char>> = Vec::new();
    let mut k: usize = 0;
    while k < n
        invariant
            k <= n,
            crate::text::views(out@) == Seq::new(k as nat, |i: int| rep@),
        decreases n - k,
    {
        let mut e: Vec<char> = Vec::new();
        push_all(&mut e, rep);
        assert(e@ =~= rep@);
        let ghost before = crate::text::views(out@);
        out.push(e);
        assert(crate::text::views(out@) =~= before.push(rep@));
        k += 1;
        assert(crate::text::views(out@) =~= Seq::new(k as nat, |i: int| rep@));
    }
    out
}

pub open spec fn ms_v(v: Vec<Vec<Option<String>>>) -> Seq<Groups> {
    v@.map_values(|m: Vec<Option<String>>| groups_v(m))
}

pub open spec fn gaps_v(v: Vec<String>) -> Seq<Seq<char>> {
    v@.map_values(|s: String| s@)
}

/// Every match of `pat` replaced by `rep`.
fn replace_const(pat: &str, s: &[char], rep: &[char]) -> (out: Vec<char>)
    ensures
        out@ == replace_with(pat@, s@, |m: Groups| rep@),
{
    match scan_chars(pat, s) {
        None => {
            let mut v: Vec<char> = Vec::new();
            push_all(&mut v, s);
            v
        },
        Some(p) => {
            let seps = copies(p.1.len(), rep);
            assert(gaps_v(p.0).len() == p.0@.len());
            assert(Seq::new(p.1@.len(), |i: int| rep@) =~= ms_v(p.1).map_values(|m: Groups| rep@));
            interleave_exec(&p.0, &seps)
        },
    }
}

/// A list item's text: its tags removed, trimmed.
fn item_text_exec(m: &Vec<Option<String>>) -> (out: Vec<char>)
    ensures
        out@ == item_text(groups_v(*m)),
{
    let g = group_exec(m, 1);
    let t = strip_tags(&g);
    trim_chars(&t)
}

/// The lines for the items inside one list.
fn list_block_exec(inner: &[char], ordered: bool) -> (out: Vec<char>)
    ensures
        out@ == list_block(inner@, ordered),
{
    let pat = "(?is)<li\\b[^>]*>(.*?)</li>";
    assert(pat@ == li_re());
    match scan_chars(pat, inner) {
        None => Vec::new(),
        Some(p) => {
            let ms = &p.1;
            let ghost mv = ms_v(p.1);
            let mut out: Vec<char> = Vec::new();
            let mut k: usize = 0;
            while k < ms.len()
                invariant
                    k <= ms@.len(),
                    mv == ms_v(*ms),
                    out@ == list_lines(mv, ordered, k as int),
                decreases ms@.len() - k,
            {
                assert(mv[k as int] == groups_v(ms@[k as int]));
                let item = item_text_exec(&ms[k]);
                if item.len() > 0 {
                    let mut line: Vec<char> = Vec::new();
                    if ordered {
                        assert(k + 1 <= u64::MAX);
                        let d = dec_exec((k as u64) + 1);
                        push_all(&mut line, &d);
                        line.push('.');
                        line.push(' ');
                    } else {
                        line.push('-');
                        line.push(' ');
                    }
                    push_all(&mut line, &item);
                    if out.len() > 0 {
                        out.push('\n');
                    }
                    push_all(&mut out, &line);
                }
                k += 1;
            }
            out
        },
    }
}

/// Each list matched by `pat` replaced by its lines.
fn replace_lists_exec(s: Vec<char>, pat: &str, ordered: bool) -> (out: Vec<char>)
    ensures
        out@ == replace_lists(s@, pat@, ordered),
    decreases s@.len(),
{
    match scan_chars(pat, &s) {
        None => s,
        Some(p) => {
            if p.1.len() == 0 || p.0.len() == 0 {
                return s;
            }
            let ghost gv = gaps_v(p.0);
            let ghost mv = ms_v(p.1);
            let inner = group_exec(&p.1[0], 1);
            assert(mv[0] == groups_v(p.1@[0]));
            let block = list_block_exec(&inner, ordered);
            let mut next = chars_of(p.0[0].as_str());
            push_all(&mut next, &block);
            assert(gv.len() == mv.len() + 1);
            let g1 = chars_of(p.0[1].as_str());
            push_all(&mut next, &g1);
            let mut k: usize = 1;
            assert(interleave(gv.drop_first().take(1), whole(mv.drop_first()).take(0)) == gv[1]);
            while k < p.1.len()
                invariant
                    1 <= k <= p.1@.len(),
                    p.0@.len() >= 1,
                    gv == gaps_v(p.0),
                    mv == ms_v(p.1),
                    gv.len() == mv.len() + 1,
                    next@ == gv[0] + block@ + interleave(
                        gv.drop_first().take(k as int),
                        whole(mv.drop_first()).take(k - 1),
                    ),
                decreases p.1@.len() - k,
            {
                let w = group_exec(&p.1[k], 0);
                assert(mv[k as int] == groups_v(p.1@[k as int]));
                let g = chars_of(p.0[k + 1].as_str());
                let ghost rest = gv.drop_first();
                let ghost ws = whole(mv.drop_first());
                assert(rest.take(k + 1).drop_last() =~= rest.take(k as int));
                assert(ws.take(k as int).drop_last() =~= ws.take(k - 1));
                assert(rest.take(k + 1).last() == gv[k + 1]);
                assert(ws.take(k as int).last() == group(mv[k as int], 0));
                push_all(&mut next, &w);
                push_all(&mut next, &g);
                k += 1;
            }
            assert(gv.drop_first().take(k as int) =~= gv.drop_first());
            assert(whole(mv.drop_first()).take(k - 1) =~= whole(mv.drop_first()));
            if next.len() < s.len() {
                replace_lists_exec(next, pat, ordered)
            } else {
                next
            }
        },
    }
}

/// List items left outside any list, each as `- item` and a newline.
fn replace_stray_items(s: &[char]) -> (out: Vec<char>)
    ensures
        out@ == replace_with(li_re(), s@, |m: Groups| stray_item(m)),
{
    let pat = "(?is)<li\\b[^>]*>(.*?)</li>";
    assert(pat@ == li_re());
    match scan_chars(pat, s) {
        None => {
            let mut v: Vec<char> = Vec::new();
            push_all(&mut v, s);
            v
        },
        Some(p) => {
            let ghost mv = ms_v(p.1);
            let mut seps: Vec<Vec<char>> = Vec::new();
            let mut k: usize = 0;
            while k < p.1.len()
                invariant
                    k <= p.1@.len(),
                    mv == ms_v(p.1),
                    crate::text::views(seps@) == mv.take(k as int).map_values(
                        |m: Groups| stray_item(m),
                    ),
                decreases p.1@.len() - k,
            {
                assert(mv[k as int] == groups_v(p.1@[k as int]));
                let item = item_text_exec(&p.1[k]);
                let mut line: Vec<char> = Vec::new();
                if item.len() > 0 {
                    line.push('-');
                    line.push(' ');
                    push_all(&mut line, &item);
                    line.push('\n');
                }
                assert(line@ =~= stray_item(mv[k as int]));
                let ghost before = crate::text::views(seps@);
                seps.push(line);
                assert(crate::text::views(seps@) =~= before.push(stray_item(mv[k as int])));
                assert(mv.take(k + 1).map_values(|m: Groups| stray_item(m)) =~= mv.take(
                    k as int,
                ).map_values(|m: Groups| stray_item(m)).push(stray_item(mv[k as int])));
                k += 1;
            }
            assert(mv.take(k as int) =~= mv);
            assert(gaps_v(p.0).len() == p.0@.len());
            interleave_exec(&p.0, &seps)
        },
    }
}

/// Cell HTML with `<ul>`/`<ol>` lists folded into `- item` / `n. item`
/// lines, `<br>` and the ends of blocks as newlines.
pub fn rewrite_cell_markup(html: &[char]) -> (out: Vec<char>)
    ensures
        out@ == rewrite_markup(html@),
{
    let ul = "(?is)<ul\\b[^>]*>(.*?)</ul>";
    let ol = "(?is)<ol\\b[^>]*>(.*?)</ol>";
    let br = "(?i)<br\\s*/?>";
    let block = "(?i)</(?:p|div|h[1-6])>";
    assert(ul@ == ul_re());
    assert(ol@ == ol_re());
    assert(br@ == br_re());
    assert(block@ == block_re());
    let mut start: Vec<char> = Vec::new();
    push_all(&mut start, html);
    assert(start@ =~= html@);
    let a = replace_lists_exec(start, ul, false);
    let b = replace_lists_exec(a, ol, true);
    let nl = vec!['\n'];
    assert(nl@ =~= seq!['\n']);
    let c = replace_const(br, &b, &nl);
    let d = replace_stray_items(&c);
    let e = replace_const(block, &d, &nl);
    assert(replace_with(br_re(), b@, |m: Groups| nl@) == replace_with(br_re(), b@, |m: Groups| seq!['\n'])) by {
        assert((|m: Groups| nl@) =~= (|m: Groups| seq!['\n']));
    }
    assert(replace_with(block_re(), d@, |m: Groups| nl@) == replace_with(block_re(), d@, |m: Groups| seq!['\n'])) by {
        assert((|m: Groups| nl@) =~= (|m: Groups| seq!['\n']));
    }
    e
}

/// The text of a table cell given as HTML: lists as lines, tags removed,
/// entities decoded, trimmed.
pub fn cell_text_from_html(raw: &[char]) -> (out: Vec<char>)
    ensures
        out@ == cell_text(raw@),
{
    let r = rewrite_cell_markup(raw);
    let t = strip_tags(&r);
    decode_html(&t)
}

// ------------------------------------------------------------ tables

pub open spec fn table_re() -> Seq<char> {
    "(?is)<table\\b[^>]*>(.*?)</table>"@
}

pub open spec fn tr_re() -> Seq<char> {
    "(?is)<tr\\b[^>]*>(.*?)</tr>"@
}

pub open spec fn cell_re() -> Seq<char> {
    "(?is)<(td|th)\\b([^>]*)>(.*?)</(?:td|th)>"@
}

pub open spec fn attr_re() -> Seq<char> {
    "(?i)(rowspan|colspan)\\s*=\\s*[\"']?(\\d+)"@
}

/// The inside of the first `<table>`, or the whole text when there is none.
pub open spec fn table_inner(html: Seq<char>) -> Seq<char> {
    match regex_scan(table_re(), html) {
        Some(p) => if p.1.len() > 0 && p.1[0].len() > 1 && p.1[0][1] is Some {
            p.1[0][1]->0
        } else {
            html
        },
        None => html,
    }
}

/// `n.max(1)`.
pub open spec fn at_least_one(n: usize) -> usize {
    if n == 0 {
        1
    } else {
        n
    }
}

/// The number of a `rowspan=`/`colspan=` attribute, 1 when it does not parse.
pub open spec fn span_value(m: Groups) -> usize {
    match parse_usize(group(m, 2)) {
        Some(n) => n,
        None => 1,
    }
}

pub open spec fn rowspan_word() -> Seq<char> {
    seq!['r', 'o', 'w', 's', 'p', 'a', 'n']
}

pub open spec fn colspan_word() -> Seq<char> {
    seq!['c', 'o', 'l', 's', 'p', 'a', 'n']
}

/// (rowspan, colspan) after the first `k` span attributes; the last of each
/// kind wins.
pub open spec fn spans(ms: Seq<Groups>, k: int) -> (usize, usize)
    decreases k,
{
    if k <= 0 {
        (1, 1)
    } else {
        let prev = spans(ms, k - 1);
        let name = ascii_lower(group(ms[k - 1], 1));
        if name == rowspan_word() {
            (at_least_one(span_value(ms[k - 1])), prev.1)
        } else if name == colspan_word() {
            (prev.0, at_least_one(span_value(ms[k - 1])))
        } else {
            prev
        }
    }
}

/// (rowspan, colspan) of a cell from its attribute text.
pub open spec fn cell_spans(attrs: Seq<char>) -> (usize, usize) {
    match regex_scan(attr_re(), attrs) {
        None => (1, 1),
        Some(p) => spans(p.1, p.1.len() as int),
    }
}

/// A `<td>`/`<th>` match as a cell.
pub open spec fn html_cell_of(m: Groups) -> CellView {
    (cell_text(group(m, 3)), cell_spans(group(m, 2)).0, cell_spans(group(m, 2)).1)
}

/// The cells of one row's HTML.
pub open spec fn row_cells(row_html: Seq<char>) -> Seq<CellView> {
    match regex_scan(cell_re(), row_html) {
        None => Seq::empty(),
        Some(p) => p.1.map_values(|m: Groups| html_cell_of(m)),
    }
}

/// The rows of the first `k` `<tr>` matches that have cells.
pub open spec fn tr_rows(trs: Seq<Groups>, k: int) -> Seq<Seq<CellView>>
    decreases k,
{
    if k <= 0 {
        Seq::empty()
    } else {
        let prev = tr_rows(trs, k - 1);
        let row = row_cells(group(trs[k - 1], 1));
        if row.len() > 0 {
            prev.push(row)
        } else {
            prev
        }
    }
}

/// The rows of an HTML table, if it has any.
pub open spec fn parse_html_spec(html: Seq<char>) -> Option<Seq<Seq<CellView>>> {
    let rows = match regex_scan(tr_re(), table_inner(html)) {
        None => Seq::empty(),
        Some(p) => tr_rows(p.1, p.1.len() as int),
    };
    if rows.len() == 0 {
        None
    } else {
        Some(rows)
    }
}

fn table_inner_exec(html: &[char]) -> (out: Vec<char>)
    ensures
        out@ == table_inner(html@),
{
    let pat = "(?is)<table\\b[^>]*>(.*?)</table>";
    assert(pat@ == table_re());
    let copy_all = |v: &[char]| -> (o: Vec<char>)
        ensures
            o@ == v@,
        {
            let mut o: Vec<char> = Vec::new();
            push_all(&mut o, v);
            o
        };
    match scan_chars(pat, html) {
        None => copy_all(html),
        Some(p) => {
            if p.1.len() > 0 && p.1[0].len() > 1 {
                assert(ms_v(p.1)[0] == groups_v(p.1@[0]));
                assert(groups_v(p.1@[0])[1] == opt_view(p.1@[0]@[1]));
                match &p.1[0][1] {
                    Some(g) => chars_of(g.as_str()),
                    None => copy_all(html),
                }
            } else {
                copy_all(html)
            }
        },
    }
}

/// (rowspan, colspan) of a cell from its attribute text.
fn cell_spans_exec(attrs: &[char]) -> (r: (usize, usize))
    ensures
        r == cell_spans(attrs@),
{
    let pat = "(?i)(rowspan|colspan)\\s*=\\s*[\"']?(\\d+)";
    assert(pat@ == attr_re());
    let row_w = vec!['r', 'o', 'w', 's', 'p', 'a', 'n'];
    let col_w = vec!['c', 'o', 'l', 's', 'p', 'a', 'n'];
    assert(row_w@ =~= rowspan_word());
    assert(col_w@ =~= colspan_word());
    match scan_chars(pat, attrs) {
        None => (1, 1),
        Some(p) => {
            let ghost mv = ms_v(p.1);
            let mut rs: usize = 1;
            let mut cs: usize = 1;
            let mut k: usize = 0;
            while k < p.1.len()
                invariant
                    k <= p.1@.len(),
                    mv == ms_v(p.1),
                    row_w@ == rowspan_word(),
                    col_w@ == colspan_word(),
                    (rs, cs) == spans(mv, k as int),
                decreases p.1@.len() - k,
            {
                assert(mv[k as int] == groups_v(p.1@[k as int]));
                let m = &p.1[k];
                let digits = group_exec(m, 2);
                let n = match parse_usize_exec(&digits) {
                    Some(n) => n,
                    None => 1,
                };
                let word = group_exec(m, 1);
                let name = ascii_lower_exec(&word);
                if crate::intake::chars_eq(&name, &row_w) {
                    rs = if n == 0 { 1 } else { n };
                } else if crate::intake::chars_eq(&name, &col_w) {
                    cs = if n == 0 { 1 } else { n };
                }
                k += 1;
            }
            (rs, cs)
        },
    }
}

/// The cells of one row's HTML.
fn row_cells_exec(row_html: &[char]) -> (row: Vec<Cell>)
    ensures
        row@.map_values(|c: Cell| crate::table::cell_v(c)) == row_cells(row_html@),
{
    let pat = "(?is)<(td|th)\\b([^>]*)>(.*?)</(?:td|th)>";
    assert(pat@ == cell_re());
    match scan_chars(pat, row_html) {
        None => {
            let row: Vec<Cell> = Vec::new();
            assert(row@.map_values(|c: Cell| crate::table::cell_v(c)) =~= Seq::<CellView>::empty());
            row
        },
        Some(p) => {
            let ghost mv = ms_v(p.1);
            let mut row: Vec<Cell> = Vec::new();
            let mut k: usize = 0;
            while k < p.1.len()
                invariant
                    k <= p.1@.len(),
                    mv == ms_v(p.1),
                    row@.map_values(|c: Cell| crate::table::cell_v(c)) == mv.take(k as int).map_values(
                        |m: Groups| html_cell_of(m),
                    ),
                decreases p.1@.len() - k,
            {
                assert(mv[k as int] == groups_v(p.1@[k as int]));
                let m = &p.1[k];
                let attrs = group_exec(m, 2);
                let raw = group_exec(m, 3);
                let (rs, cs) = cell_spans_exec(&attrs);
                let text = cell_text_from_html(&raw);
                let cell = Cell { text: string_of(&text), rowspan: rs, colspan: cs };
                let ghost before = row@.map_values(|c: Cell| crate::table::cell_v(c));
                row.push(cell);
                assert(row@.map_values(|c: Cell| crate::table::cell_v(c)) =~= before.push(
                    html_cell_of(mv[k as int]),
                ));
                assert(mv.take(k + 1).map_values(|m: Groups| html_cell_of(m)) =~= mv.take(
                    k as int,
                ).map_values(|m: Groups| html_cell_of(m)).push(html_cell_of(mv[k as int])));
                k += 1;
            }
            assert(mv.take(k as int) =~= mv);
            row
        },
    }
}

/// Reads an HTML table: the rows of the first `<table>` (or of the whole
/// text), each `<td>`/`<th>` a cell with its `rowspan`/`colspan` and its
/// text; rows without cells are left out. `None` when no row has a cell.
pub fn parse_html(html: &str) -> (r: Option<Table>)
    ensures
        match parse_html_spec(html@) {
            Some(rows) => r is Some && table_v(r.unwrap()) == rows,
            None => r is None,
        },
{
    let cs = chars_of(html);
    let inner = table_inner_exec(&cs);
    let pat = "(?is)<tr\\b[^>]*>(.*?)</tr>";
    assert(pat@ == tr_re());
    let mut rows: Vec<Vec<Cell>> = Vec::new();
    assert(table_v(Table { rows }) =~= Seq::<Seq<CellView>>::empty());
    match scan_chars(pat, &inner) {
        None => {},
        Some(p) => {
            let ghost mv = ms_v(p.1);
            let mut k: usize = 0;
            while k < p.1.len()
                invariant
                    k <= p.1@.len(),
                    mv == ms_v(p.1),
                    table_v(Table { rows }) == tr_rows(mv, k as int),
                decreases p.1@.len() - k,
            {
                assert(mv[k as int] == groups_v(p.1@[k as int]));
                let row_html = group_exec(&p.1[k], 1);
                let row = row_cells_exec(&row_html);
                if row.len() > 0 {
                    let ghost before = table_v(Table { rows });
                    let ghost rv = row@.map_values(|c: Cell| crate::table::cell_v(c));
                    rows.push(row);
                    assert(table_v(Table { rows }) =~= before.push(rv));
                }
                k += 1;
            }
        },
    }
    if rows.len() == 0 {
        None
    } else {
        Some(Table { rows })
    }
}

// ------------------------------------------------------------ conversions

/// An HTML table as a Markdown pipe table; the input trimmed when it holds
/// no table, or when its spans are too large to lay out.
pub fn html_to_markdown(html: &str) -> (out: String)
    ensures
        match parse_html_spec(html@) {
            None => out@ == trim(html@),
            Some(rows) => out@ == (if grid_fits(rows) {
                markdown_spec(rows)
            } else {
                trim(html@)
            }),
        },
{
    match parse_html(html) {
        Some(t) => {
            if crate::table::table_fits(&t) {
                let out = t.to_markdown();
                out
            } else {
                let cs = chars_of(html);
                string_of(&trim_chars(&cs))
            }
        },
        None => {
            let cs = chars_of(html);
            string_of(&trim_chars(&cs))
        },
    }
}

/// An HTML table as a LaTeX `tabular`; the input trimmed when it holds no
/// table, or when its spans are too large to lay out.
pub fn html_to_latex(html: &str) -> (out: String)
    ensures
        match parse_html_spec(html@) {
            None => out@ == trim(html@),
            Some(rows) => out@ == (if grid_fits(rows) {
                latex_spec(rows)
            } else {
                trim(html@)
            }),
        },
{
    match parse_html(html) {
        Some(t) => {
            if crate::table::table_fits(&t) {
                let out = t.to_latex();
                out
            } else {
                let cs = chars_of(html);
                string_of(&trim_chars(&cs))
            }
        },
        None => {
            let cs = chars_of(html);
            string_of(&trim_chars(&cs))
        },
    }
}

} // verus!
