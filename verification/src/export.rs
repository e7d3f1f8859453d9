//! File names for exported images.

use vstd::prelude::*;
use crate::text::{chars_of, is_whitespace, is_ws, string_of, trim, trim_chars};

verus! {

/// The longest stem, in characters.
pub const STEM_MAX: usize = 80;

/// Unicode general category `Cc`.
pub open spec fn is_cc(c: char) -> bool {
    c <= '\u{1f}' || ('\u{7f}' <= c && c <= '\u{9f}')
}

/// `char::is_control`.
pub fn is_control(c: char) -> (b: bool)
    ensures
        b == is_cc(c),
{
    c <= '\u{1f}' || ('\u{7f}' <= c && c <= '\u{9f}')
}

/// Characters that file systems reserve.
pub open spec fn is_reserved(c: char) -> bool {
    c == '/' || c == '\\' || c == ':' || c == '*' || c == '?' || c == '"' || c == '<' || c == '>'
        || c == '|'
}

/// The stem built from `s[i..]` onto `out`: control and reserved characters
/// dropped, runs of white space as one space and none at the start, cut off
/// once it holds `STEM_MAX` characters.
pub open spec fn stem_go(s: Seq<char>, i: int, out: Seq<char>, last_space: bool) -> Seq<char>
    decreases s.len() - i,
{
    if i < 0 || i >= s.len() {
        out
    } else {
        let ch = s[i];
        if is_cc(ch) || is_reserved(ch) {
            stem_go(s, i + 1, out, last_space)
        } else if is_ws(ch) {
            if out.len() == 0 || last_space {
                stem_go(s, i + 1, out, last_space)
            } else if out.len() + 1 >= STEM_MAX {
                out.push(' ')
            } else {
                stem_go(s, i + 1, out.push(' '), true)
            }
        } else if out.len() + 1 >= STEM_MAX {
            out.push(ch)
        } else {
            stem_go(s, i + 1, out.push(ch), false)
        }
    }
}

/// The file stem for a first line of text: `snip` when nothing is left.
pub open spec fn stem_spec(s: Seq<char>) -> Seq<char> {
    let t = trim(stem_go(s, 0, Seq::empty(), false));
    if t.len() == 0 {
        seq!['s', 'n', 'i', 'p']
    } else {
        t
    }
}

/// A file stem from the first line of a snip: control characters and
/// `/ \ : * ? " < > |` dropped, white space collapsed to single spaces,
/// at most 80 characters, trimmed; `snip` when nothing is left.
pub fn png_export_stem(first_line: &str) -> (out: String)
    ensures
        out@ == stem_spec(first_line@),
{
    let s = chars_of(first_line);
    let mut out: Vec<char> = Vec::new();
    let mut last_space = false;
    let mut i: usize = 0;
    while i < s.len()
        invariant_except_break
            i <= s@.len(),
            out@.len() < STEM_MAX,
            stem_go(s@, 0, Seq::empty(), false) == stem_go(s@, i as int, out@, last_space),
        ensures
            stem_go(s@, 0, Seq::empty(), false) == out@,
        decreases s@.len() - i,
    {
        let ch = s[i];
        if is_control(ch) || ch == '/' || ch == '\\' || ch == ':' || ch == '*' || ch == '?' || ch
            == '"' || ch == '<' || ch == '>' || ch == '|' {
            i += 1;
            continue;
        }
        if is_whitespace(ch) {
            if out.len() == 0 || last_space {
                i += 1;
                continue;
            }
            last_space = true;
            out.push(' ');
        } else {
            last_space = false;
            out.push(ch);
        }
        if out.len() >= STEM_MAX {
            break;
        }
        i += 1;
    }
    let t = trim_chars(&out);
    if t.len() == 0 {
        let d = vec!['s', 'n', 'i', 'p'];
        assert(d@ =~= seq!['s', 'n', 'i', 'p']);
        string_of(&d)
    } else {
        string_of(&t)
    }
}

/// What `stem_go` builds holds no control or reserved character and stays
/// within `STEM_MAX` characters.
proof fn lemma_stem_go_clean(s: Seq<char>, i: int, out: Seq<char>, last_space: bool)
    requires
        out.len() < STEM_MAX,
        forall|k: int| 0 <= k < out.len() ==> !is_cc(#[trigger] out[k]) && !is_reserved(out[k]),
    ensures
        stem_go(s, i, out, last_space).len() <= STEM_MAX,
        forall|k: int|
            0 <= k < stem_go(s, i, out, last_space).len() ==> !is_cc(
                #[trigger] stem_go(s, i, out, last_space)[k],
            ) && !is_reserved(stem_go(s, i, out, last_space)[k]),
    decreases s.len() - i,
{
    if 0 <= i < s.len() {
        let ch = s[i];
        if is_cc(ch) || is_reserved(ch) {
            lemma_stem_go_clean(s, i + 1, out, last_space);
        } else if is_ws(ch) {
            if out.len() == 0 || last_space {
                lemma_stem_go_clean(s, i + 1, out, last_space);
            } else if out.len() + 1 < STEM_MAX {
                lemma_stem_go_clean(s, i + 1, out.push(' '), true);
            }
        } else if out.len() + 1 < STEM_MAX {
            lemma_stem_go_clean(s, i + 1, out.push(ch), false);
        }
    }
}

proof fn lemma_trim_start_sub(s: Seq<char>)
    ensures
        exists|a: int| 0 <= a <= s.len() && crate::text::trim_start(s) == s.skip(a),
    decreases s.len(),
{
    if s.len() > 0 && is_ws(s[0]) {
        lemma_trim_start_sub(s.drop_first());
        let a = choose|a: int| 0 <= a <= s.drop_first().len() && crate::text::trim_start(s.drop_first()) == s.drop_first().skip(a);
        assert(s.drop_first().skip(a) =~= s.skip(a + 1));
    } else {
        assert(s.skip(0) =~= s);
    }
}

proof fn lemma_trim_end_sub(s: Seq<char>)
    ensures
        exists|b: int| 0 <= b <= s.len() && crate::text::trim_end(s) == s.take(b),
    decreases s.len(),
{
    if s.len() > 0 && is_ws(s.last()) {
        lemma_trim_end_sub(s.drop_last());
        let b = choose|b: int| 0 <= b <= s.drop_last().len() && crate::text::trim_end(s.drop_last()) == s.drop_last().take(b);
        assert(s.drop_last().take(b) =~= s.take(b));
    } else {
        assert(s.take(s.len() as int) =~= s);
    }
}

/// Every export stem is a usable file name: between 1 and 80 characters,
/// none of them a control character or one of `/ \ : * ? " < > |`, and no
/// white space at either end.
pub proof fn lemma_stem_is_file_name(s: Seq<char>)
    ensures
        1 <= stem_spec(s).len() <= STEM_MAX,
        forall|k: int|
            0 <= k < stem_spec(s).len() ==> !is_cc(#[trigger] stem_spec(s)[k]) && !is_reserved(
                stem_spec(s)[k],
            ),
        !is_ws(stem_spec(s)[0]),
        !is_ws(stem_spec(s).last()),
{
    let raw = stem_go(s, 0, Seq::empty(), false);
    lemma_stem_go_clean(s, 0, Seq::empty(), false);
    lemma_trim_start_sub(raw);
    let a = choose|a: int| 0 <= a <= raw.len() && crate::text::trim_start(raw) == raw.skip(a);
    let ts = raw.skip(a);
    lemma_trim_end_sub(ts);
    let b = choose|b: int| 0 <= b <= ts.len() && crate::text::trim_end(ts) == ts.take(b);
    let t = trim(raw);
    assert(t == ts.take(b));
    assert forall|k: int| 0 <= k < t.len() implies !is_cc(#[trigger] t[k]) && !is_reserved(t[k]) by {
        assert(t[k] == raw[a + k]);
    }
    if t.len() > 0 {
        lemma_trim_ends(raw);
    }
}

proof fn lemma_trim_start_head(s: Seq<char>)
    ensures
        crate::text::trim_start(s).len() > 0 ==> !is_ws(crate::text::trim_start(s)[0]),
    decreases s.len(),
{
    if s.len() > 0 && is_ws(s[0]) {
        lemma_trim_start_head(s.drop_first());
    }
}

proof fn lemma_trim_end_head(s: Seq<char>)
    ensures
        crate::text::trim_end(s).len() > 0 ==> crate::text::trim_end(s)[0] == s[0],
        crate::text::trim_end(s).len() > 0 ==> !is_ws(crate::text::trim_end(s).last()),
    decreases s.len(),
{
    if s.len() > 0 && is_ws(s.last()) {
        lemma_trim_end_head(s.drop_last());
    }
}

proof fn lemma_trim_ends(s: Seq<char>)
    ensures
        trim(s).len() > 0 ==> !is_ws(trim(s)[0]) && !is_ws(trim(s).last()),
{
    lemma_trim_start_head(s);
    lemma_trim_end_head(crate::text::trim_start(s));
}

} // verus!
