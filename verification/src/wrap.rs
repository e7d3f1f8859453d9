//! Where preview text may wrap: Latin words and single CJK characters, each
//! carrying the white space that follows it.

use vstd::prelude::*;
use crate::text::{chars_of, is_whitespace, is_ws, string_of, sub_chars};

verus! {

/// The UTF-8 length of a character.
pub open spec fn char_len(c: char) -> nat {
    if c <= '\u{7f}' {
        1
    } else if c <= '\u{7ff}' {
        2
    } else if c <= '\u{ffff}' {
        3
    } else {
        4
    }
}

/// The UTF-8 length of a run of characters.
pub open spec fn utf8_len(s: Seq<char>) -> nat
    decreases s.len(),
{
    if s.len() == 0 {
        0
    } else {
        utf8_len(s.drop_last()) + char_len(s.last())
    }
}

/// Calls `str::char_indices` and `str::len`: the byte offset of every
/// character of `s`, then the length of `s` in bytes. The standard library
/// documents these offsets as the UTF-8 lengths of the characters before.
#[verifier::external_body]
pub(crate) fn char_offsets(s: &str) -> (v: Vec<usize>)
    ensures
        v@.len() == s@.len() + 1,
        forall|i: int| 0 <= i <= s@.len() ==> v@[i] == utf8_len(#[trigger] s@.take(i)),
{
    s.char_indices().map(|(i, _)| i).chain(std::iter::once(s.len())).collect()
}

/// CJK punctuation, kana, ideographs and full-width forms: each is a wrap
/// unit of its own.
pub open spec fn is_cjk_spec(c: char) -> bool {
    ||| ('\u{3000}' <= c && c <= '\u{303F}')
    ||| ('\u{3040}' <= c && c <= '\u{30FF}')
    ||| ('\u{3400}' <= c && c <= '\u{4DBF}')
    ||| ('\u{4E00}' <= c && c <= '\u{9FFF}')
    ||| ('\u{F900}' <= c && c <= '\u{FAFF}')
    ||| ('\u{FF00}' <= c && c <= '\u{FFEF}')
}

pub fn is_cjk(c: char) -> (b: bool)
    ensures
        b == is_cjk_spec(c),
{
    ('\u{3000}' <= c && c <= '\u{303F}') || ('\u{3040}' <= c && c <= '\u{30FF}') || ('\u{3400}'
        <= c && c <= '\u{4DBF}') || ('\u{4E00}' <= c && c <= '\u{9FFF}') || ('\u{F900}' <= c && c
        <= '\u{FAFF}') || ('\u{FF00}' <= c && c <= '\u{FFEF}')
}

/// The end of the Latin word going on at `j`.
pub open spec fn word_end(s: Seq<char>, j: int) -> int
    decreases s.len() - j,
{
    if j < 0 || j >= s.len() || is_ws(s[j]) || is_cjk_spec(s[j]) {
        j
    } else {
        word_end(s, j + 1)
    }
}

/// The end of the white space going on at `j`.
pub open spec fn space_end(s: Seq<char>, j: int) -> int
    decreases s.len() - j,
{
    if j < 0 || j >= s.len() || !is_ws(s[j]) {
        j
    } else {
        space_end(s, j + 1)
    }
}

pub proof fn lemma_word_end(s: Seq<char>, j: int)
    ensures
        word_end(s, j) >= j,
        0 <= j <= s.len() ==> word_end(s, j) <= s.len(),
    decreases s.len() - j,
{
    if !(j < 0 || j >= s.len() || is_ws(s[j]) || is_cjk_spec(s[j])) {
        lemma_word_end(s, j + 1);
    }
}

pub proof fn lemma_space_end(s: Seq<char>, j: int)
    ensures
        space_end(s, j) >= j,
        0 <= j <= s.len() ==> space_end(s, j) <= s.len(),
    decreases s.len() - j,
{
    if !(j < 0 || j >= s.len() || !is_ws(s[j])) {
        lemma_space_end(s, j + 1);
    }
}

/// Where the unit starting at `i` ends: one CJK character or one Latin
/// word, with the white space after it.
pub open spec fn unit_end(s: Seq<char>, i: int) -> int {
    space_end(s, if is_cjk_spec(s[i]) { i + 1 } else { word_end(s, i + 1) })
}

pub proof fn lemma_unit_end(s: Seq<char>, i: int)
    requires
        0 <= i < s.len(),
    ensures
        i < unit_end(s, i) <= s.len(),
{
    lemma_word_end(s, i + 1);
    let j = if is_cjk_spec(s[i]) { i + 1 } else { word_end(s, i + 1) };
    lemma_space_end(s, j);
}

/// The wrap units of `s[i..]`, each with its byte offset in `s`; white
/// space before a unit starts none.
pub open spec fn wrap_go(s: Seq<char>, i: int) -> Seq<(nat, Seq<char>)>
    decreases s.len() - i,
{
    if i < 0 || i >= s.len() {
        Seq::empty()
    } else if is_ws(s[i]) {
        wrap_go(s, i + 1)
    } else {
        let k = unit_end(s, i);
        proof {
            lemma_unit_end(s, i);
        }
        seq![(utf8_len(s.take(i)), s.subrange(i, k))] + wrap_go(s, k)
    }
}

pub open spec fn units_v(v: Seq<(usize, String)>) -> Seq<(nat, Seq<char>)> {
    v.map_values(|p: (usize, String)| (p.0 as nat, p.1@))
}

/// Breaks a text run at wrap opportunities: each Latin word and each CJK
/// character is a unit, the white space after it attached, with the byte
/// offset where it starts; leading white space starts no unit.
pub fn wrap_units(text: &str) -> (out: Vec<(usize, String)>)
    ensures
        units_v(out@) == wrap_go(text@, 0),
{
    let s = chars_of(text);
    let offsets = char_offsets(text);
    let n = s.len();
    let mut out: Vec<(usize, String)> = Vec::new();
    let mut i: usize = 0;
    assert(units_v(out@) + wrap_go(s@, 0) =~= wrap_go(s@, 0));
    while i < n
        invariant
            n == s@.len(),
            s@ == text@,
            offsets@.len() == n + 1,
            forall|t: int| 0 <= t <= n ==> offsets@[t] == utf8_len(#[trigger] s@.take(t)),
            i <= n,
            units_v(out@) + wrap_go(s@, i as int) == wrap_go(s@, 0),
        decreases n - i,
    {
        if is_whitespace(s[i]) {
            i += 1;
            continue;
        }
        proof {
            lemma_unit_end(s@, i as int);
        }
        let start = i;
        if is_cjk(s[i]) {
            i += 1;
        } else {
            i += 1;
            while i < n && !is_whitespace(s[i]) && !is_cjk(s[i])
                invariant
                    n == s@.len(),
                    start < i <= n,
                    word_end(s@, start + 1) == word_end(s@, i as int),
                decreases n - i,
            {
                i += 1;
            }
        }
        let ghost mid = i;
        while i < n && is_whitespace(s[i])
            invariant
                n == s@.len(),
                start < i <= n,
                space_end(s@, mid as int) == space_end(s@, i as int),
            decreases n - i,
        {
            i += 1;
        }
        assert(i == unit_end(s@, start as int));
        let piece = sub_chars(&s, start, i);
        let ghost before = units_v(out@);
        out.push((offsets[start], string_of(&piece)));
        assert(units_v(out@) =~= before.push((utf8_len(s@.take(start as int)), s@.subrange(
            start as int,
            i as int,
        ))));
        assert(wrap_go(s@, start as int) == seq![(utf8_len(s@.take(start as int)), s@.subrange(start as int, i as int))] + wrap_go(s@, i as int));
        assert(before + wrap_go(s@, start as int) =~= units_v(out@) + wrap_go(s@, i as int));
    }
    assert(wrap_go(s@, i as int) =~= Seq::<(nat, Seq<char>)>::empty());
    assert(units_v(out@) + Seq::<(nat, Seq<char>)>::empty() =~= units_v(out@));
    out
}

} // verus!
