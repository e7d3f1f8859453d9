//! Character-sequence model of the string operations the library relies on.

use vstd::prelude::*;
use vstd::std_specs::iter::IteratorSpec;

verus! {

/// Unicode `White_Space` property.
pub open spec fn is_ws(c: char) -> bool {
    ||| ('\u{9}' <= c && c <= '\u{d}')
    ||| c == ' '
    ||| c == '\u{85}'
    ||| c == '\u{a0}'
    ||| c == '\u{1680}'
    ||| ('\u{2000}' <= c && c <= '\u{200a}')
    ||| c == '\u{2028}'
    ||| c == '\u{2029}'
    ||| c == '\u{202f}'
    ||| c == '\u{205f}'
    ||| c == '\u{3000}'
}

/// Whether `c` is Unicode white space.
pub fn is_whitespace(c: char) -> (b: bool)
    ensures
        b == is_ws(c),
{
    ('\u{9}' <= c && c <= '\u{d}') || c == ' ' || c == '\u{85}' || c == '\u{a0}' || c == '\u{1680}'
        || ('\u{2000}' <= c && c <= '\u{200a}') || c == '\u{2028}' || c == '\u{2029}' || c
        == '\u{202f}' || c == '\u{205f}' || c == '\u{3000}'
}

/// The characters of `s`, in order.
pub(crate) fn chars_of(s: &str) -> (v: Vec<char>)
    ensures
        v@ == s@,
{
    broadcast use vstd::string::axiom_spec_iter, vstd::string::next_postcondition;

    let mut it = s.chars();
    let mut out: Vec<char> = Vec::new();
    loop
        invariant
            it.obeys_prophetic_iter_laws(),
            out@ + it.remaining() == s@,
        ensures
            out@ == s@,
        decreases s@.len() - out@.len(),
    {
        let ghost before = it.remaining();
        match it.next() {
            Some(c) => {
                assert(before.len() > 0);
                out.push(c);
                assert(out@ + it.remaining() =~= s@) by {
                    assert(before =~= seq![c] + before.drop_first());
                }
            },
            None => {
                assert(before.len() == 0);
                assert(out@ =~= s@);
                break;
            },
        }
    }
    out
}

/// Collects the characters of `v` into a `String` (`FromIterator<&char>`);
/// claims, as the standard library documents, that the string holds exactly
/// those characters in order.
#[verifier::external_body]
pub(crate) fn string_of(v: &[char]) -> (s: String)
    ensures
        s@ == v@,
{
    v.iter().collect()
}

// ---------------------------------------------------------------- trimming

pub open spec fn trim_start(s: Seq<char>) -> Seq<char>
    decreases s.len(),
{
    if s.len() > 0 && is_ws(s[0]) {
        trim_start(s.drop_first())
    } else {
        s
    }
}

pub open spec fn trim_end(s: Seq<char>) -> Seq<char>
    decreases s.len(),
{
    if s.len() > 0 && is_ws(s.last()) {
        trim_end(s.drop_last())
    } else {
        s
    }
}

/// `str::trim`: white space removed at both ends.
pub open spec fn trim(s: Seq<char>) -> Seq<char> {
    trim_end(trim_start(s))
}

/// Index of the first character of `s` that `trim_start` keeps.
pub fn trim_start_index(s: &[char]) -> (i: usize)
    ensures
        i <= s@.len(),
        trim_start(s@) == s@.skip(i as int),
{
    let mut i: usize = 0;
    assert(s@.skip(0) =~= s@);
    while i < s.len() && is_whitespace(s[i])
        invariant
            i <= s@.len(),
            trim_start(s@) == trim_start(s@.skip(i as int)),
        decreases s@.len() - i,
    {
        assert(s@.skip(i as int).drop_first() =~= s@.skip(i + 1));
        i += 1;
    }
    i
}

/// Index just past the last character of `s[from..]` that `trim_end` keeps.
pub fn trim_end_index(s: &[char], from: usize) -> (j: usize)
    requires
        from <= s@.len(),
    ensures
        from <= j <= s@.len(),
        trim_end(s@.subrange(from as int, s@.len() as int)) == s@.subrange(from as int, j as int),
{
    let mut j: usize = s.len();
    while j > from && is_whitespace(s[j - 1])
        invariant
            from <= j <= s@.len(),
            trim_end(s@.subrange(from as int, s@.len() as int)) == trim_end(
                s@.subrange(from as int, j as int),
            ),
        decreases j,
    {
        assert(s@.subrange(from as int, j as int).drop_last() =~= s@.subrange(
            from as int,
            j - 1,
        ));
        j -= 1;
    }
    j
}

/// Copy of `s[from..to]`.
pub fn sub_chars(s: &[char], from: usize, to: usize) -> (out: Vec<char>)
    requires
        from <= to <= s@.len(),
    ensures
        out@ == s@.subrange(from as int, to as int),
{
    let mut out: Vec<char> = Vec::new();
    let mut k = from;
    while k < to
        invariant
            from <= k <= to <= s@.len(),
            out@ == s@.subrange(from as int, k as int),
        decreases to - k,
    {
        out.push(s[k]);
        k += 1;
        assert(out@ =~= s@.subrange(from as int, k as int));
    }
    out
}

/// `str::trim` on characters.
pub fn trim_chars(s: &[char]) -> (out: Vec<char>)
    ensures
        out@ == trim(s@),
{
    let i = trim_start_index(s);
    let j = trim_end_index(s, i);
    assert(s@.skip(i as int) =~= s@.subrange(i as int, s@.len() as int));
    sub_chars(s, i, j)
}

/// `str::trim_start` on characters.
pub fn trim_start_chars(s: &[char]) -> (out: Vec<char>)
    ensures
        out@ == trim_start(s@),
{
    let i = trim_start_index(s);
    assert(s@.skip(i as int) =~= s@.subrange(i as int, s@.len() as int));
    sub_chars(s, i, s.len())
}

/// Appends `s` to `out`.
pub fn push_all(out: &mut Vec<char>, s: &[char])
    ensures
        final(out)@ == old(out)@ + s@,
{
    let mut k: usize = 0;
    while k < s.len()
        invariant
            k <= s@.len(),
            out@ == old(out)@ + s@.take(k as int),
        decreases s@.len() - k,
    {
        out.push(s[k]);
        k += 1;
        assert(out@ =~= old(out)@ + s@.take(k as int));
    }
    assert(s@.take(s@.len() as int) =~= s@);
}

/// Appends the characters of `s` to `out`.
pub fn push_str(out: &mut Vec<char>, s: &str)
    ensures
        final(out)@ == old(out)@ + s@,
{
    let v = chars_of(s);
    push_all(out, &v);
}

// ---------------------------------------------------------------- splitting

/// Pieces of `s` between the characters that satisfy `p` (empty pieces kept).
pub open spec fn split_by(s: Seq<char>, p: spec_fn(char) -> bool) -> Seq<Seq<char>>
    decreases s.len(),
{
    if s.len() == 0 {
        seq![Seq::<char>::empty()]
    } else {
        let prev = split_by(s.drop_last(), p);
        if p(s.last()) {
            prev.push(Seq::<char>::empty())
        } else {
            prev.update(prev.len() - 1, prev.last().push(s.last()))
        }
    }
}

pub open spec fn char_is(x: char) -> spec_fn(char) -> bool {
    |c: char| c == x
}

pub open spec fn newline() -> spec_fn(char) -> bool {
    char_is('\n')
}

/// The character sequences held by a vector of character vectors.
pub open spec fn views(v: Seq<Vec<char>>) -> Seq<Seq<char>> {
    v.map_values(|x: Vec<char>| x@)
}

pub open spec fn white() -> spec_fn(char) -> bool {
    |c: char| is_ws(c)
}

pub proof fn lemma_split_nonempty(s: Seq<char>, p: spec_fn(char) -> bool)
    ensures
        split_by(s, p).len() >= 1,
    decreases s.len(),
{
    if s.len() > 0 {
        lemma_split_nonempty(s.drop_last(), p);
    }
}

/// The pieces that are not empty, in order.
pub open spec fn keep_nonempty(ps: Seq<Seq<char>>) -> Seq<Seq<char>>
    decreases ps.len(),
{
    if ps.len() == 0 {
        Seq::empty()
    } else {
        let rest = keep_nonempty(ps.drop_last());
        if ps.last().len() > 0 {
            rest.push(ps.last())
        } else {
            rest
        }
    }
}

/// Pieces joined with `sep` between consecutive pieces.
pub open spec fn join(ps: Seq<Seq<char>>, sep: Seq<char>) -> Seq<char>
    decreases ps.len(),
{
    if ps.len() == 0 {
        Seq::empty()
    } else if ps.len() == 1 {
        ps[0]
    } else {
        join(ps.drop_last(), sep) + sep + ps.last()
    }
}

/// Every piece trimmed.
pub open spec fn trim_all(ps: Seq<Seq<char>>) -> Seq<Seq<char>> {
    ps.map_values(|p: Seq<char>| trim(p))
}

/// `text.lines().map(str::trim).filter(|l| !l.is_empty())`.
pub open spec fn nonblank_lines(s: Seq<char>) -> Seq<Seq<char>> {
    keep_nonempty(trim_all(split_by(s, newline())))
}

/// `text.split_whitespace()`.
pub open spec fn words(s: Seq<char>) -> Seq<Seq<char>> {
    keep_nonempty(split_by(s, white()))
}

/// `text.split_whitespace().collect::<Vec<_>>().join(" ")`.
pub open spec fn collapse_ws(s: Seq<char>) -> Seq<char> {
    join(words(s), seq![' '])
}

/// No character of `s` satisfies `p`.
pub open spec fn free_of(s: Seq<char>, p: spec_fn(char) -> bool) -> bool {
    forall|i: int| 0 <= i < s.len() ==> !p(#[trigger] s[i])
}

/// No white space at either end.
pub open spec fn trimmed(s: Seq<char>) -> bool {
    s.len() == 0 || (!is_ws(s[0]) && !is_ws(s.last()))
}

/// Characters without a separator extend the last piece.
pub proof fn lemma_split_append_free(a: Seq<char>, y: Seq<char>, p: spec_fn(char) -> bool)
    requires
        free_of(y, p),
    ensures
        split_by(a + y, p) == split_by(a, p).update(
            split_by(a, p).len() - 1,
            split_by(a, p).last() + y,
        ),
    decreases y.len(),
{
    lemma_split_nonempty(a, p);
    let sa = split_by(a, p);
    if y.len() == 0 {
        assert(a + y =~= a);
        assert(sa.last() + y =~= sa.last());
        assert(sa.update(sa.len() - 1, sa.last() + y) =~= sa);
    } else {
        let y0 = y.drop_last();
        assert(free_of(y0, p)) by {
            assert forall|i: int| 0 <= i < y0.len() implies !p(#[trigger] y0[i]) by {
                assert(y0[i] == y[i]);
            }
        }
        lemma_split_append_free(a, y0, p);
        assert((a + y).drop_last() =~= a + y0);
        assert((a + y).last() == y[y.len() - 1]);
        assert(!p(y[y.len() - 1]));
        assert((sa.last() + y0).push(y.last()) =~= sa.last() + y);
        let prev = split_by(a + y0, p);
        assert(prev.update(prev.len() - 1, prev.last().push(y.last())) =~= sa.update(
            sa.len() - 1,
            sa.last() + y,
        ));
    }
}

/// Splitting what was joined with a separator gives the pieces back.
pub proof fn lemma_split_join(ps: Seq<Seq<char>>, c: char, p: spec_fn(char) -> bool)
    requires
        ps.len() >= 1,
        p(c),
        forall|i: int| 0 <= i < ps.len() ==> free_of(#[trigger] ps[i], p),
    ensures
        split_by(join(ps, seq![c]), p) == ps,
    decreases ps.len(),
{
    if ps.len() == 1 {
        lemma_split_append_free(Seq::<char>::empty(), ps[0], p);
        assert(Seq::<char>::empty() + ps[0] =~= ps[0]);
        assert(split_by(Seq::<char>::empty(), p) =~= seq![Seq::<char>::empty()]);
        assert(Seq::<char>::empty() + ps[0] =~= ps[0]);
        assert(seq![Seq::<char>::empty()].update(0, Seq::<char>::empty() + ps[0]) =~= ps);
    } else {
        let q = ps.drop_last();
        assert forall|i: int| 0 <= i < q.len() implies free_of(#[trigger] q[i], p) by {
            assert(q[i] == ps[i]);
        }
        lemma_split_join(q, c, p);
        let a = join(q, seq![c]) + seq![c];
        assert(a.drop_last() =~= join(q, seq![c]));
        assert(split_by(a, p) == q.push(Seq::<char>::empty()));
        lemma_split_append_free(a, ps.last(), p);
        assert(join(ps, seq![c]) =~= a + ps.last());
        assert(Seq::<char>::empty() + ps.last() =~= ps.last());
        assert(q.push(Seq::<char>::empty()).update(q.len() as int, Seq::<char>::empty() + ps.last()) =~= ps);
    }
}

/// The pieces of a split hold no separator.
pub proof fn lemma_split_free(s: Seq<char>, p: spec_fn(char) -> bool)
    ensures
        forall|i: int| 0 <= i < split_by(s, p).len() ==> free_of(#[trigger] split_by(s, p)[i], p),
    decreases s.len(),
{
    if s.len() > 0 {
        lemma_split_free(s.drop_last(), p);
        lemma_split_nonempty(s.drop_last(), p);
        let prev = split_by(s.drop_last(), p);
        if !p(s.last()) {
            assert(free_of(prev.last().push(s.last()), p)) by {
                let l = prev.last().push(s.last());
                assert forall|i: int| 0 <= i < l.len() implies !p(#[trigger] l[i]) by {
                    if i < prev.last().len() {
                        assert(l[i] == prev.last()[i]);
                        assert(free_of(prev[prev.len() - 1], p));
                    }
                }
            }
        }
    } else {
        assert(split_by(s, p) =~= seq![Seq::<char>::empty()]);
    }
}

pub proof fn lemma_trim_start_props(s: Seq<char>, p: spec_fn(char) -> bool)
    ensures
        trim_start(s).len() == 0 || !is_ws(trim_start(s)[0]),
        trim_start(s).len() > 0 ==> trim_start(s).last() == s.last(),
        free_of(s, p) ==> free_of(trim_start(s), p),
    decreases s.len(),
{
    if s.len() > 0 && is_ws(s[0]) {
        let t = s.drop_first();
        assert(free_of(s, p) ==> free_of(t, p)) by {
            if free_of(s, p) {
                assert forall|i: int| 0 <= i < t.len() implies !p(#[trigger] t[i]) by {
                    assert(t[i] == s[i + 1]);
                }
            }
        }
        lemma_trim_start_props(t, p);
    }
}

pub proof fn lemma_trim_end_props(s: Seq<char>, p: spec_fn(char) -> bool)
    ensures
        trim_end(s).len() == 0 || !is_ws(trim_end(s).last()),
        trim_end(s).len() > 0 ==> trim_end(s)[0] == s[0],
        free_of(s, p) ==> free_of(trim_end(s), p),
    decreases s.len(),
{
    if s.len() > 0 && is_ws(s.last()) {
        let t = s.drop_last();
        assert(free_of(s, p) ==> free_of(t, p)) by {
            if free_of(s, p) {
                assert forall|i: int| 0 <= i < t.len() implies !p(#[trigger] t[i]) by {
                    assert(t[i] == s[i]);
                }
            }
        }
        lemma_trim_end_props(t, p);
    }
}

/// `trim` leaves no white space at its ends and adds no character.
pub proof fn lemma_trim_props(s: Seq<char>, p: spec_fn(char) -> bool)
    ensures
        trimmed(trim(s)),
        free_of(s, p) ==> free_of(trim(s), p),
{
    lemma_trim_start_props(s, p);
    lemma_trim_end_props(trim_start(s), p);
}

/// Text with no white space at its ends is its own `trim`.
pub proof fn lemma_trim_fixed(s: Seq<char>)
    requires
        trimmed(s),
    ensures
        trim(s) == s,
{
    assert(trim_start(s) == s);
    assert(trim_end(s) == s);
}

/// The pieces `keep_nonempty` keeps are pieces it was given, and a run of
/// pieces none of them empty is kept whole.
pub proof fn lemma_keep_nonempty_props(ps: Seq<Seq<char>>, q: spec_fn(Seq<char>) -> bool)
    requires
        forall|i: int| 0 <= i < ps.len() ==> q(#[trigger] ps[i]),
    ensures
        forall|i: int|
            0 <= i < keep_nonempty(ps).len() ==> #[trigger] keep_nonempty(ps)[i].len() > 0 && q(
                keep_nonempty(ps)[i],
            ),
        (forall|i: int| 0 <= i < ps.len() ==> #[trigger] ps[i].len() > 0) ==> keep_nonempty(ps) == ps,
    decreases ps.len(),
{
    if ps.len() > 0 {
        let r = ps.drop_last();
        assert forall|i: int| 0 <= i < r.len() implies q(#[trigger] r[i]) by {
            assert(r[i] == ps[i]);
        }
        lemma_keep_nonempty_props(r, q);
        let rest = keep_nonempty(r);
        let k = keep_nonempty(ps);
        assert forall|i: int| 0 <= i < k.len() implies #[trigger] k[i].len() > 0 && q(k[i]) by {
            if ps.last().len() > 0 {
                assert(k == rest.push(ps.last()));
                if i < rest.len() {
                    assert(k[i] == rest[i]);
                } else {
                    assert(k[i] == ps[ps.len() - 1]);
                }
            } else {
                assert(k == rest);
            }
        }
        if forall|i: int| 0 <= i < ps.len() ==> #[trigger] ps[i].len() > 0 {
            assert forall|i: int| 0 <= i < r.len() implies #[trigger] r[i].len() > 0 by {
                assert(r[i] == ps[i]);
            }
            assert(ps.last().len() > 0);
            assert(r.push(ps.last()) =~= ps);
        }
    } else {
        assert(keep_nonempty(ps) =~= Seq::<Seq<char>>::empty());
    }
}

/// Pieces free of `p`, joined by a character that is not, are free of `p`.
pub proof fn lemma_join_free(ps: Seq<Seq<char>>, c: char, p: spec_fn(char) -> bool)
    requires
        !p(c),
        forall|i: int| 0 <= i < ps.len() ==> free_of(#[trigger] ps[i], p),
    ensures
        free_of(join(ps, seq![c]), p),
    decreases ps.len(),
{
    if ps.len() == 1 {
        assert(free_of(ps[0], p));
    } else if ps.len() > 1 {
        let q = ps.drop_last();
        assert forall|i: int| 0 <= i < q.len() implies free_of(#[trigger] q[i], p) by {
            assert(q[i] == ps[i]);
        }
        lemma_join_free(q, c, p);
        let a = join(q, seq![c]);
        let l = ps.last();
        assert(free_of(ps[ps.len() - 1], p));
        let j = a + seq![c] + l;
        assert(join(ps, seq![c]) == j);
        assert forall|i: int| 0 <= i < j.len() implies !p(#[trigger] j[i]) by {
            if i < a.len() {
                assert(j[i] == a[i]);
            } else if i == a.len() {
                assert(j[i] == c);
            } else {
                assert(j[i] == l[i - a.len() - 1]);
            }
        }
    }
}

/// Non-empty pieces joined by anything begin with the first piece's first
/// character and end with the last piece's last.
pub proof fn lemma_join_ends(ps: Seq<Seq<char>>, sep: Seq<char>)
    requires
        ps.len() >= 1,
        forall|i: int| 0 <= i < ps.len() ==> #[trigger] ps[i].len() > 0,
    ensures
        join(ps, sep).len() > 0,
        join(ps, sep)[0] == ps[0][0],
        join(ps, sep).last() == ps.last().last(),
    decreases ps.len(),
{
    assert(ps[0].len() > 0);
    assert(ps[ps.len() - 1].len() > 0);
    if ps.len() > 1 {
        let q = ps.drop_last();
        assert forall|i: int| 0 <= i < q.len() implies #[trigger] q[i].len() > 0 by {
            assert(q[i] == ps[i]);
        }
        lemma_join_ends(q, sep);
        assert(q[0] == ps[0]);
        let j = join(q, sep) + sep + ps.last();
        assert(j[0] == join(q, sep)[0]);
    }
}

pub proof fn lemma_split_step(s: Seq<char>, i: int, p: spec_fn(char) -> bool)
    requires
        0 <= i < s.len(),
    ensures
        split_by(s.take(i + 1), p) == (if p(s[i]) {
            split_by(s.take(i), p).push(Seq::<char>::empty())
        } else {
            let prev = split_by(s.take(i), p);
            prev.update(prev.len() - 1, prev.last().push(s[i]))
        }),
{
    assert(s.take(i + 1).drop_last() =~= s.take(i));
}

/// Splits `s` at every character equal to `sep`, like `str::split`.
pub fn split_at_char(s: &[char], sep: char) -> (out: Vec<Vec<char>>)
    ensures
        views(out@) == split_by(s@, char_is(sep)),
{
    let ghost p = char_is(sep);
    let mut out: Vec<Vec<char>> = Vec::new();
    let mut cur: Vec<char> = Vec::new();
    let mut i: usize = 0;
    assert(s@.take(0) =~= Seq::<char>::empty());
    while i < s.len()
        invariant
            i <= s@.len(),
            p == char_is(sep),
            views(out@).push(cur@) == split_by(s@.take(i as int), p),
        decreases s@.len() - i,
    {
        proof {
            lemma_split_step(s@, i as int, p);
        }
        let ghost before = views(out@).push(cur@);
        if s[i] == sep {
            out.push(cur);
            cur = Vec::new();
            assert(views(out@).push(cur@) =~= before.push(Seq::<char>::empty()));
        } else {
            cur.push(s[i]);
            assert(views(out@).push(cur@) =~= before.update(
                before.len() - 1,
                before.last().push(s@[i as int]),
            ));
        }
        i += 1;
    }
    assert(s@.take(s@.len() as int) =~= s@);
    out.push(cur);
    out
}

/// Splits `s` at every white-space character (empty pieces kept).
pub fn split_at_ws(s: &[char]) -> (out: Vec<Vec<char>>)
    ensures
        views(out@) == split_by(s@, white()),
{
    let ghost p = white();
    let mut out: Vec<Vec<char>> = Vec::new();
    let mut cur: Vec<char> = Vec::new();
    let mut i: usize = 0;
    assert(s@.take(0) =~= Seq::<char>::empty());
    while i < s.len()
        invariant
            i <= s@.len(),
            p == white(),
            views(out@).push(cur@) == split_by(s@.take(i as int), p),
        decreases s@.len() - i,
    {
        proof {
            lemma_split_step(s@, i as int, p);
        }
        let ghost before = views(out@).push(cur@);
        if is_whitespace(s[i]) {
            out.push(cur);
            cur = Vec::new();
            assert(views(out@).push(cur@) =~= before.push(Seq::<char>::empty()));
        } else {
            cur.push(s[i]);
            assert(views(out@).push(cur@) =~= before.update(
                before.len() - 1,
                before.last().push(s@[i as int]),
            ));
        }
        i += 1;
    }
    assert(s@.take(s@.len() as int) =~= s@);
    out.push(cur);
    out
}

/// The non-empty pieces, in order.
pub fn keep_nonempty_exec(ps: Vec<Vec<char>>) -> (out: Vec<Vec<char>>)
    ensures
        views(out@) == keep_nonempty(views(ps@)),
{
    let mut out: Vec<Vec<char>> = Vec::new();
    let mut i: usize = 0;
    let ghost pv = views(ps@);
    // walk the pieces front to back
    assert(pv.take(0) =~= Seq::<Seq<char>>::empty());
    while i < ps.len()
        invariant
            i <= ps@.len(),
            views(ps@) == pv,
            views(out@) == keep_nonempty(pv.take(i as int)),
        decreases ps@.len() - i,
    {
        assert(pv.take(i + 1).drop_last() =~= pv.take(i as int));
        let piece = sub_chars(ps[i].as_slice(), 0, ps[i].len());
        assert(ps[i as int]@.subrange(0, ps[i as int]@.len() as int) =~= ps[i as int]@);
        if piece.len() > 0 {
            out.push(piece);
            assert(views(out@) =~= keep_nonempty(pv.take(i as int)).push(pv[i as int]));
        }
        i += 1;
    }
    assert(pv.take(ps@.len() as int) =~= pv);
    out
}

/// The pieces joined with `sep`.
pub fn join_exec(ps: &Vec<Vec<char>>, sep: &[char]) -> (out: Vec<char>)
    ensures
        out@ == join(views(ps@), sep@),
{
    let ghost pv = views(ps@);
    let mut out: Vec<char> = Vec::new();
    let mut i: usize = 0;
    assert(pv.take(0) =~= Seq::<Seq<char>>::empty());
    while i < ps.len()
        invariant
            i <= ps@.len(),
            pv == views(ps@),
            out@ == join(pv.take(i as int), sep@),
        decreases ps@.len() - i,
    {
        assert(pv.take(i + 1).drop_last() =~= pv.take(i as int));
        if i > 0 {
            push_all(&mut out, sep);
        }
        push_all(&mut out, ps[i].as_slice());
        i += 1;
        if i == 1 {
            assert(out@ =~= pv.take(1)[0]);
        }
    }
    assert(pv.take(ps@.len() as int) =~= pv);
    out
}

/// Every piece trimmed.
pub fn trim_all_exec(ps: &Vec<Vec<char>>) -> (out: Vec<Vec<char>>)
    ensures
        views(out@) == trim_all(views(ps@)),
{
    let mut out: Vec<Vec<char>> = Vec::new();
    let mut i: usize = 0;
    assert(views(out@) =~= trim_all(views(ps@)).take(0));
    while i < ps.len()
        invariant
            i <= ps@.len(),
            views(out@) == trim_all(views(ps@)).take(i as int),
        decreases ps@.len() - i,
    {
        let t = trim_chars(ps[i].as_slice());
        let ghost before = views(out@);
        out.push(t);
        assert(views(ps@)[i as int] == ps@[i as int]@);
        assert(trim_all(views(ps@))[i as int] == trim(ps@[i as int]@));
        assert(views(out@) =~= before.push(trim(ps@[i as int]@)));
        i += 1;
        assert(views(out@) =~= trim_all(views(ps@)).take(i as int));
    }
    assert(trim_all(views(ps@)).take(ps@.len() as int) =~= trim_all(views(ps@)));
    out
}

/// `text.lines().map(str::trim).filter(|l| !l.is_empty())` on characters.
pub fn nonblank_lines_exec(s: &[char]) -> (out: Vec<Vec<char>>)
    ensures
        views(out@) == nonblank_lines(s@),
{
    let pieces = split_at_char(s, '\n');
    let trimmed = trim_all_exec(&pieces);
    keep_nonempty_exec(trimmed)
}

/// `text.split_whitespace().collect::<Vec<_>>().join(" ")` on characters.
pub fn collapse_ws_exec(s: &[char]) -> (out: Vec<char>)
    ensures
        out@ == collapse_ws(s@),
{
    let pieces = split_at_ws(s);
    let ws = keep_nonempty_exec(pieces);
    let sep = vec![' '];
    assert(sep@ =~= seq![' ']);
    join_exec(&ws, sep.as_slice())
}

// ---------------------------------------------------------------- searching

/// `s.starts_with(pat)`.
pub open spec fn starts_with(s: Seq<char>, pat: Seq<char>) -> bool {
    pat.len() <= s.len() && s.take(pat.len() as int) == pat
}

/// `s.ends_with(pat)`.
pub open spec fn ends_with(s: Seq<char>, pat: Seq<char>) -> bool {
    pat.len() <= s.len() && s.skip(s.len() - pat.len()) == pat
}

/// `s.contains(pat)`.
pub open spec fn contains(s: Seq<char>, pat: Seq<char>) -> bool {
    exists|i: int| 0 <= i <= s.len() && #[trigger] starts_with(s.skip(i), pat)
}

/// `s.replace(pat, rep)` for a non-empty `pat`: left to right, matches do not overlap.
pub open spec fn replace_all(s: Seq<char>, pat: Seq<char>, rep: Seq<char>) -> Seq<char>
    decreases s.len(),
{
    if s.len() == 0 {
        Seq::empty()
    } else if pat.len() > 0 && starts_with(s, pat) {
        rep + replace_all(s.skip(pat.len() as int), pat, rep)
    } else {
        seq![s[0]] + replace_all(s.drop_first(), pat, rep)
    }
}

/// Whether `pat` occurs in `s` at index `i`.
pub fn matches_at(s: &[char], i: usize, pat: &[char]) -> (b: bool)
    requires
        i <= s@.len(),
    ensures
        b == starts_with(s@.skip(i as int), pat@),
{
    if pat.len() > s.len() - i {
        return false;
    }
    let n = s.len();
    let mut k: usize = 0;
    while k < pat.len()
        invariant
            k <= pat@.len(),
            n == s@.len(),
            i <= s@.len(),
            pat@.len() <= s@.len() - i,
            forall|j: int| 0 <= j < k ==> s@[i + j] == pat@[j],
        decreases pat@.len() - k,
    {
        if s[i + k] != pat[k] {
            assert(s@.skip(i as int).take(pat@.len() as int)[k as int] != pat@[k as int]);
            return false;
        }
        k += 1;
    }
    assert(s@.skip(i as int).take(pat@.len() as int) =~= pat@);
    true
}

/// `s.contains(pat)` on characters.
pub fn contains_exec(s: &[char], pat: &[char]) -> (b: bool)
    ensures
        b == contains(s@, pat@),
{
    let mut i: usize = 0;
    while i < s.len()
        invariant
            i <= s@.len(),
            forall|j: int| 0 <= j < i ==> !#[trigger] starts_with(s@.skip(j), pat@),
        decreases s@.len() - i,
    {
        if matches_at(s, i, pat) {
            return true;
        }
        i += 1;
    }
    if matches_at(s, i, pat) {
        return true;
    }
    assert(forall|j: int| 0 <= j <= s@.len() ==> !#[trigger] starts_with(s@.skip(j), pat@));
    false
}

/// Whether `c` occurs in `s`.
pub fn has_char(s: &[char], c: char) -> (b: bool)
    ensures
        b == s@.contains(c),
{
    let mut i: usize = 0;
    while i < s.len()
        invariant
            i <= s@.len(),
            forall|j: int| 0 <= j < i ==> s@[j] != c,
        decreases s@.len() - i,
    {
        if s[i] == c {
            return true;
        }
        i += 1;
    }
    false
}

/// `s.replace(pat, rep)` on characters.
pub fn replace_exec(s: &[char], pat: &[char], rep: &[char]) -> (out: Vec<char>)
    requires
        pat@.len() > 0,
    ensures
        out@ == replace_all(s@, pat@, rep@),
{
    let mut out: Vec<char> = Vec::new();
    let mut i: usize = 0;
    assert(s@.skip(0) =~= s@);
    while i < s.len()
        invariant
            i <= s@.len(),
            pat@.len() > 0,
            replace_all(s@, pat@, rep@) == out@ + replace_all(s@.skip(i as int), pat@, rep@),
        decreases s@.len() - i,
    {
        if matches_at(s, i, pat) {
            push_all(&mut out, rep);
            assert(s@.skip(i as int).skip(pat@.len() as int) =~= s@.skip(i + pat@.len()));
            i += pat.len();
        } else {
            out.push(s[i]);
            assert(s@.skip(i as int).drop_first() =~= s@.skip(i + 1));
            i += 1;
        }
    }
    assert(s@.skip(i as int) =~= Seq::<char>::empty());
    assert(out@ + Seq::<char>::empty() =~= out@);
    out
}

// ---------------------------------------------------------------- numbers

pub open spec fn digit_char(d: int) -> char {
    if d == 0 { '0' } else if d == 1 { '1' } else if d == 2 { '2' } else if d == 3 { '3' }
    else if d == 4 { '4' } else if d == 5 { '5' } else if d == 6 { '6' } else if d == 7 { '7' }
    else if d == 8 { '8' } else { '9' }
}

/// Decimal digits of `n`, as `n.to_string()` writes them.
pub open spec fn dec(n: nat) -> Seq<char>
    decreases n,
{
    if n < 10 {
        seq![digit_char(n as int)]
    } else {
        dec(n / 10).push(digit_char((n % 10) as int))
    }
}

pub fn digit_exec(d: u64) -> (c: char)
    requires
        d < 10,
    ensures
        c == digit_char(d as int),
{
    if d == 0 { '0' } else if d == 1 { '1' } else if d == 2 { '2' } else if d == 3 { '3' }
    else if d == 4 { '4' } else if d == 5 { '5' } else if d == 6 { '6' } else if d == 7 { '7' }
    else if d == 8 { '8' } else { '9' }
}

/// Decimal digits of `n`.
pub fn dec_exec(n: u64) -> (out: Vec<char>)
    ensures
        out@ == dec(n as nat),
    decreases n,
{
    if n < 10 {
        let mut v = Vec::new();
        v.push(digit_exec(n));
        assert(v@ =~= seq![digit_char(n as int)]);
        v
    } else {
        let mut v = dec_exec(n / 10);
        v.push(digit_exec(n % 10));
        v
    }
}

} // verus!
