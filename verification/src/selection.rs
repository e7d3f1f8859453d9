//! Mouse selection in a preview label: two byte offsets into its text, and
//! the text between them when both fall between characters.

use vstd::prelude::*;
use crate::text::{chars_of, string_of, sub_chars};
use crate::wrap::{char_len, char_offsets, utf8_len};

verus! {

/// `b` is the byte offset of the boundary before character `i` of `s`.
pub open spec fn boundary_at(s: Seq<char>, b: int, i: int) -> bool {
    0 <= i <= s.len() && utf8_len(s.take(i)) == b
}

/// `s[lo..hi]` by byte offsets: the characters between the two boundaries,
/// or nothing when either offset is not a boundary of `s`.
pub open spec fn byte_slice(s: Seq<char>, lo: int, hi: int) -> Option<Seq<char>> {
    if lo <= hi && (exists|i: int| boundary_at(s, lo, i)) && (exists|j: int| boundary_at(s, hi, j)) {
        let i = choose|i: int| boundary_at(s, lo, i);
        let j = choose|j: int| boundary_at(s, hi, j);
        Some(s.subrange(i, j))
    } else {
        None
    }
}

pub proof fn lemma_char_len_pos(c: char)
    ensures
        1 <= char_len(c) <= 4,
{
}

/// Later boundaries lie at larger byte offsets.
pub proof fn lemma_utf8_len_grows(s: Seq<char>, i: int, j: int)
    requires
        0 <= i < j <= s.len(),
    ensures
        utf8_len(s.take(i)) < utf8_len(s.take(j)),
    decreases j - i,
{
    assert(s.take(j).drop_last() =~= s.take(j - 1));
    lemma_char_len_pos(s.take(j).last());
    if i < j - 1 {
        lemma_utf8_len_grows(s, i, j - 1);
    }
}

/// A byte offset is the boundary of at most one character position.
pub proof fn lemma_boundary_unique(s: Seq<char>, b: int, i: int, k: int)
    requires
        boundary_at(s, b, i),
        boundary_at(s, b, k),
    ensures
        i == k,
{
    if i < k {
        lemma_utf8_len_grows(s, i, k);
    }
    if k < i {
        lemma_utf8_len_grows(s, k, i);
    }
}

/// The character position whose boundary is at byte `b`, if any.
fn boundary_index(offsets: &Vec<usize>, s: Ghost<Seq<char>>, b: usize) -> (r: Option<usize>)
    requires
        offsets@.len() == s@.len() + 1,
        forall|i: int| 0 <= i <= s@.len() ==> offsets@[i] == utf8_len(#[trigger] s@.take(i)),
    ensures
        match r {
            Some(i) => boundary_at(s@, b as int, i as int),
            None => !exists|i: int| boundary_at(s@, b as int, i),
        },
{
    let mut i: usize = 0;
    while i < offsets.len()
        invariant
            i <= offsets@.len(),
            offsets@.len() == s@.len() + 1,
            forall|i: int| 0 <= i <= s@.len() ==> offsets@[i] == utf8_len(#[trigger] s@.take(i)),
            forall|k: int| 0 <= k < i ==> !boundary_at(s@, b as int, k),
        decreases offsets@.len() - i,
    {
        if offsets[i] == b {
            assert(utf8_len(s@.take(i as int)) == b);
            return Some(i);
        }
        i += 1;
    }
    assert forall|k: int| !boundary_at(s@, b as int, k) by {
        if 0 <= k <= s@.len() {
            assert(offsets@[k] == utf8_len(s@.take(k)));
        }
    }
    None
}

/// A selection in one preview label.
#[derive(Clone, Debug)]
pub struct PreviewSel {
    pub key: String,
    pub text: String,
    pub anchor: usize,
    pub head: usize,
    pub dragging: bool,
}

impl Default for PreviewSel {
    fn default() -> (s: Self)
        ensures
            s.key@ == Seq::<char>::empty(),
            s.text@ == Seq::<char>::empty(),
            s.anchor == 0,
            s.head == 0,
            !s.dragging,
    {
        PreviewSel { key: String::new(), text: String::new(), anchor: 0, head: 0, dragging: false }
    }
}

impl PreviewSel {
    pub fn clear(&mut self)
        ensures
            final(self).key@ == Seq::<char>::empty(),
            final(self).text@ == Seq::<char>::empty(),
            final(self).anchor == 0,
            final(self).head == 0,
            !final(self).dragging,
    {
        *self = PreviewSel::default();
    }

    /// The selected byte range, low end first.
    pub fn range(&self) -> (r: std::ops::Range<usize>)
        ensures
            r.start == (if self.anchor <= self.head { self.anchor } else { self.head }),
            r.end == (if self.anchor <= self.head { self.head } else { self.anchor }),
    {
        if self.anchor <= self.head {
            self.anchor..self.head
        } else {
            self.head..self.anchor
        }
    }

    /// The selected text; nothing for an empty selection or one whose ends
    /// do not fall between characters.
    pub fn selected_text(&self) -> (out: Option<String>)
        ensures
            ({
                let (lo, hi) = if self.anchor <= self.head {
                    (self.anchor, self.head)
                } else {
                    (self.head, self.anchor)
                };
                match out {
                    None => lo == hi || byte_slice(self.text@, lo as int, hi as int) is None,
                    Some(s) => lo != hi && byte_slice(self.text@, lo as int, hi as int) == Some(s@),
                }
            }),
    {
        let range = self.range();
        let lo = range.start;
        let hi = range.end;
        if lo == hi {
            return None;
        }
        let t = self.text.as_str();
        let ghost sv = t@;
        let offsets = char_offsets(t);
        let i = match boundary_index(&offsets, Ghost(sv), lo) {
            Some(i) => i,
            None => return None,
        };
        let j = match boundary_index(&offsets, Ghost(sv), hi) {
            Some(j) => j,
            None => return None,
        };
        proof {
            let ci = choose|k: int| boundary_at(sv, lo as int, k);
            let cj = choose|k: int| boundary_at(sv, hi as int, k);
            lemma_boundary_unique(sv, lo as int, i as int, ci);
            lemma_boundary_unique(sv, hi as int, j as int, cj);
            if j < i {
                lemma_utf8_len_grows(sv, j as int, i as int);
            }
        }
        let cs = chars_of(t);
        let piece = sub_chars(&cs, i, j);
        Some(string_of(&piece))
    }
}

} // verus!
