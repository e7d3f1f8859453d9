//! Image intake: which dropped paths are images, and the batch of files
//! being decoded with the state of each.

use vstd::prelude::*;
use crate::cells::{ascii_lower, ascii_lower_exec};
use crate::text::{chars_of, string_of, sub_chars};

verus! {

// ------------------------------------------------------------ paths

/// The image extensions taken in, lower case.
pub open spec fn image_exts() -> Seq<Seq<char>> {
    seq![seq!['p', 'n', 'g'], seq!['j', 'p', 'g'], seq!['j', 'p', 'e', 'g'], seq!['w', 'e', 'b', 'p']]
}

/// Index of the last `c` in `s[..end]`.
pub open spec fn last_index(s: Seq<char>, c: char, end: int) -> Option<int>
    decreases end,
{
    if end <= 0 || end > s.len() {
        None
    } else if s[end - 1] == c {
        Some(end - 1)
    } else {
        last_index(s, c, end - 1)
    }
}

/// The components of a path that name something: the pieces between `/`
/// that are neither empty nor `.`.
pub open spec fn path_parts(p: Seq<char>) -> Seq<Seq<char>> {
    crate::text::split_by(p, crate::text::char_is('/')).filter(
        |c: Seq<char>| c.len() > 0 && c != seq!['.'],
    )
}

/// `Path::file_name`: the last component, unless the path has none or ends
/// in `..`.
pub open spec fn file_name(p: Seq<char>) -> Option<Seq<char>> {
    let parts = path_parts(p);
    if parts.len() == 0 || parts.last() == seq!['.', '.'] {
        None
    } else {
        Some(parts.last())
    }
}

/// `Path::extension`: what follows the last `.` of the file name, unless
/// that dot starts the name.
pub open spec fn extension(p: Seq<char>) -> Option<Seq<char>> {
    match file_name(p) {
        None => None,
        Some(name) => match last_index(name, '.', name.len() as int) {
            None => None,
            Some(i) => if i == 0 {
                None
            } else {
                Some(name.skip(i + 1))
            },
        },
    }
}

/// Whether the path has one of the image extensions, in any ASCII case.
pub open spec fn is_image_path(p: Seq<char>) -> bool {
    match extension(p) {
        Some(e) => image_exts().contains(ascii_lower(e)),
        None => false,
    }
}

/// Index of the last `c` in `s[..end]`.
fn last_index_exec(s: &[char], c: char, end: usize) -> (r: Option<usize>)
    requires
        end <= s@.len(),
    ensures
        crate::tabular::opt_int(r) == last_index(s@, c, end as int),
        r matches Some(i) ==> i < end,
{
    let mut k = end;
    while k > 0
        invariant
            k <= end <= s@.len(),
            last_index(s@, c, end as int) == last_index(s@, c, k as int),
        decreases k,
    {
        if s[k - 1] == c {
            return Some(k - 1);
        }
        k -= 1;
    }
    None
}

/// The last piece of `p` between `/` that is neither empty nor `.`, if any.
fn last_part(p: &[char]) -> (r: Option<Vec<char>>)
    ensures
        match r {
            Some(v) => path_parts(p@).len() > 0 && v@ == path_parts(p@).last(),
            None => path_parts(p@).len() == 0,
        },
{
    let pieces = crate::text::split_at_char(p, '/');
    let ghost all = crate::text::split_by(p@, crate::text::char_is('/'));
    let ghost keep = |c: Seq<char>| c.len() > 0 && c != seq!['.'];
    assert(crate::text::views(pieces@) == all);
    assert(all.take(all.len() as int) =~= all);
    let mut k = pieces.len();
    while k > 0
        invariant
            k <= pieces@.len(),
            crate::text::views(pieces@) == all,
            all == crate::text::split_by(p@, crate::text::char_is('/')),
            keep == (|c: Seq<char>| c.len() > 0 && c != seq!['.']),
            all.filter(keep) == all.take(k as int).filter(keep),
        decreases k,
    {
        proof {
            reveal(Seq::filter);
        }
        let piece = &pieces[k - 1];
        assert(all[k - 1] == piece@);
        assert(all.take(k as int).drop_last() =~= all.take(k - 1));
        assert(all.take(k as int).last() == all[k - 1]);
        if piece.len() > 0 && !(piece.len() == 1 && piece[0] == '.') {
            assert(keep(piece@)) by {
                if piece@ == seq!['.'] {
                    assert(piece@.len() == 1 && piece@[0] == '.');
                }
            }
            assert(all.take(k as int).filter(keep) == all.take(k - 1).filter(keep).push(piece@));
            let mut out: Vec<char> = Vec::new();
            let n = piece.len();
            let mut j: usize = 0;
            while j < n
                invariant
                    n == piece@.len(),
                    j <= n,
                    out@ == piece@.take(j as int),
                decreases n - j,
            {
                out.push(piece[j]);
                j += 1;
                assert(out@ =~= piece@.take(j as int));
            }
            assert(piece@.take(n as int) =~= piece@);
            return Some(out);
        }
        assert(!keep(piece@)) by {
            if piece@.len() == 1 && piece@[0] == '.' {
                assert(piece@ =~= seq!['.']);
            }
        }
        assert(all.take(k as int).filter(keep) == all.take(k - 1).filter(keep));
        k -= 1;
    }
    proof {
        reveal(Seq::filter);
    }
    assert(all.take(0).filter(keep) =~= Seq::<Seq<char>>::empty());
    None
}

/// How `Path` tells paths apart: whether it starts at the root, whether it
/// starts with a `.` component, and its other components. Repeated and
/// trailing separators and inner `.` components make no difference.
pub open spec fn path_key(p: Seq<char>) -> (bool, bool, Seq<Seq<char>>) {
    let rooted = p.len() > 0 && p[0] == '/';
    let dotted = !rooted && p.len() > 0 && p[0] == '.' && (p.len() == 1 || p[1] == '/');
    (rooted, dotted, path_parts(p))
}

/// Whether one of `paths` is the same path as `p`.
pub open spec fn holds_path(paths: Seq<Seq<char>>, p: Seq<char>) -> bool {
    exists|i: int| 0 <= i < paths.len() && path_key(#[trigger] paths[i]) == path_key(p)
}

/// The components of `p` between `/` that are neither empty nor `.`.
fn path_parts_exec(p: &[char]) -> (r: Vec<Vec<char>>)
    ensures
        crate::text::views(r@) == path_parts(p@),
{
    let pieces = crate::text::split_at_char(p, '/');
    let ghost all = crate::text::split_by(p@, crate::text::char_is('/'));
    let ghost keep = |c: Seq<char>| c.len() > 0 && c != seq!['.'];
    let mut out: Vec<Vec<char>> = Vec::new();
    let mut k: usize = 0;
    proof {
        reveal(Seq::filter);
    }
    assert(all.take(0).filter(keep) =~= Seq::<Seq<char>>::empty());
    while k < pieces.len()
        invariant
            k <= pieces@.len(),
            crate::text::views(pieces@) == all,
            all == crate::text::split_by(p@, crate::text::char_is('/')),
            keep == (|c: Seq<char>| c.len() > 0 && c != seq!['.']),
            crate::text::views(out@) == all.take(k as int).filter(keep),
        decreases pieces@.len() - k,
    {
        proof {
            reveal(Seq::filter);
        }
        let piece = &pieces[k];
        assert(all[k as int] == piece@);
        assert(all.take(k + 1).drop_last() =~= all.take(k as int));
        assert(all.take(k + 1).last() == all[k as int]);
        if piece.len() > 0 && !(piece.len() == 1 && piece[0] == '.') {
            assert(keep(piece@)) by {
                if piece@ == seq!['.'] {
                    assert(piece@.len() == 1 && piece@[0] == '.');
                }
            }
            let copy = sub_chars(piece.as_slice(), 0, piece.len());
            assert(copy@ =~= piece@);
            let ghost before = crate::text::views(out@);
            out.push(copy);
            assert(crate::text::views(out@) =~= before.push(piece@));
        } else {
            assert(!keep(piece@)) by {
                if piece@.len() == 1 && piece@[0] == '.' {
                    assert(piece@ =~= seq!['.']);
                }
            }
        }
        k += 1;
    }
    assert(all.take(pieces@.len() as int) =~= all);
    out
}

/// Whether two runs of pieces are equal.
fn parts_eq(a: &Vec<Vec<char>>, b: &Vec<Vec<char>>) -> (r: bool)
    ensures
        r == (crate::text::views(a@) == crate::text::views(b@)),
{
    if a.len() != b.len() {
        assert(crate::text::views(a@).len() != crate::text::views(b@).len());
        return false;
    }
    let mut k: usize = 0;
    while k < a.len()
        invariant
            a@.len() == b@.len(),
            k <= a@.len(),
            forall|j: int| 0 <= j < k ==> #[trigger] a@[j]@ == b@[j]@,
        decreases a@.len() - k,
    {
        if !chars_eq(a[k].as_slice(), b[k].as_slice()) {
            assert(crate::text::views(a@)[k as int] != crate::text::views(b@)[k as int]);
            return false;
        }
        k += 1;
    }
    assert(crate::text::views(a@) =~= crate::text::views(b@));
    true
}

/// Whether `a` and `b` name the same path, as `Path` compares them.
fn same_path(a: &[char], b: &[char]) -> (r: bool)
    ensures
        r == (path_key(a@) == path_key(b@)),
{
    let ra = a.len() > 0 && a[0] == '/';
    let rb = b.len() > 0 && b[0] == '/';
    let da = !ra && a.len() > 0 && a[0] == '.' && (a.len() == 1 || a[1] == '/');
    let db = !rb && b.len() > 0 && b[0] == '.' && (b.len() == 1 || b[1] == '/');
    if ra != rb || da != db {
        return false;
    }
    let pa = path_parts_exec(a);
    let pb = path_parts_exec(b);
    parts_eq(&pa, &pb)
}

/// `Path::file_name` on the characters of a path.
pub fn file_name_exec(p: &[char]) -> (r: Option<Vec<char>>)
    ensures
        match file_name(p@) {
            Some(n) => r is Some && r.unwrap()@ == n,
            None => r is None,
        },
{
    match last_part(p) {
        None => None,
        Some(v) => {
            if v.len() == 2 && v[0] == '.' && v[1] == '.' {
                assert(v@ =~= seq!['.', '.']);
                None
            } else {
                assert(v@ != seq!['.', '.']) by {
                    if v@ == seq!['.', '.'] {
                        assert(v@.len() == 2 && v@[0] == '.' && v@[1] == '.');
                    }
                }
                Some(v)
            }
        },
    }
}

/// `Path::extension` on the characters of a path.
pub fn extension_exec(p: &[char]) -> (r: Option<Vec<char>>)
    ensures
        match extension(p@) {
            Some(e) => r is Some && r.unwrap()@ == e,
            None => r is None,
        },
{
    match file_name_exec(p) {
        None => None,
        Some(name) => match last_index_exec(&name, '.', name.len()) {
            None => None,
            Some(i) => if i == 0 {
                None
            } else {
                let e = sub_chars(&name, i + 1, name.len());
                assert(e@ =~= name@.skip(i + 1));
                Some(e)
            },
        },
    }
}

/// Whether two character runs are equal.
pub fn chars_eq(a: &[char], b: &[char]) -> (r: bool)
    ensures
        r == (a@ == b@),
{
    if a.len() != b.len() {
        return false;
    }
    let mut k: usize = 0;
    while k < a.len()
        invariant
            a@.len() == b@.len(),
            k <= a@.len(),
            forall|j: int| 0 <= j < k ==> a@[j] == b@[j],
        decreases a@.len() - k,
    {
        if a[k] != b[k] {
            return false;
        }
        k += 1;
    }
    assert(a@ =~= b@);
    true
}

/// Whether `path` names a PNG, JPEG or WebP image, by its extension in any
/// ASCII case.
pub fn is_ingest_image_path(path: &str) -> (b: bool)
    ensures
        b == is_image_path(path@),
{
    let cs = chars_of(path);
    match extension_exec(&cs) {
        None => false,
        Some(e) => {
            let lower = ascii_lower_exec(&e);
            let exts: Vec<Vec<char>> = vec![
                vec!['p', 'n', 'g'],
                vec!['j', 'p', 'g'],
                vec!['j', 'p', 'e', 'g'],
                vec!['w', 'e', 'b', 'p'],
            ];
            assert(crate::text::views(exts@) =~= image_exts());
            let mut k: usize = 0;
            while k < exts.len()
                invariant
                    k <= exts@.len(),
                    crate::text::views(exts@) == image_exts(),
                    lower@ == ascii_lower(e@),
                    extension(path@) == Some(e@),
                    forall|j: int| 0 <= j < k ==> image_exts()[j] != lower@,
                decreases exts@.len() - k,
            {
                assert(image_exts()[k as int] == exts@[k as int]@);
                if chars_eq(&exts[k], &lower) {
                    assert(image_exts()[k as int] == lower@);
                    assert(image_exts().contains(lower@));
                    return true;
                }
                k += 1;
            }
            false
        },
    }
}

/// A clipboard line with a leading `file://` taken off.
pub open spec fn strip_file_scheme(line: Seq<char>) -> Seq<char> {
    let scheme = seq!['f', 'i', 'l', 'e', ':', '/', '/'];
    if crate::text::starts_with(line, scheme) {
        line.skip(7)
    } else {
        line
    }
}

/// The image paths named by the non-blank lines of clipboard text, with
/// `file://` taken off, in order. Whether each names an existing file is
/// for the caller to check.
pub open spec fn clipboard_paths(text: Seq<char>) -> Seq<Seq<char>> {
    crate::text::nonblank_lines(text).map_values(|l: Seq<char>| strip_file_scheme(l)).filter(
        |p: Seq<char>| is_image_path(p),
    )
}

/// The image paths named by the lines of clipboard text.
pub fn clipboard_image_paths(text: &str) -> (out: Vec<String>)
    ensures
        string_views(out@) == clipboard_paths(text@),
{
    let cs = chars_of(text);
    let lines = crate::text::nonblank_lines_exec(&cs);
    let ghost ls = crate::text::nonblank_lines(text@);
    let ghost stripped = ls.map_values(|l: Seq<char>| strip_file_scheme(l));
    let scheme = vec!['f', 'i', 'l', 'e', ':', '/', '/'];
    assert(scheme@ =~= seq!['f', 'i', 'l', 'e', ':', '/', '/']);
    let mut out: Vec<String> = Vec::new();
    let mut k: usize = 0;
    assert(stripped.take(0).filter(|p: Seq<char>| is_image_path(p)) =~= Seq::<Seq<char>>::empty()) by {
        reveal(Seq::filter);
    }
    while k < lines.len()
        invariant
            k <= lines@.len(),
            crate::text::views(lines@) == ls,
            stripped == ls.map_values(|l: Seq<char>| strip_file_scheme(l)),
            scheme@ == seq!['f', 'i', 'l', 'e', ':', '/', '/'],
            string_views(out@) == stripped.take(k as int).filter(|p: Seq<char>| is_image_path(p)),
        decreases lines@.len() - k,
    {
        proof {
            reveal(Seq::filter);
        }
        let line = &lines[k];
        assert(ls[k as int] == line@);
        let path: Vec<char> = if line.len() >= 7 && crate::text::matches_at(line, 0, &scheme) {
            assert(line@.skip(0) =~= line@);
            let t = sub_chars(line, 7, line.len());
            assert(t@ =~= line@.skip(7));
            t
        } else {
            assert(line@.skip(0) =~= line@);
            line.clone()
        };
        assert(path@ == stripped[k as int]);
        assert(stripped.take(k + 1).drop_last() =~= stripped.take(k as int));
        let ps = string_of(&path);
        if is_ingest_image_path(ps.as_str()) {
            let ghost before = string_views(out@);
            out.push(ps);
            assert(string_views(out@) =~= before.push(path@));
        }
        k += 1;
    }
    assert(stripped.take(k as int) =~= stripped);
    out
}

// ------------------------------------------------------------ counts

#[derive(Clone, Copy, Debug, PartialEq, Eq, Structural)]
pub struct IntakeCounts {
    pub images: usize,
    pub skipped: usize,
}

/// Where one file of a batch is.
#[derive(Clone, Copy, Debug, PartialEq, Eq, Structural)]
pub enum IntakeWork {
    Waiting,
    Working,
    Succeeded,
    Failed,
}

pub open spec fn terminal(w: IntakeWork) -> bool {
    w == IntakeWork::Succeeded || w == IntakeWork::Failed
}

impl IntakeWork {
    /// Whether the file is done, well or badly.
    pub fn is_terminal(self) -> (b: bool)
        ensures
            b == terminal(self),
    {
        match self {
            IntakeWork::Succeeded => true,
            IntakeWork::Failed => true,
            IntakeWork::Waiting => false,
            IntakeWork::Working => false,
        }
    }
}

/// Paths split into images and a count of the rest.
pub struct ClassifiedPaths {
    pub images: Vec<String>,
    pub skipped: usize,
}

impl ClassifiedPaths {
    pub fn counts(&self) -> (c: IntakeCounts)
        ensures
            c.images == self.images.len(),
            c.skipped == self.skipped,
    {
        IntakeCounts { images: self.images.len(), skipped: self.skipped }
    }
}

pub open spec fn string_views(v: Seq<String>) -> Seq<Seq<char>> {
    v.map_values(|s: String| s@)
}

/// The image paths among `paths`, in order.
pub open spec fn image_paths(paths: Seq<Seq<char>>) -> Seq<Seq<char>> {
    paths.filter(|p: Seq<char>| is_image_path(p))
}

/// Keeps the image paths, in order, and counts the others.
pub fn classify_image_paths(paths: Vec<String>) -> (c: ClassifiedPaths)
    ensures
        string_views(c.images@) == image_paths(string_views(paths@)),
        c.skipped == paths@.len() - image_paths(string_views(paths@)).len(),
{
    let ghost all = string_views(paths@);
    let mut images: Vec<String> = Vec::new();
    let mut skipped: usize = 0;
    let mut k: usize = 0;
    assert(all.take(0).filter(|p: Seq<char>| is_image_path(p)) =~= Seq::<Seq<char>>::empty());
    while k < paths.len()
        invariant
            k <= paths@.len(),
            all == string_views(paths@),
            string_views(images@) == image_paths(all.take(k as int)),
            skipped == k - image_paths(all.take(k as int)).len(),
        decreases paths@.len() - k,
    {
        proof {
            reveal(Seq::filter);
        }
        let p = &paths[k];
        assert(all[k as int] == p@);
        assert(all.take(k + 1).drop_last() =~= all.take(k as int));
        assert(all.take(k + 1).last() == p@);
        proof {
            all.take(k as int).lemma_filter_len(|p: Seq<char>| is_image_path(p));
        }
        if is_ingest_image_path(p.as_str()) {
            let ghost before = string_views(images@);
            images.push(p.clone());
            assert(string_views(images@) =~= before.push(p@));
            assert(image_paths(all.take(k + 1)) == image_paths(all.take(k as int)).push(p@));
        } else {
            skipped = skipped + 1;
            assert(image_paths(all.take(k + 1)) == image_paths(all.take(k as int)));
        }
        k += 1;
    }
    assert(all.take(k as int) =~= all);
    ClassifiedPaths { images, skipped }
}

// ------------------------------------------------------------ batches

/// One file of a batch: its key, path, display name, the document id once
/// one was made for it, and where its decode is.
pub struct IntakeItem {
    pub key: u64,
    pub path: String,
    pub name: String,
    pub id: Option<u128>,
    pub work: IntakeWork,
}

pub struct ItemView {
    pub key: u64,
    pub path: Seq<char>,
    pub name: Seq<char>,
    pub id: Option<u128>,
    pub work: IntakeWork,
}

pub open spec fn item_v(i: IntakeItem) -> ItemView {
    ItemView { key: i.key, path: i.path@, name: i.name@, id: i.id, work: i.work }
}

pub open spec fn items_v(s: Seq<IntakeItem>) -> Seq<ItemView> {
    s.map_values(|i: IntakeItem| item_v(i))
}

/// The file name of the path, or `image` when it has none.
pub open spec fn display_name(p: Seq<char>) -> Seq<char> {
    match file_name(p) {
        Some(n) => n,
        None => seq!['i', 'm', 'a', 'g', 'e'],
    }
}

/// A new item, waiting for its decode.
pub open spec fn waiting(key: u64, p: Seq<char>) -> ItemView {
    ItemView { key, path: p, name: display_name(p), id: None, work: IntakeWork::Waiting }
}

impl IntakeItem {
    fn waiting(key: u64, path: String) -> (item: IntakeItem)
        ensures
            item_v(item) == waiting(key, path@),
    {
        let cs = chars_of(path.as_str());
        let name = match file_name_exec(&cs) {
            Some(n) => string_of(&n),
            None => {
                let d = vec!['i', 'm', 'a', 'g', 'e'];
                assert(d@ =~= seq!['i', 'm', 'a', 'g', 'e']);
                string_of(&d)
            },
        };
        IntakeItem { key, path, name, id: None, work: IntakeWork::Waiting }
    }
}

/// A batch as its items, skip count, generation and the key the next
/// appended item gets.
pub struct BatchView {
    pub items: Seq<ItemView>,
    pub skipped: usize,
    pub generation: u64,
    pub next_key: u64,
}

/// The files dropped in one go, and those appended while it runs.
pub struct IntakeBatch {
    pub items: Vec<IntakeItem>,
    pub skipped: usize,
    pub generation: u64,
    pub next_item_key: u64,
}

impl View for IntakeBatch {
    type V = BatchView;

    open spec fn view(&self) -> BatchView {
        BatchView {
            items: items_v(self.items@),
            skipped: self.skipped,
            generation: self.generation,
            next_key: self.next_item_key,
        }
    }
}

/// First index at or after `i` whose item has `key`.
pub open spec fn find_key(items: Seq<ItemView>, key: u64, i: int) -> Option<int>
    decreases items.len() - i,
{
    if i < 0 || i >= items.len() {
        None
    } else if items[i].key == key {
        Some(i)
    } else {
        find_key(items, key, i + 1)
    }
}

/// First index at or after `i` whose item is bound to `id`.
pub open spec fn find_id(items: Seq<ItemView>, id: u128, i: int) -> Option<int>
    decreases items.len() - i,
{
    if i < 0 || i >= items.len() {
        None
    } else if items[i].id == Some(id) {
        Some(i)
    } else {
        find_id(items, id, i + 1)
    }
}

/// First index at or after `i` of an unbound item still waiting.
pub open spec fn find_pending(items: Seq<ItemView>, i: int) -> Option<int>
    decreases items.len() - i,
{
    if i < 0 || i >= items.len() {
        None
    } else if items[i].id is None && items[i].work == IntakeWork::Waiting {
        Some(i)
    } else {
        find_pending(items, i + 1)
    }
}

/// Whether the batch has items and all of them are done.
pub open spec fn all_done(items: Seq<ItemView>) -> bool {
    items.len() > 0 && forall|i: int| 0 <= i < items.len() ==> terminal(#[trigger] items[i].work)
}

/// The outcome of finishing the item at `at`: done items stay as they are.
pub open spec fn finish_at(items: Seq<ItemView>, at: Option<int>, ok: bool) -> (Seq<ItemView>, bool) {
    match at {
        None => (items, false),
        Some(i) => if terminal(items[i].work) {
            (items, false)
        } else {
            (
                items.update(
                    i,
                    ItemView {
                        work: if ok { IntakeWork::Succeeded } else { IntakeWork::Failed },
                        ..items[i]
                    },
                ),
                true,
            )
        },
    }
}

/// Paths of the items not yet done, in order.
pub open spec fn active_paths(items: Seq<ItemView>) -> Seq<Seq<char>>
    decreases items.len(),
{
    if items.len() == 0 {
        Seq::empty()
    } else {
        let rest = active_paths(items.drop_last());
        if terminal(items.last().work) {
            rest
        } else {
            rest.push(items.last().path)
        }
    }
}

/// Appends the paths that are not the same path as one already active, each
/// path once, with fresh keys.
pub open spec fn extend_go(
    items: Seq<ItemView>,
    next: u64,
    active: Seq<Seq<char>>,
    paths: Seq<Seq<char>>,
) -> (Seq<ItemView>, u64)
    decreases paths.len(),
{
    if paths.len() == 0 {
        (items, next)
    } else if holds_path(active, paths[0]) {
        extend_go(items, next, active, paths.drop_first())
    } else {
        extend_go(
            items.push(waiting(next, paths[0])),
            crate::session::next_gen(next),
            active.push(paths[0]),
            paths.drop_first(),
        )
    }
}

/// The items the batch starts with: keys from 1, in the order given.
pub open spec fn initial_items(paths: Seq<Seq<char>>) -> Seq<ItemView> {
    Seq::new(paths.len(), |i: int| waiting((i + 1) as u64, paths[i]))
}

impl IntakeBatch {
    /// A batch of waiting items, keyed 1, 2, ... in the order of `paths`.
    pub fn from_paths(paths: Vec<String>, skipped: usize, generation: u64) -> (b: Self)
        requires
            paths@.len() < u64::MAX,
        ensures
            b@.items == initial_items(string_views(paths@)),
            b@.skipped == skipped,
            b@.generation == generation,
            b@.next_key == paths@.len() + 1,
    {
        let ghost ps = string_views(paths@);
        let n = paths.len();
        let mut items: Vec<IntakeItem> = Vec::new();
        let mut j: usize = 0;
        while j < n
            invariant
                n == paths@.len(),
                ps == string_views(paths@),
                n < u64::MAX,
                j <= n,
                items_v(items@) == initial_items(ps).take(j as int),
            decreases n - j,
        {
            let p = paths[j].clone();
            assert(p@ == ps[j as int]);
            let item = IntakeItem::waiting((j as u64) + 1, p);
            let ghost before = items_v(items@);
            items.push(item);
            assert(items_v(items@) =~= before.push(item_v(item)));
            assert(initial_items(ps).take(j + 1) =~= initial_items(ps).take(j as int).push(
                waiting((j + 1) as u64, ps[j as int]),
            ));
            j += 1;
        }
        assert(initial_items(ps).take(n as int) =~= initial_items(ps));
        IntakeBatch { next_item_key: (n as u64) + 1, items, skipped, generation }
    }

    /// An empty batch that only reports skipped files.
    pub fn reject(skipped: usize, generation: u64) -> (b: Self)
        ensures
            b@.items == Seq::<ItemView>::empty(),
            b@.skipped == skipped,
            b@.generation == generation,
            b@.next_key == 1,
    {
        let items: Vec<IntakeItem> = Vec::new();
        assert(items_v(items@) =~= Seq::<ItemView>::empty());
        IntakeBatch { items, skipped, generation, next_item_key: 1 }
    }

    /// The number of files in the batch.
    pub fn item_count(&self) -> (n: usize)
        ensures
            n == self@.items.len(),
    {
        self.items.len()
    }

    /// The key, document id and state of item `i`.
    pub fn item_state(&self, i: usize) -> (r: (u64, Option<u128>, IntakeWork))
        requires
            i < self@.items.len(),
        ensures
            r == (self@.items[i as int].key, self@.items[i as int].id, self@.items[i as int].work),
    {
        assert(self@.items[i as int] == item_v(self.items@[i as int]));
        (self.items[i].key, self.items[i].id, self.items[i].work)
    }

    /// The generation the batch was started with.
    pub fn generation_of(&self) -> (g: u64)
        ensures
            g == self@.generation,
    {
        self.generation
    }

    /// Whether dropped files are added to this batch: it has items and not
    /// all of them are done.
    pub fn is_accepting(&self) -> (b: bool)
        ensures
            b == (self@.items.len() > 0 && !all_done(self@.items)),
    {
        self.items.len() > 0 && !self.all_terminal()
    }

    pub fn counts(&self) -> (c: IntakeCounts)
        ensures
            c.images == self@.items.len(),
            c.skipped == self@.skipped,
    {
        IntakeCounts { images: self.items.len(), skipped: self.skipped }
    }

    /// Whether the batch has items and every one of them is done.
    pub fn all_terminal(&self) -> (b: bool)
        ensures
            b == all_done(self@.items),
    {
        let ghost iv = items_v(self.items@);
        if self.items.len() == 0 {
            return false;
        }
        let mut k: usize = 0;
        while k < self.items.len()
            invariant
                k <= self.items@.len(),
                iv == items_v(self.items@),
                forall|j: int| 0 <= j < k ==> terminal(#[trigger] iv[j].work),
            decreases self.items@.len() - k,
        {
            assert(iv[k as int] == item_v(self.items@[k as int]));
            if !self.items[k].work.is_terminal() {
                assert(!terminal(iv[k as int].work));
                return false;
            }
            k += 1;
        }
        true
    }

    /// Adds the paths that are not already waiting or being decoded, each
    /// path once (paths are compared as `Path` compares them), with fresh
    /// keys; skipped files are counted with saturation.
    pub fn extend(&mut self, paths: Vec<String>, skipped: usize)
        ensures
            (final(self)@.items, final(self)@.next_key) == extend_go(
                old(self)@.items,
                old(self)@.next_key,
                active_paths(old(self)@.items),
                string_views(paths@),
            ),
            final(self)@.skipped == (if old(self)@.skipped + skipped > usize::MAX {
                usize::MAX
            } else {
                (old(self)@.skipped + skipped) as usize
            }),
            final(self)@.generation == old(self)@.generation,
    {
        self.skipped = self.skipped.saturating_add(skipped);
        let ghost sk = self.skipped;
        let ghost gen = self.generation;
        assert(sk == (if old(self)@.skipped + skipped > usize::MAX {
            usize::MAX
        } else {
            (old(self)@.skipped + skipped) as usize
        }));
        let ghost iv = items_v(self.items@);
        let mut active: Vec<String> = Vec::new();
        let mut k: usize = 0;
        assert(iv.take(0) =~= Seq::<ItemView>::empty());
        while k < self.items.len()
            invariant
                k <= self.items@.len(),
                iv == items_v(self.items@),
                self.skipped == sk,
                self.generation == gen,
                string_views(active@) == active_paths(iv.take(k as int)),
            decreases self.items@.len() - k,
        {
            assert(iv[k as int] == item_v(self.items@[k as int]));
            assert(iv.take(k + 1).drop_last() =~= iv.take(k as int));
            if !self.items[k].work.is_terminal() {
                let ghost before = string_views(active@);
                active.push(self.items[k].path.clone());
                assert(string_views(active@) =~= before.push(iv[k as int].path));
            }
            k += 1;
        }
        assert(iv.take(k as int) =~= iv);
        let ghost ps = string_views(paths@);
        let ghost target = extend_go(iv, self.next_item_key, active_paths(iv), ps);
        let n = paths.len();
        let mut i: usize = 0;
        assert(ps.skip(0) =~= ps);
        while i < n
            invariant
                n == paths@.len(),
                i <= n,
                ps == string_views(paths@),
                self.skipped == sk,
                self.generation == gen,
                target == extend_go(
                    items_v(self.items@),
                    self.next_item_key,
                    string_views(active@),
                    ps.skip(i as int),
                ),
            decreases n - i,
        {
            let p = &paths[i];
            assert(ps[i as int] == p@);
            assert(ps.skip(i as int)[0] == p@);
            assert(ps.skip(i as int).drop_first() =~= ps.skip(i + 1));
            let pc = chars_of(p.as_str());
            let mut seen = false;
            let mut a: usize = 0;
            while a < active.len()
                invariant
                    a <= active@.len(),
                    pc@ == p@,
                    !seen ==> forall|t: int| 0 <= t < a ==> path_key(active@[t]@) != path_key(p@),
                    seen ==> holds_path(string_views(active@), p@),
                decreases active@.len() - a,
            {
                let ac = chars_of(active[a].as_str());
                if same_path(ac.as_slice(), pc.as_slice()) {
                    assert(string_views(active@)[a as int] == active@[a as int]@);
                    seen = true;
                }
                a += 1;
            }
            if !seen {
                assert(!holds_path(string_views(active@), p@)) by {
                    if holds_path(string_views(active@), p@) {
                        let t = choose|t: int|
                            0 <= t < string_views(active@).len() && path_key(
                                #[trigger] string_views(active@)[t],
                            ) == path_key(p@);
                        assert(string_views(active@)[t] == active@[t]@);
                    }
                }
                let key = self.next_item_key;
                self.next_item_key = self.next_item_key.wrapping_add(1);
                let item = IntakeItem::waiting(key, p.clone());
                let ghost before_items = items_v(self.items@);
                let ghost before_active = string_views(active@);
                self.items.push(item);
                active.push(p.clone());
                assert(items_v(self.items@) =~= before_items.push(waiting(key, p@)));
                assert(string_views(active@) =~= before_active.push(p@));
            }
            i += 1;
        }
        assert(ps.skip(n as int) =~= Seq::<Seq<char>>::empty());
    }

    /// The key and path of the first unbound item still waiting.
    pub fn next_pending(&self) -> (r: Option<(u64, String)>)
        ensures
            match find_pending(self@.items, 0) {
                Some(i) => r is Some && r.unwrap().0 == self@.items[i].key && r.unwrap().1@
                    == self@.items[i].path,
                None => r is None,
            },
    {
        let ghost iv = items_v(self.items@);
        let mut k: usize = 0;
        while k < self.items.len()
            invariant
                k <= self.items@.len(),
                iv == items_v(self.items@),
                find_pending(iv, 0) == find_pending(iv, k as int),
            decreases self.items@.len() - k,
        {
            let item = &self.items[k];
            assert(iv[k as int] == item_v(*item));
            if item.id.is_none() && item.work == IntakeWork::Waiting {
                return Some((item.key, item.path.clone()));
            }
            k += 1;
        }
        None
    }

    fn index_of_key(&self, key: u64) -> (r: Option<usize>)
        ensures
            crate::tabular::opt_int(r) == find_key(self@.items, key, 0),
            r matches Some(i) ==> i < self@.items.len(),
    {
        let ghost iv = items_v(self.items@);
        let mut k: usize = 0;
        while k < self.items.len()
            invariant
                k <= self.items@.len(),
                iv == items_v(self.items@),
                find_key(iv, key, 0) == find_key(iv, key, k as int),
            decreases self.items@.len() - k,
        {
            assert(iv[k as int] == item_v(self.items@[k as int]));
            if self.items[k].key == key {
                return Some(k);
            }
            k += 1;
        }
        None
    }

    fn index_of_id(&self, id: u128) -> (r: Option<usize>)
        ensures
            crate::tabular::opt_int(r) == find_id(self@.items, id, 0),
            r matches Some(i) ==> i < self@.items.len(),
    {
        let ghost iv = items_v(self.items@);
        let mut k: usize = 0;
        while k < self.items.len()
            invariant
                k <= self.items@.len(),
                iv == items_v(self.items@),
                find_id(iv, id, 0) == find_id(iv, id, k as int),
            decreases self.items@.len() - k,
        {
            assert(iv[k as int] == item_v(self.items@[k as int]));
            if self.items[k].id == Some(id) {
                return Some(k);
            }
            k += 1;
        }
        None
    }

    /// Binds the first item with `key` to the document `id`.
    pub fn bind_item(&mut self, key: u64, id: u128)
        ensures
            final(self)@ == (match find_key(old(self)@.items, key, 0) {
                Some(i) => BatchView {
                    items: old(self)@.items.update(i, ItemView { id: Some(id), ..old(self)@.items[i] }),
                    ..old(self)@
                },
                None => old(self)@,
            }),
    {
        if let Some(i) = self.index_of_key(key) {
            let ghost before = items_v(self.items@);
            self.items[i].id = Some(id);
            assert(items_v(self.items@) =~= before.update(
                i as int,
                ItemView { id: Some(id), ..before[i as int] },
            ));
        }
    }

    /// Moves the first item bound to `id` from waiting to working.
    pub fn mark_working(&mut self, id: u128)
        ensures
            final(self)@ == (match find_id(old(self)@.items, id, 0) {
                Some(i) => if old(self)@.items[i].work == IntakeWork::Waiting {
                    BatchView {
                        items: old(self)@.items.update(
                            i,
                            ItemView { work: IntakeWork::Working, ..old(self)@.items[i] },
                        ),
                        ..old(self)@
                    }
                } else {
                    old(self)@
                },
                None => old(self)@,
            }),
    {
        if let Some(i) = self.index_of_id(id) {
            if self.items[i].work == IntakeWork::Waiting {
                let ghost before = items_v(self.items@);
                self.items[i].work = IntakeWork::Working;
                assert(items_v(self.items@) =~= before.update(
                    i as int,
                    ItemView { work: IntakeWork::Working, ..before[i as int] },
                ));
            }
        }
    }

    fn finish_index(&mut self, i: usize, ok: bool) -> (done: bool)
        requires
            i < old(self)@.items.len(),
        ensures
            (final(self)@.items, done) == finish_at(old(self)@.items, Some(i as int), ok),
            final(self)@.skipped == old(self)@.skipped,
            final(self)@.generation == old(self)@.generation,
            final(self)@.next_key == old(self)@.next_key,
    {
        let ghost before = items_v(self.items@);
        assert(before[i as int] == item_v(self.items@[i as int]));
        if self.items[i].work.is_terminal() {
            return false;
        }
        let w = if ok { IntakeWork::Succeeded } else { IntakeWork::Failed };
        self.items[i].work = w;
        assert(items_v(self.items@) =~= before.update(i as int, ItemView { work: w, ..before[i as int] }));
        true
    }

    /// Finishes the first item with `key`; `false` when there is none or it
    /// was already done.
    pub fn finish_key(&mut self, key: u64, ok: bool) -> (done: bool)
        ensures
            (final(self)@.items, done) == finish_at(old(self)@.items, find_key(old(self)@.items, key, 0), ok),
            final(self)@.skipped == old(self)@.skipped,
            final(self)@.generation == old(self)@.generation,
            final(self)@.next_key == old(self)@.next_key,
    {
        match self.index_of_key(key) {
            Some(i) => self.finish_index(i, ok),
            None => false,
        }
    }

    /// Finishes the first item bound to `id`; `false` when there is none or
    /// it was already done.
    pub fn finish_id(&mut self, id: u128, ok: bool) -> (done: bool)
        ensures
            (final(self)@.items, done) == finish_at(old(self)@.items, find_id(old(self)@.items, id, 0), ok),
            final(self)@.skipped == old(self)@.skipped,
            final(self)@.generation == old(self)@.generation,
            final(self)@.next_key == old(self)@.next_key,
    {
        match self.index_of_id(id) {
            Some(i) => self.finish_index(i, ok),
            None => false,
        }
    }
}

// ------------------------------------------------------------ batch laws

proof fn lemma_find_key_same_keys(a: Seq<ItemView>, b: Seq<ItemView>, key: u64, i: int)
    requires
        a.len() == b.len(),
        forall|j: int| 0 <= j < a.len() ==> #[trigger] a[j].key == b[j].key,
    ensures
        find_key(a, key, i) == find_key(b, key, i),
    decreases a.len() - i,
{
    if 0 <= i < a.len() {
        lemma_find_key_same_keys(a, b, key, i + 1);
    }
}

proof fn lemma_find_id_same_ids(a: Seq<ItemView>, b: Seq<ItemView>, id: u128, i: int)
    requires
        a.len() == b.len(),
        forall|j: int| 0 <= j < a.len() ==> #[trigger] a[j].id == b[j].id,
    ensures
        find_id(a, id, i) == find_id(b, id, i),
    decreases a.len() - i,
{
    if 0 <= i < a.len() {
        lemma_find_id_same_ids(a, b, id, i + 1);
    }
}

proof fn lemma_find_key_bounds(items: Seq<ItemView>, key: u64, i: int)
    requires
        0 <= i,
    ensures
        find_key(items, key, i) matches Some(k) ==> i <= k < items.len() && items[k].key == key,
    decreases items.len() - i,
{
    if 0 <= i < items.len() {
        lemma_find_key_bounds(items, key, i + 1);
    }
}

proof fn lemma_find_id_bounds(items: Seq<ItemView>, id: u128, i: int)
    requires
        0 <= i,
    ensures
        find_id(items, id, i) matches Some(k) ==> i <= k < items.len() && items[k].id == Some(id),
    decreases items.len() - i,
{
    if 0 <= i < items.len() {
        lemma_find_id_bounds(items, id, i + 1);
    }
}

/// An item is finished at most once by key: once `finish_key` has reported
/// success, finishing the same key again, with either outcome, reports
/// nothing and changes nothing.
pub proof fn lemma_finish_key_once(items: Seq<ItemView>, key: u64, ok: bool, again: bool)
    ensures
        ({
            let (after, first) = finish_at(items, find_key(items, key, 0), ok);
            let (after2, second) = finish_at(after, find_key(after, key, 0), again);
            first ==> !second && after2 == after
        }),
{
    let (after, first) = finish_at(items, find_key(items, key, 0), ok);
    lemma_find_key_bounds(items, key, 0);
    if first {
        assert forall|j: int| 0 <= j < items.len() implies #[trigger] items[j].key == after[j].key by {}
        lemma_find_key_same_keys(items, after, key, 0);
    }
}

/// An item is finished at most once by document id as well.
pub proof fn lemma_finish_id_once(items: Seq<ItemView>, id: u128, ok: bool, again: bool)
    ensures
        ({
            let (after, first) = finish_at(items, find_id(items, id, 0), ok);
            let (after2, second) = finish_at(after, find_id(after, id, 0), again);
            first ==> !second && after2 == after
        }),
{
    let (after, first) = finish_at(items, find_id(items, id, 0), ok);
    lemma_find_id_bounds(items, id, 0);
    if first {
        assert forall|j: int| 0 <= j < items.len() implies #[trigger] items[j].id == after[j].id by {}
        lemma_find_id_same_ids(items, after, id, 0);
    }
}

/// Finishing never undoes a finished item: every item done before is done,
/// with the same outcome, after.
pub proof fn lemma_finish_keeps_done(items: Seq<ItemView>, at: Option<int>, ok: bool, j: int)
    requires
        at matches Some(i) ==> 0 <= i < items.len(),
        0 <= j < items.len(),
        terminal(items[j].work),
    ensures
        finish_at(items, at, ok).0[j].work == items[j].work,
{
}

/// A batch whose items are all done stops taking dropped files.
pub proof fn lemma_done_batch_stops_accepting(items: Seq<ItemView>)
    requires
        all_done(items),
    ensures
        !(items.len() > 0 && !all_done(items)),
{
}

/// Finishing the last item not yet done completes the batch, which then
/// stops taking dropped files.
pub proof fn lemma_last_finish_completes(items: Seq<ItemView>, key: u64, ok: bool)
    requires
        find_key(items, key, 0) matches Some(i) && forall|j: int|
            0 <= j < items.len() && j != i ==> terminal(#[trigger] items[j].work),
    ensures
        finish_at(items, find_key(items, key, 0), ok).1 ==> all_done(
            finish_at(items, find_key(items, key, 0), ok).0,
        ),
{
    lemma_find_key_bounds(items, key, 0);
    let after = finish_at(items, find_key(items, key, 0), ok).0;
    let i = find_key(items, key, 0)->0;
    assert forall|j: int| 0 <= j < after.len() implies terminal(#[trigger] after[j].work) by {
        if j == i {
        } else {
            assert(terminal(items[j].work));
        }
    }
}

proof fn lemma_active_push_waiting(items: Seq<ItemView>, key: u64, p: Seq<char>)
    ensures
        active_paths(items.push(waiting(key, p))) == active_paths(items).push(p),
{
    assert(items.push(waiting(key, p)).drop_last() =~= items);
}

/// No two of `paths` are the same path.
pub open spec fn distinct_paths(paths: Seq<Seq<char>>) -> bool {
    forall|x: int, y: int|
        0 <= x < paths.len() && 0 <= y < paths.len() && x != y ==> path_key(#[trigger] paths[x])
            != path_key(#[trigger] paths[y])
}

/// Appending files never puts one path twice among the items not yet done:
/// if no two active paths were the same path, none are after.
pub proof fn lemma_extend_keeps_active_distinct(items: Seq<ItemView>, next: u64, paths: Seq<Seq<char>>)
    requires
        distinct_paths(active_paths(items)),
    ensures
        distinct_paths(active_paths(extend_go(items, next, active_paths(items), paths).0)),
    decreases paths.len(),
{
    if paths.len() > 0 {
        let p = paths[0];
        if holds_path(active_paths(items), p) {
            lemma_extend_keeps_active_distinct(items, next, paths.drop_first());
        } else {
            let items2 = items.push(waiting(next, p));
            lemma_active_push_waiting(items, next, p);
            let a1 = active_paths(items);
            let a2 = active_paths(items2);
            assert(distinct_paths(a2)) by {
                assert forall|x: int, y: int| 0 <= x < a2.len() && 0 <= y < a2.len() && x != y implies path_key(
                    #[trigger] a2[x],
                ) != path_key(#[trigger] a2[y]) by {
                    if x == a2.len() - 1 {
                        assert(a2[y] == a1[y]);
                        if path_key(a1[y]) == path_key(p) {
                            assert(holds_path(a1, p));
                        }
                    } else if y == a2.len() - 1 {
                        assert(a2[x] == a1[x]);
                        if path_key(a1[x]) == path_key(p) {
                            assert(holds_path(a1, p));
                        }
                    } else {
                        assert(a2[x] == a1[x]);
                        assert(a2[y] == a1[y]);
                    }
                }
            }
            lemma_extend_keeps_active_distinct(items2, crate::session::next_gen(next), paths.drop_first());
        }
    }
}

/// Appending keeps the items already in the batch, in place.
pub proof fn lemma_extend_keeps_items(
    items: Seq<ItemView>,
    next: u64,
    active: Seq<Seq<char>>,
    paths: Seq<Seq<char>>,
)
    ensures
        extend_go(items, next, active, paths).0.len() >= items.len(),
        extend_go(items, next, active, paths).0.take(items.len() as int) == items,
    decreases paths.len(),
{
    if paths.len() > 0 {
        let p = paths[0];
        if holds_path(active, p) {
            lemma_extend_keeps_items(items, next, active, paths.drop_first());
        } else {
            let items2 = items.push(waiting(next, p));
            lemma_extend_keeps_items(items2, crate::session::next_gen(next), active.push(p), paths.drop_first());
            let r = extend_go(items2, crate::session::next_gen(next), active.push(p), paths.drop_first()).0;
            assert(r.take(items2.len() as int).take(items.len() as int) =~= r.take(items.len() as int));
            assert(items2.take(items.len() as int) =~= items);
        }
    }
}

} // verus!
