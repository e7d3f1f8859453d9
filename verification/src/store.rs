//! The decisions of the snip store: search literals, status columns, time
//! stamps, the schema check on open, and the ledger of failed writes.

use vstd::prelude::*;
use crate::text::{chars_of, push_all, replace_all, replace_exec, string_of};

verus! {

// ------------------------------------------------------------ search literals

pub open spec fn like_escape(c: char) -> Seq<char> {
    if c == '\\' || c == '%' || c == '_' {
        seq!['\\', c]
    } else {
        seq![c]
    }
}

pub open spec fn like_escape_all(s: Seq<char>) -> Seq<char>
    decreases s.len(),
{
    if s.len() == 0 {
        Seq::empty()
    } else {
        like_escape_all(s.drop_last()) + like_escape(s.last())
    }
}

/// The `LIKE` pattern for a short query: `%`, the query with `\`, `%` and
/// `_` escaped by a backslash, `%`.
pub open spec fn like_spec(q: Seq<char>) -> Seq<char> {
    seq!['%'] + like_escape_all(q) + seq!['%']
}

/// The `LIKE` pattern matching `q` anywhere, with its wildcards escaped.
pub fn like_literal(q: &str) -> (out: String)
    ensures
        out@ == like_spec(q@),
{
    let cs = chars_of(q);
    let mut out: Vec<char> = Vec::new();
    out.push('%');
    let mut k: usize = 0;
    while k < cs.len()
        invariant
            k <= cs@.len(),
            out@ == seq!['%'] + like_escape_all(cs@.take(k as int)),
        decreases cs@.len() - k,
    {
        let c = cs[k];
        if c == '\\' || c == '%' || c == '_' {
            out.push('\\');
        }
        out.push(c);
        assert(cs@.take(k + 1).drop_last() =~= cs@.take(k as int));
        k += 1;
        assert(out@ =~= seq!['%'] + like_escape_all(cs@.take(k as int)));
    }
    assert(cs@.take(k as int) =~= cs@);
    out.push('%');
    string_of(&out)
}

/// The FTS5 phrase for a query: in double quotes, inner quotes doubled.
pub open spec fn fts_spec(q: Seq<char>) -> Seq<char> {
    seq!['"'] + replace_all(q, seq!['"'], seq!['"', '"']) + seq!['"']
}

/// The FTS5 string literal that matches `q` as one phrase.
pub fn fts_literal(q: &str) -> (out: String)
    ensures
        out@ == fts_spec(q@),
{
    let cs = chars_of(q);
    let quote = vec!['"'];
    let twice = vec!['"', '"'];
    assert(quote@ =~= seq!['"']);
    assert(twice@ =~= seq!['"', '"']);
    let inner = replace_exec(&cs, &quote, &twice);
    let mut out: Vec<char> = Vec::new();
    out.push('"');
    push_all(&mut out, &inner);
    out.push('"');
    assert(out@ =~= fts_spec(q@));
    string_of(&out)
}

/// Every backslash, `%` and `_` of the query is escaped in the pattern:
/// the pattern between its `%` ends reads back as the query when each
/// escape is dropped.
pub proof fn lemma_like_escapes_wildcards(q: Seq<char>)
    ensures
        like_spec(q).len() >= 2,
        like_spec(q)[0] == '%',
        like_spec(q).last() == '%',
        unescape(like_escape_all(q)) == q,
        unescape_ok(like_escape_all(q)),
    decreases q.len(),
{
    if q.len() > 0 {
        lemma_like_escapes_wildcards(q.drop_last());
        lemma_unescape_append(like_escape_all(q.drop_last()), q.last());
        assert(q.drop_last().push(q.last()) =~= q);
    }
}

/// A pattern read back: a backslash stands for the character after it.
pub open spec fn unescape(p: Seq<char>) -> Seq<char>
    decreases p.len(),
{
    if p.len() == 0 {
        Seq::empty()
    } else if p[0] == '\\' && p.len() >= 2 {
        seq![p[1]] + unescape(p.skip(2))
    } else {
        seq![p[0]] + unescape(p.drop_first())
    }
}

/// Escaped patterns read back one character at a time.
proof fn lemma_unescape_append(p: Seq<char>, c: char)
    requires
        unescape_ok(p),
    ensures
        unescape(p + like_escape(c)) == unescape(p).push(c),
        unescape_ok(p + like_escape(c)),
    decreases p.len(),
{
    let e = like_escape(c);
    assert(unescape(Seq::<char>::empty()) == Seq::<char>::empty());
    assert(unescape_ok(Seq::<char>::empty()));
    if p.len() == 0 {
        assert(p + e =~= e);
        if c == '\\' || c == '%' || c == '_' {
            assert(e.skip(2) =~= Seq::<char>::empty());
            assert(unescape(e) =~= seq![c]);
        } else {
            assert(e.drop_first() =~= Seq::<char>::empty());
            assert(unescape(e) =~= seq![c]);
        }
        assert(unescape(p) =~= Seq::<char>::empty());
        assert(unescape(p).push(c) =~= seq![c]);
    } else if p[0] == '\\' {
        lemma_unescape_append(p.skip(2), c);
        assert((p + e).skip(2) =~= p.skip(2) + e);
        assert((p + e)[0] == '\\');
        assert(unescape(p + e) == seq![p[1]] + unescape(p.skip(2) + e));
        assert(unescape(p) == seq![p[1]] + unescape(p.skip(2)));
        assert(unescape(p + e) =~= unescape(p).push(c));
    } else {
        lemma_unescape_append(p.drop_first(), c);
        assert((p + e).drop_first() =~= p.drop_first() + e);
        assert((p + e)[0] == p[0]);
        assert(unescape(p + e) == seq![p[0]] + unescape(p.drop_first() + e));
        assert(unescape(p + e) =~= unescape(p).push(c));
    }
}

/// A well-formed escaped pattern: no lone backslash at its end.
pub open spec fn unescape_ok(p: Seq<char>) -> bool
    decreases p.len(),
{
    if p.len() == 0 {
        true
    } else if p[0] == '\\' {
        p.len() >= 2 && unescape_ok(p.skip(2))
    } else {
        unescape_ok(p.drop_first())
    }
}

// ------------------------------------------------------------ status columns

/// Where a document's recognition is.
pub enum DocStatus {
    Ready,
    Recognizing,
    Failed(String),
}

/// The `processing_status` and `processing_error` columns for a status.
pub fn status_fields(status: &DocStatus) -> (r: (&str, Option<&str>))
    ensures
        match status {
            DocStatus::Ready => r.0@ == "ready"@ && r.1 is None,
            DocStatus::Recognizing => r.0@ == "pending"@ && r.1 is None,
            DocStatus::Failed(e) => r.0@ == "failed"@ && r.1 is Some && r.1.unwrap()@ == e@,
        },
{
    match status {
        DocStatus::Ready => ("ready", None),
        DocStatus::Recognizing => ("pending", None),
        DocStatus::Failed(error) => ("failed", Some(error.as_str())),
    }
}

// ------------------------------------------------------------ time stamps

/// `x as i64` for a millisecond count: the low 64 bits, two's complement.
pub open spec fn wrap_i64(x: u128) -> i64 {
    let low = x % 0x1_0000_0000_0000_0000;
    if low < 0x8000_0000_0000_0000 {
        low as i64
    } else {
        (low - 0x1_0000_0000_0000_0000) as i64
    }
}

/// Milliseconds since the epoch of a time given by its distance from the
/// epoch in milliseconds (`None` before the epoch, which reads as 0).
pub fn unix_ms(since_epoch_ms: Option<u128>) -> (ms: i64)
    ensures
        ms == match since_epoch_ms {
            Some(x) => wrap_i64(x),
            None => 0,
        },
{
    match since_epoch_ms {
        Some(x) => {
            let low: u128 = x % 0x1_0000_0000_0000_0000;
            if low < 0x8000_0000_0000_0000 {
                low as i64
            } else {
                let neg: u128 = 0x1_0000_0000_0000_0000 - low;
                assert(1 <= neg <= 0x8000_0000_0000_0000);
                if neg == 0x8000_0000_0000_0000 {
                    i64::MIN
                } else {
                    -(neg as i64)
                }
            }
        },
        None => 0,
    }
}

/// The distance from the epoch, in milliseconds, of a stored time stamp:
/// negative stamps read as the epoch.
pub fn system_time_from_ms(ms: i64) -> (since_epoch_ms: u64)
    ensures
        since_epoch_ms == (if ms > 0 { ms as u64 } else { 0 }),
{
    if ms > 0 {
        ms as u64
    } else {
        0
    }
}

// ------------------------------------------------------------ schema

pub const SCHEMA_VERSION: i32 = 2;

/// The columns the `snips` table must have.
pub open spec fn snips_columns() -> Seq<Seq<char>> {
    seq![
        "id"@,
        "created_at"@,
        "first_line"@,
        "blocks_json"@,
        "search_text"@,
        "thumb_jpeg"@,
        "ocr_s"@,
        "confidence"@,
        "ocr_blocks_json"@,
    ]
}

fn snips_columns_exec() -> (v: Vec<&'static str>)
    ensures
        v@.map_values(|s: &str| s@) == snips_columns(),
{
    let v = vec![
        "id",
        "created_at",
        "first_line",
        "blocks_json",
        "search_text",
        "thumb_jpeg",
        "ocr_s",
        "confidence",
        "ocr_blocks_json",
    ];
    assert(v@.map_values(|s: &str| s@) =~= snips_columns());
    v
}

/// What opening the store does with the `snips` table it finds.
pub enum SchemaPlan {
    /// No table yet: create it at the current version.
    Create,
    /// The file was written by a newer version of the app.
    TooNew(i32),
    /// Required columns are missing; they are listed.
    MissingColumns(Vec<String>),
    /// The table is usable: bring the auxiliary tables and the version up.
    Open,
}

/// The required columns absent from `names`, in their order.
pub open spec fn missing_columns(names: Seq<Seq<char>>) -> Seq<Seq<char>> {
    snips_columns().filter(|c: Seq<char>| !names.contains(c))
}

/// Whether `name` is among `names`.
fn has_name(names: &Vec<String>, name: &str) -> (b: bool)
    ensures
        b == names@.map_values(|s: String| s@).contains(name@),
{
    let ghost nv = names@.map_values(|s: String| s@);
    let want = chars_of(name);
    let mut k: usize = 0;
    while k < names.len()
        invariant
            k <= names@.len(),
            nv == names@.map_values(|s: String| s@),
            want@ == name@,
            forall|j: int| 0 <= j < k ==> nv[j] != name@,
        decreases names@.len() - k,
    {
        let got = chars_of(names[k].as_str());
        assert(nv[k as int] == names@[k as int]@);
        if crate::intake::chars_eq(&got, &want) {
            assert(nv[k as int] == name@);
            return true;
        }
        k += 1;
    }
    false
}

/// The decision taken on open: create a missing table, refuse a newer
/// version, refuse a table without the required columns, else open it.
pub fn schema_plan(table_exists: bool, version: i32, names: &Vec<String>) -> (p: SchemaPlan)
    ensures
        !table_exists ==> p is Create,
        table_exists && version > SCHEMA_VERSION ==> p == SchemaPlan::TooNew(version),
        table_exists && version <= SCHEMA_VERSION ==> {
            let missing = missing_columns(names@.map_values(|s: String| s@));
            if missing.len() == 0 {
                p is Open
            } else {
                p matches SchemaPlan::MissingColumns(v) && v@.map_values(|s: String| s@) == missing
            }
        },
{
    if !table_exists {
        return SchemaPlan::Create;
    }
    if version > SCHEMA_VERSION {
        return SchemaPlan::TooNew(version);
    }
    let ghost nv = names@.map_values(|s: String| s@);
    let cols = snips_columns_exec();
    let ghost cv = snips_columns();
    let mut missing: Vec<String> = Vec::new();
    let mut k: usize = 0;
    assert(cv.take(0).filter(|c: Seq<char>| !nv.contains(c)) =~= Seq::<Seq<char>>::empty()) by {
        reveal(Seq::filter);
    }
    while k < cols.len()
        invariant
            k <= cols@.len(),
            cols@.map_values(|s: &str| s@) == cv,
            cv == snips_columns(),
            nv == names@.map_values(|s: String| s@),
            missing@.map_values(|s: String| s@) == cv.take(k as int).filter(
                |c: Seq<char>| !nv.contains(c),
            ),
        decreases cols@.len() - k,
    {
        proof {
            reveal(Seq::filter);
        }
        let col = cols[k];
        assert(cv[k as int] == col@);
        assert(cv.take(k + 1).drop_last() =~= cv.take(k as int));
        if !has_name(names, col) {
            let ghost before = missing@.map_values(|s: String| s@);
            let s = string_of(&chars_of(col));
            missing.push(s);
            assert(missing@.map_values(|s: String| s@) =~= before.push(col@));
        }
        k += 1;
    }
    assert(cv.take(k as int) =~= cv);
    if missing.len() == 0 {
        SchemaPlan::Open
    } else {
        SchemaPlan::MissingColumns(missing)
    }
}

/// The columns of the table before recognition metrics were stored.
pub open spec fn pre_metrics_columns() -> Seq<Seq<char>> {
    seq![
        "id"@,
        "created_at"@,
        "first_line"@,
        "blocks_json"@,
        "search_text"@,
        "thumb_jpeg"@,
        "image_relpath"@,
    ]
}

/// The columns of the table of the previous layout, with metrics.
pub open spec fn legacy_columns() -> Seq<Seq<char>> {
    seq![
        "id"@,
        "created_at"@,
        "first_line"@,
        "blocks_json"@,
        "search_text"@,
        "thumb_jpeg"@,
        "image_relpath"@,
        "ocr_s"@,
        "confidence"@,
    ]
}

/// The shapes of `snips` table the previous layout recognised.
#[derive(Clone, Copy, Debug, PartialEq, Eq, Structural)]
pub enum SnipsShape {
    Current,
    PreMetrics,
    Unknown,
}

/// Whether every required name is among `names`.
pub open spec fn has_all_spec(names: Seq<Seq<char>>, required: Seq<Seq<char>>) -> bool {
    forall|i: int| 0 <= i < required.len() ==> names.contains(#[trigger] required[i])
}

/// Whether every name of `required` is among `names`.
pub fn has_all(names: &Vec<String>, required: &Vec<&str>) -> (b: bool)
    ensures
        b == has_all_spec(names@.map_values(|s: String| s@), required@.map_values(|s: &str| s@)),
{
    let ghost nv = names@.map_values(|s: String| s@);
    let ghost rv = required@.map_values(|s: &str| s@);
    let mut k: usize = 0;
    while k < required.len()
        invariant
            k <= required@.len(),
            nv == names@.map_values(|s: String| s@),
            rv == required@.map_values(|s: &str| s@),
            forall|i: int| 0 <= i < k ==> nv.contains(#[trigger] rv[i]),
        decreases required@.len() - k,
    {
        assert(rv[k as int] == required@[k as int]@);
        if !has_name(names, required[k]) {
            return false;
        }
        k += 1;
    }
    true
}

/// How the previous layout classified a table by its column names.
pub open spec fn classify_spec(names: Seq<Seq<char>>) -> SnipsShape {
    if has_all_spec(names, legacy_columns()) {
        SnipsShape::Current
    } else if has_all_spec(names, pre_metrics_columns()) && forall|i: int|
        0 <= i < names.len() ==> legacy_columns().contains(#[trigger] names[i]) {
        SnipsShape::PreMetrics
    } else {
        SnipsShape::Unknown
    }
}

/// Current when every column is there; before metrics when the older
/// columns are there and nothing else; otherwise unknown.
pub fn classify_snips(names: &Vec<String>) -> (s: SnipsShape)
    ensures
        s == classify_spec(names@.map_values(|s: String| s@)),
{
    let legacy = vec![
        "id",
        "created_at",
        "first_line",
        "blocks_json",
        "search_text",
        "thumb_jpeg",
        "image_relpath",
        "ocr_s",
        "confidence",
    ];
    let pre = vec![
        "id",
        "created_at",
        "first_line",
        "blocks_json",
        "search_text",
        "thumb_jpeg",
        "image_relpath",
    ];
    assert(legacy@.map_values(|s: &str| s@) =~= legacy_columns());
    assert(pre@.map_values(|s: &str| s@) =~= pre_metrics_columns());
    if has_all(names, &legacy) {
        return SnipsShape::Current;
    }
    if !has_all(names, &pre) {
        return SnipsShape::Unknown;
    }
    let ghost nv = names@.map_values(|s: String| s@);
    let mut k: usize = 0;
    while k < names.len()
        invariant
            k <= names@.len(),
            nv == names@.map_values(|s: String| s@),
            legacy@.map_values(|s: &str| s@) == legacy_columns(),
            !has_all_spec(nv, legacy_columns()),
            has_all_spec(nv, pre_metrics_columns()),
            forall|i: int| 0 <= i < k ==> legacy_columns().contains(#[trigger] nv[i]),
        decreases names@.len() - k,
    {
        let mut found = false;
        let mut j: usize = 0;
        let got = chars_of(names[k].as_str());
        assert(nv[k as int] == got@);
        while j < legacy.len()
            invariant
                j <= legacy@.len(),
                legacy@.map_values(|s: &str| s@) == legacy_columns(),
                found ==> legacy_columns().contains(got@),
                !found ==> forall|t: int| 0 <= t < j ==> legacy_columns()[t] != got@,
            decreases legacy@.len() - j,
        {
            let want = chars_of(legacy[j]);
            assert(legacy_columns()[j as int] == want@);
            if crate::intake::chars_eq(&got, &want) {
                found = true;
            }
            j += 1;
        }
        if !found {
            assert(!legacy_columns().contains(nv[k as int]));
            return SnipsShape::Unknown;
        }
        k += 1;
    }
    SnipsShape::PreMetrics
}

/// The version an old schema is brought to, one step at a time.
pub fn migrate_from(from: i32) -> (r: Option<i32>)
    ensures
        r == (if from == 0 { Some(1i32) } else { None }),
{
    if from == 0 {
        Some(1)
    } else {
        None
    }
}

// ------------------------------------------------------------ writes

/// A write handed to the store's writer, by the document it is about.
#[derive(Clone, Copy, Debug, PartialEq, Eq, Structural)]
pub enum WriteKind {
    Insert { id: u128, revision: u64 },
    UpdateOcr { id: u128 },
    UpdateBlocks { id: u128 },
    Delete { id: u128 },
    Wipe,
}

/// What a write that went through gives back.
pub enum WriteResult {
    /// The thumbnail stored with a new snip.
    Inserted(Vec<u8>),
    Done,
}

/// The slot a write's failure is kept under: the document and the kind of
/// write (0 insert, 1 recognition update, 2 content update, 3 delete, 4
/// wipe, under the nil id).
pub open spec fn key_of(kind: WriteKind) -> (u128, u8) {
    match kind {
        WriteKind::Insert { id, .. } => (id, 0u8),
        WriteKind::UpdateOcr { id } => (id, 1u8),
        WriteKind::UpdateBlocks { id } => (id, 2u8),
        WriteKind::Delete { id } => (id, 3u8),
        WriteKind::Wipe => (0u128, 4u8),
    }
}

pub fn write_key(kind: WriteKind) -> (k: (u128, u8))
    ensures
        k == key_of(kind),
{
    match kind {
        WriteKind::Insert { id, .. } => (id, 0),
        WriteKind::UpdateOcr { id } => (id, 1),
        WriteKind::UpdateBlocks { id } => (id, 2),
        WriteKind::Delete { id } => (id, 3),
        WriteKind::Wipe => (0, 4),
    }
}

/// Whether a queued write is folded into the content update being run: a
/// later content update of the same document replaces it; anything else is
/// a barrier.
pub fn coalesces(current: WriteKind, next: WriteKind) -> (b: bool)
    ensures
        b == (current matches WriteKind::UpdateBlocks { id } && next == (WriteKind::UpdateBlocks {
            id,
        })),
{
    match (current, next) {
        (WriteKind::UpdateBlocks { id }, WriteKind::UpdateBlocks { id: next_id }) => id == next_id,
        _ => false,
    }
}

/// The failures as a map from slot to message; later entries win.
pub open spec fn to_map(entries: Seq<((u128, u8), Seq<char>)>) -> Map<(u128, u8), Seq<char>>
    decreases entries.len(),
{
    if entries.len() == 0 {
        Map::empty()
    } else {
        to_map(entries.drop_last()).insert(entries.last().0, entries.last().1)
    }
}

/// The failures after a write of `kind` ended: a failure is kept under its
/// slot with its message; a success clears its own slot, and also the
/// content-update slot for a recognition update, every slot of the
/// document for a delete, and everything for a wipe.
pub open spec fn record_spec(
    m: Map<(u128, u8), Seq<char>>,
    kind: WriteKind,
    failure: Option<Seq<char>>,
) -> Map<(u128, u8), Seq<char>> {
    match failure {
        Some(msg) => m.insert(key_of(kind), msg),
        None => match kind {
            WriteKind::UpdateOcr { id } => m.remove(key_of(kind)).remove((id, 2u8)),
            WriteKind::Delete { id } => Map::new(
                |k: (u128, u8)| m.contains_key(k) && k.0 != id,
                |k: (u128, u8)| m[k],
            ),
            WriteKind::Wipe => Map::empty(),
            _ => m.remove(key_of(kind)),
        },
    }
}

/// Writes that failed and have not been redone since: `flush` reports an
/// error while any is left.
pub struct FailureLedger {
    entries: Vec<((u128, u8), String)>,
}

pub open spec fn entry_v(e: ((u128, u8), String)) -> ((u128, u8), Seq<char>) {
    (e.0, e.1@)
}

impl View for FailureLedger {
    type V = Map<(u128, u8), Seq<char>>;

    closed spec fn view(&self) -> Map<(u128, u8), Seq<char>> {
        to_map(self.entries@.map_values(|e: ((u128, u8), String)| entry_v(e)))
    }
}

/// An entry filter that looks at the slot only.
pub open spec fn slot_keeps(keep: spec_fn((u128, u8)) -> bool) -> spec_fn(((u128, u8), Seq<char>)) -> bool {
    |e: ((u128, u8), Seq<char>)| keep(e.0)
}

/// Dropping the entries whose slot fails `keep` drops those slots from the map.
proof fn lemma_to_map_filter(s: Seq<((u128, u8), Seq<char>)>, keep: spec_fn((u128, u8)) -> bool)
    ensures
        to_map(s.filter(slot_keeps(keep))) == Map::new(
            |k: (u128, u8)| to_map(s).contains_key(k) && keep(k),
            |k: (u128, u8)| to_map(s)[k],
        ),
    decreases s.len(),
{
    reveal(Seq::filter);
    let p = slot_keeps(keep);
    if s.len() == 0 {
        assert(to_map(s.filter(p)) =~= Map::new(
            |k: (u128, u8)| to_map(s).contains_key(k) && keep(k),
            |k: (u128, u8)| to_map(s)[k],
        ));
    } else {
        let prev = s.drop_last();
        let e = s.last();
        lemma_to_map_filter(prev, keep);
        assert(s.filter(p) == (if p(e) { prev.filter(p).push(e) } else { prev.filter(p) }));
        if p(e) {
            assert(prev.filter(p).push(e).drop_last() =~= prev.filter(p));
        }
        assert(to_map(s) == to_map(prev).insert(e.0, e.1));
        assert(to_map(s.filter(p)) =~= Map::new(
            |k: (u128, u8)| to_map(s).contains_key(k) && keep(k),
            |k: (u128, u8)| to_map(s)[k],
        ));
    }
}

/// The slots of the entries, in order.
pub open spec fn slots(s: Seq<((u128, u8), Seq<char>)>) -> Seq<(u128, u8)> {
    s.map_values(|e: ((u128, u8), Seq<char>)| e.0)
}

/// The slots of the map are the slots of the entries.
proof fn lemma_to_map_dom(s: Seq<((u128, u8), Seq<char>)>, x: (u128, u8))
    ensures
        to_map(s).contains_key(x) == slots(s).contains(x),
    decreases s.len(),
{
    let ks = slots(s);
    if s.len() > 0 {
        let prev = s.drop_last();
        lemma_to_map_dom(prev, x);
        let pk = slots(prev);
        assert(ks.drop_last() =~= pk);
        assert(ks[ks.len() - 1] == s.last().0);
        if pk.contains(x) {
            let i = choose|i: int| 0 <= i < pk.len() && pk[i] == x;
            assert(ks[i] == x);
        }
        if ks.contains(x) {
            let i = choose|i: int| 0 <= i < ks.len() && ks[i] == x;
            if i < ks.len() - 1 {
                assert(pk[i] == x);
            }
        }
    }
}

proof fn lemma_to_map_empty(s: Seq<((u128, u8), Seq<char>)>)
    ensures
        (to_map(s) =~= Map::<(u128, u8), Seq<char>>::empty()) == (s.len() == 0),
    decreases s.len(),
{
    if s.len() > 0 {
        assert(to_map(s).contains_key(s.last().0));
    }
}

impl FailureLedger {
    pub fn new() -> (l: Self)
        ensures
            l@ == Map::<(u128, u8), Seq<char>>::empty(),
    {
        let entries: Vec<((u128, u8), String)> = Vec::new();
        assert(entries@.map_values(|e: ((u128, u8), String)| entry_v(e)) =~= Seq::<((u128, u8), Seq<char>)>::empty());
        FailureLedger { entries }
    }

    /// Keeps only the entries whose slot satisfies `keep`.
    fn retain_slots(&mut self, drop_id: Option<u128>, drop_key: Option<(u128, u8)>)
        ensures
            final(self)@ == Map::new(
                |k: (u128, u8)| old(self)@.contains_key(k) && !(drop_id == Some(k.0)) && !(drop_key
                    == Some(k)),
                |k: (u128, u8)| old(self)@[k],
            ),
    {
        let ghost keep = |k: (u128, u8)| !(drop_id == Some(k.0)) && !(drop_key == Some(k));
        let ghost p = slot_keeps(keep);
        let ghost sv = self.entries@.map_values(|e: ((u128, u8), String)| entry_v(e));
        let mut kept: Vec<((u128, u8), String)> = Vec::new();
        let mut old_entries: Vec<((u128, u8), String)> = Vec::new();
        std::mem::swap(&mut old_entries, &mut self.entries);
        assert(old_entries@.map_values(|e: ((u128, u8), String)| entry_v(e)) == sv);
        let mut k: usize = 0;
        proof {
            reveal(Seq::filter);
        }
        assert(sv.take(0).filter(p) =~= Seq::<((u128, u8), Seq<char>)>::empty());
        assert(kept@.map_values(|e: ((u128, u8), String)| entry_v(e)) =~= Seq::<((u128, u8), Seq<char>)>::empty());
        while k < old_entries.len()
            invariant
                k <= old_entries@.len(),
                sv == old_entries@.map_values(|e: ((u128, u8), String)| entry_v(e)),
                keep == (|k: (u128, u8)| !(drop_id == Some(k.0)) && !(drop_key == Some(k))),
                p == slot_keeps(keep),
                kept@.map_values(|e: ((u128, u8), String)| entry_v(e)) == sv.take(k as int).filter(p),
            decreases old_entries@.len() - k,
        {
            proof {
                reveal(Seq::filter);
            }
            let e = &old_entries[k];
            assert(sv[k as int] == entry_v(*e));
            assert(sv.take(k + 1).drop_last() =~= sv.take(k as int));
            let slot = e.0;
            let dropped = match drop_id {
                Some(id) => slot.0 == id,
                None => false,
            } || match drop_key {
                Some(key) => slot.0 == key.0 && slot.1 == key.1,
                None => false,
            };
            assert(p(sv[k as int]) == !dropped);
            if !dropped {
                let ghost before = kept@.map_values(|e: ((u128, u8), String)| entry_v(e));
                kept.push((slot, e.1.clone()));
                assert(kept@.map_values(|e: ((u128, u8), String)| entry_v(e)) =~= before.push(
                    sv[k as int],
                ));
            }
            k += 1;
        }
        assert(sv.take(k as int) =~= sv);
        proof {
            lemma_to_map_filter(sv, keep);
        }
        self.entries = kept;
        assert(self@ =~= Map::new(
            |k: (u128, u8)| old(self)@.contains_key(k) && !(drop_id == Some(k.0)) && !(drop_key
                == Some(k)),
            |k: (u128, u8)| old(self)@[k],
        ));
    }

    /// Notes how a write ended: its failure message, or `None` when it went
    /// through.
    pub fn record(&mut self, kind: WriteKind, failure: Option<String>)
        ensures
            final(self)@ == record_spec(
                old(self)@,
                kind,
                match failure {
                    Some(m) => Some(m@),
                    None => None,
                },
            ),
    {
        let key = write_key(kind);
        match failure {
            Some(msg) => {
                self.retain_slots(None, Some(key));
                let ghost before = self.entries@.map_values(|e: ((u128, u8), String)| entry_v(e));
                let ghost mid = self@;
                let ghost m = msg@;
                assert(mid =~= old(self)@.remove(key));
                self.entries.push((key, msg));
                assert(self.entries@.map_values(|e: ((u128, u8), String)| entry_v(e)) =~= before.push(
                    (key, m),
                ));
                assert(before.push((key, m)).drop_last() =~= before);
                assert(self@ =~= old(self)@.insert(key, m));
            },
            None => {
                match kind {
                    WriteKind::UpdateOcr { id } => {
                        self.retain_slots(None, Some(key));
                        self.retain_slots(None, Some((id, 2)));
                        assert(self@ =~= old(self)@.remove(key).remove((id, 2u8)));
                    },
                    WriteKind::Delete { id } => {
                        self.retain_slots(Some(id), None);
                        assert(self@ =~= Map::new(
                            |k: (u128, u8)| old(self)@.contains_key(k) && k.0 != id,
                            |k: (u128, u8)| old(self)@[k],
                        ));
                    },
                    WriteKind::Wipe => {
                        self.entries = Vec::new();
                        assert(self.entries@.map_values(|e: ((u128, u8), String)| entry_v(e)) =~= Seq::<((u128, u8), Seq<char>)>::empty());
                        assert(self@ =~= Map::<(u128, u8), Seq<char>>::empty());
                    },
                    _ => {
                        self.retain_slots(None, Some(key));
                        assert(self@ =~= old(self)@.remove(key));
                    },
                }
            },
        }
    }

    /// Whether a flush succeeds: no failed write is left.
    pub fn is_clear(&self) -> (b: bool)
        ensures
            b == (self@ =~= Map::<(u128, u8), Seq<char>>::empty()),
    {
        proof {
            lemma_to_map_empty(self.entries@.map_values(|e: ((u128, u8), String)| entry_v(e)));
        }
        self.entries.len() == 0
    }

    /// The answer to a flush, and so to a shutdown, which flushes first:
    /// success when no failed write is left, else the slots still failing.
    pub fn flush_reply(&self) -> (r: Result<(), Vec<(u128, u8)>>)
        ensures
            r is Ok <==> self@ =~= Map::<(u128, u8), Seq<char>>::empty(),
            r matches Err(keys) ==> forall|k: (u128, u8)| self@.contains_key(k) <==> keys@.contains(k),
    {
        if self.is_clear() {
            Ok(())
        } else {
            Err(self.unresolved())
        }
    }

    /// The slots still failing, in the order they failed.
    pub fn unresolved(&self) -> (keys: Vec<(u128, u8)>)
        ensures
            forall|k: (u128, u8)| self@.contains_key(k) <==> keys@.contains(k),
    {
        let ghost sv = self.entries@.map_values(|e: ((u128, u8), String)| entry_v(e));
        let ghost ks = slots(sv);
        let mut keys: Vec<(u128, u8)> = Vec::new();
        let mut k: usize = 0;
        while k < self.entries.len()
            invariant
                k <= self.entries@.len(),
                sv == self.entries@.map_values(|e: ((u128, u8), String)| entry_v(e)),
                ks == slots(sv),
                keys@ == ks.take(k as int),
            decreases self.entries@.len() - k,
        {
            assert(sv[k as int] == entry_v(self.entries@[k as int]));
            keys.push(self.entries[k].0);
            k += 1;
            assert(keys@ =~= ks.take(k as int));
        }
        assert(ks.take(k as int) =~= ks);
        assert forall|x: (u128, u8)| self@.contains_key(x) <==> keys@.contains(x) by {
            lemma_to_map_dom(sv, x);
        }
        keys
    }
}

/// A failed write keeps flushes failing until the same write goes through,
/// whatever else goes through in between that is not about the same slot.
pub proof fn lemma_failure_blocks_flush(
    m: Map<(u128, u8), Seq<char>>,
    kind: WriteKind,
    msg: Seq<char>,
    other: WriteKind,
    other_failure: Option<Seq<char>>,
)
    requires
        key_of(other) != key_of(kind),
        !(other is Wipe),
        other matches WriteKind::Delete { id } ==> id != key_of(kind).0,
        other matches WriteKind::UpdateOcr { id } ==> key_of(kind) != (id, 2u8),
    ensures
        record_spec(record_spec(m, kind, Some(msg)), other, other_failure).contains_key(key_of(kind)),
{
}

/// Redoing a failed write successfully clears its failure.
pub proof fn lemma_retry_clears_failure(m: Map<(u128, u8), Seq<char>>, kind: WriteKind, msg: Seq<char>)
    ensures
        !record_spec(record_spec(m, kind, Some(msg)), kind, None).contains_key(key_of(kind)),
        record_spec(Map::empty(), kind, Some(msg)).len() == 1,
        record_spec(record_spec(Map::empty(), kind, Some(msg)), kind, None) =~= Map::<
            (u128, u8),
            Seq<char>,
        >::empty(),
{
    assert(record_spec(Map::empty(), kind, Some(msg)).dom() =~= set![key_of(kind)]);
}

/// A wipe that goes through clears every failure; a delete that goes
/// through clears every failure of its document.
pub proof fn lemma_wipe_and_delete_clear(m: Map<(u128, u8), Seq<char>>, id: u128, slot: u8)
    ensures
        record_spec(m, WriteKind::Wipe, None) =~= Map::<(u128, u8), Seq<char>>::empty(),
        !record_spec(m, WriteKind::Delete { id }, None).contains_key((id, slot)),
{
}

// ------------------------------------------------------------ write outcomes

/// What the app does when the outcome of a write comes back.
#[derive(Clone, Copy, Debug, PartialEq, Eq)]
pub struct StoreEventPlan {
    /// A new snip is stored: mark it stored if that insert is still the
    /// pending one, clear its retry, persist edits made meanwhile, queue
    /// recognition if still pending, and refresh the list.
    pub stored: bool,
    /// An insert failed: the snip goes back to unsaved if that insert is
    /// still the pending one.
    pub unsaved: bool,
    /// The document's pending persist retry is over.
    pub clear_retry: bool,
    /// Another persist attempt is scheduled for the document.
    pub retry: bool,
    /// The error line shown to the user.
    pub flash: Option<&'static str>,
    /// A reply that the kind of write never gives; it is only logged.
    pub unexpected: bool,
}

pub open spec fn no_plan() -> StoreEventPlan {
    StoreEventPlan {
        stored: false,
        unsaved: false,
        clear_retry: false,
        retry: false,
        flash: None,
        unexpected: false,
    }
}

pub open spec fn flash_is(p: StoreEventPlan, text: Seq<char>) -> bool {
    p.flash matches Some(m) && m@ == text
}

/// The plan for the outcome `result` of a write of kind `kind`.
pub fn store_event_plan(kind: WriteKind, result: &Result<WriteResult, String>) -> (p: StoreEventPlan)
    ensures
        match (kind, result) {
            (WriteKind::Insert { .. }, Ok(WriteResult::Inserted(_))) => p == StoreEventPlan {
                stored: true,
                clear_retry: true,
                ..no_plan()
            },
            (WriteKind::Insert { .. }, Err(_)) => flash_is(p, "Couldn't save that snip"@)
                && p == StoreEventPlan { unsaved: true, retry: true, flash: p.flash, ..no_plan() },
            (WriteKind::UpdateOcr { .. }, Err(_)) => flash_is(p, "Couldn't update that snip"@)
                && p == StoreEventPlan { retry: true, flash: p.flash, ..no_plan() },
            (WriteKind::UpdateBlocks { .. }, Err(_)) => flash_is(p, "Couldn't save those edits"@)
                && p == StoreEventPlan { retry: true, flash: p.flash, ..no_plan() },
            (WriteKind::Delete { .. }, Err(_)) => flash_is(p, "Couldn't remove all snip files"@)
                && p == StoreEventPlan { flash: p.flash, ..no_plan() },
            (WriteKind::Wipe, Err(_)) => flash_is(p, "Couldn't clear the snip library"@)
                && p == StoreEventPlan { flash: p.flash, ..no_plan() },
            (WriteKind::UpdateOcr { .. }, Ok(WriteResult::Done)) => p == StoreEventPlan {
                clear_retry: true,
                ..no_plan()
            },
            (_, Ok(WriteResult::Done)) => p == no_plan(),
            (_, Ok(WriteResult::Inserted(_))) => p == StoreEventPlan { unexpected: true, ..no_plan() },
        },
{
    let none = StoreEventPlan {
        stored: false,
        unsaved: false,
        clear_retry: false,
        retry: false,
        flash: None,
        unexpected: false,
    };
    match (kind, result) {
        (WriteKind::Insert { .. }, Ok(WriteResult::Inserted(_))) => StoreEventPlan {
            stored: true,
            clear_retry: true,
            ..none
        },
        (WriteKind::Insert { .. }, Err(_)) => StoreEventPlan {
            unsaved: true,
            retry: true,
            flash: Some("Couldn't save that snip"),
            ..none
        },
        (WriteKind::UpdateOcr { .. }, Err(_)) => StoreEventPlan {
            retry: true,
            flash: Some("Couldn't update that snip"),
            ..none
        },
        (WriteKind::UpdateBlocks { .. }, Err(_)) => StoreEventPlan {
            retry: true,
            flash: Some("Couldn't save those edits"),
            ..none
        },
        (WriteKind::Delete { .. }, Err(_)) => StoreEventPlan {
            flash: Some("Couldn't remove all snip files"),
            ..none
        },
        (WriteKind::Wipe, Err(_)) => StoreEventPlan {
            flash: Some("Couldn't clear the snip library"),
            ..none
        },
        (WriteKind::UpdateOcr { .. }, Ok(WriteResult::Done)) => StoreEventPlan {
            clear_retry: true,
            ..none
        },
        (_, Ok(WriteResult::Done)) => none,
        (_, Ok(WriteResult::Inserted(_))) => StoreEventPlan { unexpected: true, ..none },
    }
}

} // verus!
