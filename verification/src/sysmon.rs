//! Resource figures for Settings → System: byte counts as short text, and
//! the readings of `/proc` files.

use vstd::prelude::*;
use crate::tabular::{parse_u64, parse_u64_exec};
use crate::text::{char_is, chars_of, dec, dec_exec, push_all, split_by, string_of, views, words};

verus! {

pub const KB: u64 = 1024;
pub const MB: u64 = 1048576;
pub const GB: u64 = 1073741824;

/// 2^53: below it every integer is an `f64`.
pub const EXACT: u64 = 9007199254740992;

// ------------------------------------------------------------ disk

/// Drive and application sizes, in bytes.
pub struct DiskSnapshot {
    pub drive_total: Option<u64>,
    pub drive_free: Option<u64>,
    pub models: u64,
    pub snips: u64,
    pub binary: u64,
}

impl DiskSnapshot {
    /// Bytes the application occupies: models, library and executable.
    pub fn app_footprint(&self) -> (n: u64)
        requires
            self.models + self.snips + self.binary <= u64::MAX,
        ensures
            n == self.models + self.snips + self.binary,
    {
        self.models + self.snips + self.binary
    }
}

// ------------------------------------------------------------ rounding

/// `a / d` rounded to the nearest integer, ties to the even one.
pub open spec fn rne(a: nat, d: nat) -> nat {
    let q = a / d;
    let r = a % d;
    if 2 * r > d || (2 * r == d && q % 2 == 1) {
        q + 1
    } else {
        q
    }
}

/// The spacing of `f64` values around `x`: 1 below 2^53, doubling with each
/// power of two above.
pub open spec fn ulp(x: nat) -> nat
    decreases x,
{
    if x < EXACT {
        1
    } else {
        2 * ulp(x / 2)
    }
}

/// `x as f64`, as the integer it equals: `x` rounded to the nearest
/// multiple of its spacing, ties to even.
pub open spec fn as_f64(x: nat) -> nat {
    rne(x, ulp(x)) * ulp(x)
}

/// `x as f64 / GB as f64` formatted with one decimal: the value in tenths.
pub open spec fn gb_tenths(x: nat) -> nat {
    rne(as_f64(x) * 10, GB as nat)
}

/// `t` tenths written with one decimal.
pub open spec fn one_decimal(t: nat) -> Seq<char> {
    dec(t / 10) + seq!['.'] + dec(t % 10)
}

/// `fmt_bytes`: GB with one decimal, whole MB, or whole KB rounded down.
pub open spec fn fmt_bytes_spec(bytes: u64) -> Seq<char> {
    if bytes >= GB {
        one_decimal(gb_tenths(bytes as nat)) + seq![' ', 'G', 'B']
    } else if bytes >= MB {
        dec(rne(bytes as nat, MB as nat)) + seq![' ', 'M', 'B']
    } else {
        dec((bytes / KB) as nat) + seq![' ', 'K', 'B']
    }
}

/// `fmt_used_total`: both in GB with one decimal when the total reaches a
/// GB, else each in its own unit.
pub open spec fn fmt_used_total_spec(used: u64, total: u64) -> Seq<char> {
    if total >= GB {
        one_decimal(gb_tenths(used as nat)) + seq![' ', '/', ' '] + one_decimal(
            gb_tenths(total as nat),
        ) + seq![' ', 'G', 'B']
    } else {
        fmt_bytes_spec(used) + seq![' ', '/', ' '] + fmt_bytes_spec(total)
    }
}

/// `rne` on machine integers.
fn rne_u128(a: u128, d: u128) -> (q: u128)
    requires
        d > 0,
    ensures
        q == rne(a as nat, d as nat),
        q <= a / d + 1,
{
    let q = a / d;
    let r = a % d;
    if r > d - r || (r == d - r && q % 2 == 1) {
        assert(r > 0);
        assert(q * 2 <= a) by (nonlinear_arith)
            requires
                q == a / d,
                r == a % d,
                r > 0,
                d > 0,
        {
            vstd::arithmetic::div_mod::lemma_fundamental_div_mod(a as int, d as int);
        }
        q + 1
    } else {
        q
    }
}

/// `x as f64` as an exact integer.
fn as_f64_exec(x: u64) -> (f: u128)
    ensures
        f == as_f64(x as nat),
        f <= x + 4096,
{
    let mut p: u64 = 1;
    let mut y: u64 = x;
    while y >= EXACT
        invariant
            1 <= p <= 4096,
            p * y <= x,
            y == (x as nat) / (p as nat),
            ulp(x as nat) == p * ulp(y as nat),
        decreases y,
    {
        assert(p * EXACT <= x) by (nonlinear_arith)
            requires
                p * y <= x,
                y >= EXACT,
                p >= 1,
        ;
        assert(p < 2048) by (nonlinear_arith)
            requires
                p * EXACT <= x,
                x <= u64::MAX,
                EXACT == 9007199254740992u64,
        ;
        let ghost u = ulp((y / 2) as nat);
        assert(ulp(y as nat) == 2 * u);
        assert(p * (2 * u) == (2 * p) * u) by (nonlinear_arith);
        assert((2 * p) * (y / 2) <= p * y) by (nonlinear_arith);
        assert((x as nat) / ((2 * p) as nat) == ((x as nat) / (p as nat)) / 2) by {
            vstd::arithmetic::div_mod::lemma_div_denominator(x as int, p as int, 2);
        }
        y = y / 2;
        p = p * 2;
    }
    assert(ulp(y as nat) == 1);
    assert(ulp(x as nat) == p) by (nonlinear_arith)
        requires
            ulp(x as nat) == p * ulp(y as nat),
            ulp(y as nat) == 1,
    ;
    let q = rne_u128(x as u128, p as u128);
    assert(q * p <= x + p) by (nonlinear_arith)
        requires
            q <= (x as int) / (p as int) + 1,
            p >= 1,
    {
        assert(((x as int) / (p as int)) * p <= x) by {
            vstd::arithmetic::div_mod::lemma_fundamental_div_mod(x as int, p as int);
        }
    }
    q * (p as u128)
}

/// `x as f64 / GB as f64` with one decimal, in tenths.
fn gb_tenths_exec(x: u64) -> (t: u64)
    ensures
        t == gb_tenths(x as nat),
{
    let f = as_f64_exec(x);
    let t = rne_u128(f * 10, GB as u128);
    assert(t <= 200000000000u128) by (nonlinear_arith)
        requires
            t <= (f * 10) as int / (GB as int) + 1,
            f <= x + 4096,
            x <= u64::MAX,
            GB == 1073741824u64,
    ;
    t as u64
}

fn one_decimal_exec(t: u64) -> (out: Vec<char>)
    ensures
        out@ == one_decimal(t as nat),
{
    let mut out = dec_exec(t / 10);
    out.push('.');
    let d = dec_exec(t % 10);
    push_all(&mut out, &d);
    out
}

fn fmt_bytes_chars(bytes: u64) -> (out: Vec<char>)
    ensures
        out@ == fmt_bytes_spec(bytes),
{
    if bytes >= GB {
        let mut out = one_decimal_exec(gb_tenths_exec(bytes));
        out.push(' ');
        out.push('G');
        out.push('B');
        out
    } else if bytes >= MB {
        let n = rne_u128(bytes as u128, MB as u128);
        assert(n <= 1024);
        let mut out = dec_exec(n as u64);
        out.push(' ');
        out.push('M');
        out.push('B');
        out
    } else {
        let mut out = dec_exec(bytes / KB);
        out.push(' ');
        out.push('K');
        out.push('B');
        out
    }
}

/// A byte count as short text: `5.5 GB`, `244 MB`, `3 KB`.
pub fn fmt_bytes(bytes: u64) -> (out: String)
    ensures
        out@ == fmt_bytes_spec(bytes),
{
    string_of(&fmt_bytes_chars(bytes))
}

/// "used / total" in the total's unit: `11.2 / 60.5 GB`, else
/// `300 MB / 512 MB`.
pub fn fmt_used_total(used: u64, total: u64) -> (out: String)
    ensures
        out@ == fmt_used_total_spec(used, total),
{
    let sep = vec![' ', '/', ' '];
    assert(sep@ =~= seq![' ', '/', ' ']);
    if total >= GB {
        let mut out = one_decimal_exec(gb_tenths_exec(used));
        push_all(&mut out, &sep);
        let t = one_decimal_exec(gb_tenths_exec(total));
        push_all(&mut out, &t);
        out.push(' ');
        out.push('G');
        out.push('B');
        string_of(&out)
    } else {
        let mut out = fmt_bytes_chars(used);
        push_all(&mut out, &sep);
        let t = fmt_bytes_chars(total);
        push_all(&mut out, &t);
        string_of(&out)
    }
}

// ------------------------------------------------------------ /proc readings

/// The white-space separated words of `s`.
fn words_exec(s: &[char]) -> (out: Vec<Vec<char>>)
    ensures
        views(out@) == words(s@),
{
    let pieces = crate::text::split_at_ws(s);
    crate::text::keep_nonempty_exec(pieces)
}

/// The words that parse as `u64`, as numbers, in order.
pub open spec fn parsed_u64s(ws: Seq<Seq<char>>) -> Seq<u64>
    decreases ws.len(),
{
    if ws.len() == 0 {
        Seq::empty()
    } else {
        let rest = parsed_u64s(ws.drop_last());
        match parse_u64(ws.last()) {
            Some(n) => rest.push(n),
            None => rest,
        }
    }
}

pub open spec fn sum_u64s(ns: Seq<u64>) -> nat
    decreases ns.len(),
{
    if ns.len() == 0 {
        0
    } else {
        sum_u64s(ns.drop_last()) + ns.last() as nat
    }
}

/// The text before the first newline, when there is any text.
pub open spec fn first_line(s: Seq<char>) -> Option<Seq<char>> {
    if s.len() == 0 {
        None
    } else {
        Some(split_by(s, char_is('\n'))[0])
    }
}

/// The numbers after the label on the first line of `/proc/stat`.
pub open spec fn cpu_numbers(stat: Seq<char>) -> Option<Seq<u64>> {
    match first_line(stat) {
        None => None,
        Some(l) => {
            let ws = words(l);
            Some(parsed_u64s(if ws.len() == 0 { ws } else { ws.drop_first() }))
        },
    }
}

/// (total, idle + iowait) jiffies from `/proc/stat`; `None` without five
/// numbers on its first line.
pub open spec fn cpu_jiffies_spec(stat: Seq<char>) -> Option<(u64, u64)> {
    match cpu_numbers(stat) {
        None => None,
        Some(ns) => if ns.len() < 5 {
            None
        } else {
            Some((sum_u64s(ns) as u64, (ns[3] + ns[4]) as u64))
        },
    }
}

/// Whether the jiffies of `/proc/stat` add up within a `u64`.
pub open spec fn cpu_sum_fits(stat: Seq<char>) -> bool {
    match cpu_numbers(stat) {
        None => true,
        Some(ns) => ns.len() < 5 || sum_u64s(ns) <= u64::MAX,
    }
}

proof fn lemma_sum_ge_elem(ns: Seq<u64>, i: int, j: int)
    requires
        0 <= i < j < ns.len(),
    ensures
        ns[i] + ns[j] <= sum_u64s(ns),
    decreases ns.len(),
{
    if j < ns.len() - 1 {
        lemma_sum_ge_elem(ns.drop_last(), i, j);
    } else {
        lemma_sum_ge_one(ns.drop_last(), i);
    }
}

proof fn lemma_sum_ge_one(ns: Seq<u64>, i: int)
    requires
        0 <= i < ns.len(),
    ensures
        ns[i] <= sum_u64s(ns),
    decreases ns.len(),
{
    if i < ns.len() - 1 {
        lemma_sum_ge_one(ns.drop_last(), i);
    }
}

/// The numbers after the label on the first line, and their sum if it fits.
fn cpu_numbers_exec(stat: &[char]) -> (r: Option<(Vec<u64>, Option<u64>)>)
    ensures
        match cpu_numbers(stat@) {
            None => r is None,
            Some(ns) => r is Some && r.unwrap().0@ == ns && (match r.unwrap().1 {
                Some(t) => t == sum_u64s(ns),
                None => sum_u64s(ns) > u64::MAX,
            }),
        },
{
    if stat.len() == 0 {
        return None;
    }
    let lines = crate::text::split_at_char(stat, '\n');
    proof {
        crate::text::lemma_split_nonempty(stat@, char_is('\n'));
    }
    assert(views(lines@)[0] == lines@[0]@);
    let ws = words_exec(&lines[0]);
    let ghost wv = views(ws@);
    let ghost rest = if wv.len() == 0 { wv } else { wv.drop_first() };
    let start: usize = if ws.len() == 0 { 0 } else { 1 };
    let mut nums: Vec<u64> = Vec::new();
    let mut total: Option<u64> = Some(0);
    let mut k: usize = start;
    assert(rest.take(0) =~= Seq::<Seq<char>>::empty());
    while k < ws.len()
        invariant
            start <= k <= ws@.len(),
            wv == views(ws@),
            rest == (if wv.len() == 0 { wv } else { wv.drop_first() }),
            start == (if wv.len() == 0 { 0int } else { 1int }),
            nums@ == parsed_u64s(rest.take(k - start)),
            match total {
                Some(t) => t == sum_u64s(nums@),
                None => sum_u64s(nums@) > u64::MAX,
            },
        decreases ws@.len() - k,
    {
        assert(rest.take(k + 1 - start).drop_last() =~= rest.take(k - start));
        assert(rest.take(k + 1 - start).last() == wv[k as int]);
        assert(wv[k as int] == ws@[k as int]@);
        match parse_u64_exec(&ws[k]) {
            Some(n) => {
                let ghost before = nums@;
                nums.push(n);
                assert(nums@.drop_last() =~= before);
                total = match total {
                    Some(t) => t.checked_add(n),
                    None => None,
                };
            },
            None => {},
        }
        k += 1;
    }
    assert(rest.take(k - start) =~= rest);
    Some((nums, total))
}

/// (total, idle + iowait) jiffies from the text of `/proc/stat`.
pub fn cpu_jiffies_from(stat: &str) -> (r: Option<(u64, u64)>)
    requires
        cpu_sum_fits(stat@),
    ensures
        r == cpu_jiffies_spec(stat@),
{
    let cs = chars_of(stat);
    match cpu_numbers_exec(&cs) {
        None => None,
        Some((nums, total)) => {
            if nums.len() < 5 {
                return None;
            }
            proof {
                lemma_sum_ge_elem(nums@, 3, 4);
            }
            match total {
                Some(t) => Some((t, nums[3] + nums[4])),
                None => None,
            }
        },
    }
}

/// Whether the jiffies of a `/proc/stat` text add up within a `u64`.
pub fn cpu_sum_fits_exec(stat: &str) -> (b: bool)
    ensures
        b == cpu_sum_fits(stat@),
{
    let cs = chars_of(stat);
    match cpu_numbers_exec(&cs) {
        None => true,
        Some((nums, total)) => nums.len() < 5 || total.is_some(),
    }
}

pub open spec fn mem_total_label() -> Seq<char> {
    seq!['M', 'e', 'm', 'T', 'o', 't', 'a', 'l', ':']
}

pub open spec fn mem_available_label() -> Seq<char> {
    seq!['M', 'e', 'm', 'A', 'v', 'a', 'i', 'l', 'a', 'b', 'l', 'e', ':']
}

/// The second word of a line as a `u64`.
pub open spec fn second_u64(line: Seq<char>) -> Option<u64> {
    let ws = words(line);
    if ws.len() >= 2 {
        parse_u64(ws[1])
    } else {
        None
    }
}

/// kB to bytes.
pub open spec fn kb_bytes(k: Option<u64>) -> Option<u64> {
    match k {
        Some(k) => Some((k * 1024) as u64),
        None => None,
    }
}

/// (total, available) after the first `k` lines; the last line of each kind
/// wins, also when its number does not parse.
pub open spec fn mem_go(lines: Seq<Seq<char>>, k: int) -> (Option<u64>, Option<u64>)
    decreases k,
{
    if k <= 0 {
        (None, None)
    } else {
        let prev = mem_go(lines, k - 1);
        let l = lines[k - 1];
        if crate::text::starts_with(l, mem_total_label()) {
            (kb_bytes(second_u64(l)), prev.1)
        } else if crate::text::starts_with(l, mem_available_label()) {
            (prev.0, kb_bytes(second_u64(l)))
        } else {
            prev
        }
    }
}

/// Whether the labelled kB figures of a `/proc/meminfo` text fit in bytes.
pub open spec fn mem_fits(text: Seq<char>) -> bool {
    let lines = split_by(text, char_is('\n'));
    forall|i: int|
        0 <= i < lines.len() && (crate::text::starts_with(#[trigger] lines[i], mem_total_label())
            || crate::text::starts_with(lines[i], mem_available_label())) ==> match second_u64(
            lines[i],
        ) {
            Some(k) => k * 1024 <= u64::MAX,
            None => true,
        }
}

/// (total, used) memory in bytes from `/proc/meminfo`: used is total less
/// available, floored at zero, when both are known.
pub open spec fn mem_info_spec(text: Seq<char>) -> (Option<u64>, Option<u64>) {
    let lines = split_by(text, char_is('\n'));
    let (t, a) = mem_go(lines, lines.len() as int);
    (
        t,
        match (t, a) {
            (Some(t), Some(a)) => Some(if t >= a { (t - a) as u64 } else { 0 }),
            _ => None,
        },
    )
}

/// The second word of a line as a `u64`.
fn second_u64_exec(line: &[char]) -> (r: Option<u64>)
    ensures
        r == second_u64(line@),
{
    let ws = words_exec(line);
    if ws.len() >= 2 {
        assert(views(ws@)[1] == ws@[1]@);
        parse_u64_exec(&ws[1])
    } else {
        None
    }
}

/// Whether the labelled kB figures of a `/proc/meminfo` text fit in bytes.
pub fn mem_fits_exec(text: &str) -> (b: bool)
    ensures
        b == mem_fits(text@),
{
    let cs = chars_of(text);
    let lines = crate::text::split_at_char(&cs, '\n');
    let ghost lv = views(lines@);
    let total = vec!['M', 'e', 'm', 'T', 'o', 't', 'a', 'l', ':'];
    let avail = vec!['M', 'e', 'm', 'A', 'v', 'a', 'i', 'l', 'a', 'b', 'l', 'e', ':'];
    assert(total@ =~= mem_total_label());
    assert(avail@ =~= mem_available_label());
    let mut k: usize = 0;
    while k < lines.len()
        invariant
            k <= lines@.len(),
            lv == views(lines@),
            lv == split_by(text@, char_is('\n')),
            total@ == mem_total_label(),
            avail@ == mem_available_label(),
            forall|i: int|
                0 <= i < k && (crate::text::starts_with(#[trigger] lv[i], mem_total_label())
                    || crate::text::starts_with(lv[i], mem_available_label())) ==> match second_u64(
                    lv[i],
                ) {
                    Some(v) => v * 1024 <= u64::MAX,
                    None => true,
                },
        decreases lines@.len() - k,
    {
        let line = &lines[k];
        assert(lv[k as int] == line@);
        assert(line@.skip(0) =~= line@);
        if crate::text::matches_at(line, 0, &total) || crate::text::matches_at(line, 0, &avail) {
            if let Some(v) = second_u64_exec(line) {
                if v > u64::MAX / 1024 {
                    return false;
                }
            }
        }
        k += 1;
    }
    true
}

/// (total, used) memory in bytes from the text of `/proc/meminfo`.
pub fn mem_info_from(text: &str) -> (r: (Option<u64>, Option<u64>))
    requires
        mem_fits(text@),
    ensures
        r == mem_info_spec(text@),
{
    let cs = chars_of(text);
    let lines = crate::text::split_at_char(&cs, '\n');
    let ghost lv = views(lines@);
    let total_l = vec!['M', 'e', 'm', 'T', 'o', 't', 'a', 'l', ':'];
    let avail_l = vec!['M', 'e', 'm', 'A', 'v', 'a', 'i', 'l', 'a', 'b', 'l', 'e', ':'];
    assert(total_l@ =~= mem_total_label());
    assert(avail_l@ =~= mem_available_label());
    let mut total: Option<u64> = None;
    let mut avail: Option<u64> = None;
    let mut k: usize = 0;
    while k < lines.len()
        invariant
            k <= lines@.len(),
            lv == views(lines@),
            lv == split_by(text@, char_is('\n')),
            mem_fits(text@),
            total_l@ == mem_total_label(),
            avail_l@ == mem_available_label(),
            (total, avail) == mem_go(lv, k as int),
        decreases lines@.len() - k,
    {
        let line = &lines[k];
        assert(lv[k as int] == line@);
        assert(line@.skip(0) =~= line@);
        if crate::text::matches_at(line, 0, &total_l) {
            total = match second_u64_exec(line) {
                Some(v) => Some(v * 1024),
                None => None,
            };
        } else if crate::text::matches_at(line, 0, &avail_l) {
            avail = match second_u64_exec(line) {
                Some(v) => Some(v * 1024),
                None => None,
            };
        }
        k += 1;
    }
    let used = match (total, avail) {
        (Some(t), Some(a)) => Some(if t >= a { t - a } else { 0 }),
        _ => None,
    };
    (total, used)
}

/// The resident pages of `/proc/self/statm` (its second number) times the
/// page size, the page size taken as at least 4096.
pub open spec fn self_rss_spec(statm: Seq<char>, page: i64) -> Option<u64> {
    match second_u64(statm) {
        None => None,
        Some(pages) => Some((pages * (if page >= 4096 { page } else { 4096 })) as u64),
    }
}

/// Whether the resident bytes fit in a `u64`.
pub open spec fn rss_fits(statm: Seq<char>, page: i64) -> bool {
    match second_u64(statm) {
        None => true,
        Some(pages) => pages * (if page >= 4096 { page } else { 4096 }) <= u64::MAX,
    }
}

/// Resident bytes from the text of `/proc/self/statm` and the page size
/// that `sysconf` reports.
pub fn self_rss_from(statm: &str, page: i64) -> (r: Option<u64>)
    requires
        rss_fits(statm@, page),
    ensures
        r == self_rss_spec(statm@, page),
{
    let cs = chars_of(statm);
    match second_u64_exec(&cs) {
        None => None,
        Some(pages) => {
            let p: u64 = if page >= 4096 { page as u64 } else { 4096 };
            Some(pages * p)
        },
    }
}

/// Whether the resident bytes of a `statm` text fit in a `u64`.
pub fn rss_fits_exec(statm: &str, page: i64) -> (b: bool)
    ensures
        b == rss_fits(statm@, page),
{
    let cs = chars_of(statm);
    match second_u64_exec(&cs) {
        None => true,
        Some(pages) => {
            let p: u64 = if page >= 4096 { page as u64 } else { 4096 };
            pages.checked_mul(p).is_some()
        },
    }
}

/// (total, free) bytes of a drive from its block counts and fragment size,
/// the fragment size taken as at least 1.
pub fn drive_stats_from(blocks: u64, bavail: u64, frsize: u64) -> (r: (Option<u64>, Option<u64>))
    requires
        blocks * (if frsize >= 1 { frsize } else { 1 }) <= u64::MAX,
        bavail * (if frsize >= 1 { frsize } else { 1 }) <= u64::MAX,
    ensures
        r == (
            Some((blocks * (if frsize >= 1 { frsize } else { 1 })) as u64),
            Some((bavail * (if frsize >= 1 { frsize } else { 1 })) as u64),
        ),
{
    let frag: u64 = if frsize >= 1 { frsize } else { 1 };
    (Some(blocks * frag), Some(bavail * frag))
}

} // verus!
