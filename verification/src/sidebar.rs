//! When the history sidebar folds to its rail as the window narrows, with a
//! band of hysteresis so that it does not flap around one width.
//!
//! Widths are whole logical pixels: the floor of the window width, which
//! compares with the whole-pixel thresholds exactly as the width itself does.

use vstd::prelude::*;

verus! {

/// Below this width the sidebar folds on its own.
pub const SIDEBAR_AUTO_COLLAPSE: i64 = 720;

/// How far past the fold width the window must grow to unfold again.
pub const SIDEBAR_HYSTERESIS: i64 = 24;

/// At or above this width the sidebar unfolds on its own.
pub const SIDEBAR_AUTO_EXPAND: i64 = SIDEBAR_AUTO_COLLAPSE + SIDEBAR_HYSTERESIS;

#[derive(Clone, Copy, Debug, PartialEq, Eq, Structural)]
pub struct SidebarFold {
    pub collapsed: bool,
    pub last_w: i64,
}

/// The fold after the window goes from `f.last_w` to `now_w`.
pub open spec fn resized(f: SidebarFold, now_w: i64, pinned: bool) -> bool {
    if pinned || (f.last_w >= SIDEBAR_AUTO_COLLAPSE && now_w < SIDEBAR_AUTO_COLLAPSE) {
        true
    } else if f.last_w < SIDEBAR_AUTO_EXPAND && now_w >= SIDEBAR_AUTO_EXPAND {
        false
    } else {
        f.collapsed
    }
}

impl SidebarFold {
    /// The fold for a window that opens `win_w` wide.
    pub fn seed(win_w: i64, pinned: bool) -> (f: SidebarFold)
        ensures
            f.collapsed == (pinned || win_w < SIDEBAR_AUTO_COLLAPSE),
            f.last_w == win_w,
    {
        SidebarFold { collapsed: pinned || win_w < SIDEBAR_AUTO_COLLAPSE, last_w: win_w }
    }

    /// A fold that last saw `last_w`.
    pub fn at(last_w: i64, collapsed: bool) -> (f: SidebarFold)
        ensures
            f == (SidebarFold { collapsed, last_w }),
    {
        SidebarFold { collapsed, last_w }
    }

    /// The window is now `now_w` wide; whether the fold changed.
    pub fn on_resize(&mut self, now_w: i64, pinned: bool) -> (changed: bool)
        ensures
            final(self).collapsed == resized(*old(self), now_w, pinned),
            final(self).last_w == now_w,
            changed == (final(self).collapsed != old(self).collapsed),
    {
        let next = if pinned || (self.last_w >= SIDEBAR_AUTO_COLLAPSE && now_w < SIDEBAR_AUTO_COLLAPSE) {
            true
        } else if self.last_w < SIDEBAR_AUTO_EXPAND && now_w >= SIDEBAR_AUTO_EXPAND {
            false
        } else {
            self.collapsed
        };
        self.last_w = now_w;
        if next == self.collapsed {
            return false;
        }
        self.collapsed = next;
        true
    }

    /// The pin button: a folded sidebar opens (remembering `win_w`), an open
    /// one folds; whether it is folded now.
    pub fn toggle_pin(&mut self, win_w: i64) -> (folded: bool)
        ensures
            old(self).collapsed ==> *final(self) == (SidebarFold { collapsed: false, last_w: win_w }),
            !old(self).collapsed ==> *final(self) == (SidebarFold {
                collapsed: true,
                last_w: old(self).last_w,
            }),
            folded == final(self).collapsed,
    {
        if self.collapsed {
            self.collapsed = false;
            self.last_w = win_w;
            false
        } else {
            self.collapsed = true;
            true
        }
    }

    /// Whether the sidebar shows as its narrow rail rather than at its
    /// chosen width.
    pub fn shows_rail(self, has_docs: bool) -> (r: bool)
        ensures
            r == (has_docs && self.collapsed),
    {
        has_docs && self.collapsed
    }
}

/// Widths inside the hysteresis band never fold or unfold an unpinned
/// sidebar, whatever width came before.
pub proof fn lemma_band_keeps_fold(f: SidebarFold, now_w: i64)
    requires
        SIDEBAR_AUTO_COLLAPSE <= now_w < SIDEBAR_AUTO_EXPAND,
    ensures
        resized(f, now_w, false) == f.collapsed,
{
}

/// A resize to the width last seen never changes an unpinned fold, so a
/// sidebar opened by hand while narrow stays open.
pub proof fn lemma_same_width_keeps_fold(f: SidebarFold)
    ensures
        resized(f, f.last_w, false) == f.collapsed,
{
}

/// Shrinking across the fold width folds, growing across the unfold width
/// unfolds, and a pinned sidebar is folded after any resize.
pub proof fn lemma_crossings(f: SidebarFold, now_w: i64)
    ensures
        f.last_w >= SIDEBAR_AUTO_COLLAPSE && now_w < SIDEBAR_AUTO_COLLAPSE ==> resized(f, now_w, false),
        f.last_w < SIDEBAR_AUTO_EXPAND && now_w >= SIDEBAR_AUTO_EXPAND ==> !resized(f, now_w, false),
        resized(f, now_w, true),
{
}

// ------------------------------------------------------------ thumbnails

/// Rows kept on either side of the visible ones: half of `mult - 1` screens
/// of at least one row, with saturation.
pub open spec fn keep_pad(start: usize, end: usize, mult: usize) -> int {
    let vis: int = if end - start >= 1 { end - start } else { 1 };
    let m: int = if mult >= 1 { mult - 1 } else { 0 };
    let prod: int = if vis * m > usize::MAX { usize::MAX as int } else { vis * m };
    prod / 2
}

/// The rows `[keep_start, keep_end)` whose thumbnails stay loaded while rows
/// `[start, end)` of `len` are on screen: the visible ones padded by
/// `keep_pad` on each side, held to the list.
pub fn thumb_keep_window(start: usize, end: usize, len: usize, mult: usize) -> (r: (usize, usize))
    requires
        start <= end <= len,
        end + keep_pad(start, end, mult) <= usize::MAX,
    ensures
        r.0 == (if start >= keep_pad(start, end, mult) { start - keep_pad(start, end, mult) } else { 0 }),
        r.1 == (if end + keep_pad(start, end, mult) <= len { end + keep_pad(start, end, mult) } else { len as int }),
        r.0 <= r.1 <= len,
{
    let vis: usize = if end - start >= 1 { end - start } else { 1 };
    let m: usize = mult.saturating_sub(1);
    let prod: usize = match vis.checked_mul(m) {
        Some(p) => p,
        None => usize::MAX,
    };
    let pad: usize = prod / 2;
    let keep_start = start.saturating_sub(pad);
    let far = end + pad;
    let keep_end = if far < len { far } else { len };
    (keep_start, keep_end)
}

} // verus!
