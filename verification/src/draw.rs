//! The handwriting pad: its strokes, the tool in hand, and the undo / redo
//! history of whole-ink snapshots taken around each gesture.
//!
//! Positions are carried as the bit patterns of their `f32` pixels and sample
//! times as nanoseconds from the pad's first sample; the eraser's geometry is
//! computed by the caller and handed back through `apply_erase`.

use vstd::prelude::*;

verus! {

#[derive(Clone, Copy, Debug, PartialEq, Eq, Structural)]
pub enum DrawTool {
    Pen,
    Eraser,
}

#[derive(Clone, Copy, Debug, PartialEq, Eq, Structural)]
pub enum DrawPaper {
    Dots,
    Lines,
    Blank,
}

/// A pointer position: the bit patterns of its `f32` x and y.
#[derive(Clone, Copy, Debug, PartialEq, Eq, Structural)]
pub struct InkPos {
    pub x: u32,
    pub y: u32,
}

/// One stroke sample: where, and nanoseconds after the pad's first sample.
#[derive(Clone, Copy, Debug, PartialEq, Eq, Structural)]
pub struct StrokePt {
    pub pos: InkPos,
    pub t_ns: u64,
}

/// Strokes as sequences of samples.
pub type Ink = Seq<Seq<StrokePt>>;

pub open spec fn ink_v(lines: Seq<Vec<StrokePt>>) -> Ink {
    lines.map_values(|l: Vec<StrokePt>| l@)
}

pub open spec fn inks_v(stack: Seq<Vec<Vec<StrokePt>>>) -> Seq<Ink> {
    stack.map_values(|s: Vec<Vec<StrokePt>>| ink_v(s@))
}

pub struct DrawBoard {
    pub lines: Vec<Vec<StrokePt>>,
    pub painting: bool,
    pub t0: Option<u64>,
    pub tool: DrawTool,
    pub paper: DrawPaper,
    pub undo: Vec<Vec<Vec<StrokePt>>>,
    pub redo: Vec<Vec<Vec<StrokePt>>>,
    pub gesture_before: Option<Vec<Vec<StrokePt>>>,
    pub hover: Option<InkPos>,
    pub pad_hovered: bool,
    pub dock_hovered: bool,
}

/// The whole state of a pad as values.
pub struct BoardView {
    pub lines: Ink,
    pub painting: bool,
    pub t0: Option<u64>,
    pub tool: DrawTool,
    pub paper: DrawPaper,
    pub undo: Seq<Ink>,
    pub redo: Seq<Ink>,
    pub before: Option<Ink>,
    pub hover: Option<InkPos>,
    pub pad_hovered: bool,
    pub dock_hovered: bool,
}

impl View for DrawBoard {
    type V = BoardView;

    open spec fn view(&self) -> BoardView {
        BoardView {
            lines: ink_v(self.lines@),
            painting: self.painting,
            t0: self.t0,
            tool: self.tool,
            paper: self.paper,
            undo: inks_v(self.undo@),
            redo: inks_v(self.redo@),
            before: match self.gesture_before {
                Some(b) => Some(ink_v(b@)),
                None => None,
            },
            hover: self.hover,
            pad_hovered: self.pad_hovered,
            dock_hovered: self.dock_hovered,
        }
    }
}

// ------------------------------------------------------------ transitions

/// Steps back to the last snapshot; the ink now shown goes to the redo side.
pub open spec fn undo_spec(b: BoardView) -> BoardView {
    if b.undo.len() == 0 {
        b
    } else {
        BoardView {
            lines: b.undo.last(),
            undo: b.undo.drop_last(),
            redo: b.redo.push(b.lines),
            painting: false,
            before: None,
            ..b
        }
    }
}

/// Steps forward to the last undone ink; the ink now shown goes back to undo.
pub open spec fn redo_spec(b: BoardView) -> BoardView {
    if b.redo.len() == 0 {
        b
    } else {
        BoardView {
            lines: b.redo.last(),
            redo: b.redo.drop_last(),
            undo: b.undo.push(b.lines),
            painting: false,
            before: None,
            ..b
        }
    }
}

/// A gesture ends: a changed ink is recorded and the redo side dropped.
pub open spec fn end_gesture_spec(b: BoardView) -> BoardView {
    match b.before {
        None => BoardView { painting: false, ..b },
        Some(before) => if before != b.lines {
            BoardView {
                painting: false,
                before: None,
                undo: b.undo.push(before),
                redo: Seq::empty(),
                ..b
            }
        } else {
            BoardView { painting: false, before: None, ..b }
        },
    }
}

/// The clock start after a sample at `now`.
pub open spec fn clock_after(b: BoardView, now: u64) -> u64 {
    match b.t0 {
        Some(t) => t,
        None => now,
    }
}

/// The sample a pen stroke takes at `pos` and `now`.
pub open spec fn sample(b: BoardView, pos: InkPos, now: u64) -> StrokePt {
    let t0 = clock_after(b, now);
    StrokePt { pos, t_ns: if now >= t0 { (now - t0) as u64 } else { 0 } }
}

/// A press: the pointer is on the pad, the ink is snapshotted, and a pen
/// starts a new stroke.
pub open spec fn pointer_down_spec(b: BoardView, pos: InkPos, now: u64) -> BoardView {
    let b1 = BoardView {
        hover: Some(pos),
        pad_hovered: true,
        before: Some(b.lines),
        painting: true,
        ..b
    };
    if b.tool == DrawTool::Pen {
        BoardView {
            lines: b.lines.push(seq![sample(b, pos, now)]),
            t0: Some(clock_after(b, now)),
            ..b1
        }
    } else {
        b1
    }
}

/// A move: while painting with the pen the last stroke grows.
pub open spec fn pointer_move_spec(b: BoardView, pos: InkPos, now: u64) -> BoardView {
    let b1 = BoardView { hover: Some(pos), pad_hovered: true, ..b };
    if b.painting && b.tool == DrawTool::Pen {
        BoardView {
            lines: if b.lines.len() == 0 {
                b.lines
            } else {
                b.lines.update(b.lines.len() - 1, b.lines.last().push(sample(b, pos, now)))
            },
            t0: Some(clock_after(b, now)),
            ..b1
        }
    } else {
        b1
    }
}

pub open spec fn has_ink_spec(lines: Ink) -> bool {
    exists|i: int| 0 <= i < lines.len() && #[trigger] lines[i].len() >= 2
}

// ------------------------------------------------------------ laws

/// Redo right after an undo brings back the ink, and both histories, as they
/// were.
pub proof fn lemma_redo_restores_undo(b: BoardView)
    requires
        b.undo.len() > 0,
    ensures
        redo_spec(undo_spec(b)).lines == b.lines,
        redo_spec(undo_spec(b)).undo == b.undo,
        redo_spec(undo_spec(b)).redo == b.redo,
{
    assert(undo_spec(b).redo.last() == b.lines);
    assert(undo_spec(b).redo.drop_last() =~= b.redo);
    assert(undo_spec(b).undo.push(undo_spec(b).lines) =~= b.undo);
}

/// Undo right after a redo brings back the ink, and both histories, as they
/// were.
pub proof fn lemma_undo_restores_redo(b: BoardView)
    requires
        b.redo.len() > 0,
    ensures
        undo_spec(redo_spec(b)).lines == b.lines,
        undo_spec(redo_spec(b)).undo == b.undo,
        undo_spec(redo_spec(b)).redo == b.redo,
{
    assert(redo_spec(b).undo.last() == b.lines);
    assert(redo_spec(b).undo.drop_last() =~= b.undo);
    assert(redo_spec(b).redo.push(redo_spec(b).lines) =~= b.redo);
}

/// A gesture that changed the ink leaves nothing to redo, and one undo shows
/// the ink from before the gesture.
pub proof fn lemma_changed_gesture_is_undoable(b: BoardView)
    requires
        b.before is Some,
        b.before->0 != b.lines,
    ensures
        end_gesture_spec(b).redo.len() == 0,
        undo_spec(end_gesture_spec(b)).lines == b.before->0,
        undo_spec(end_gesture_spec(b)).undo == b.undo,
{
    assert(end_gesture_spec(b).undo.drop_last() =~= b.undo);
}

/// A gesture that left the ink as it was records nothing.
pub proof fn lemma_unchanged_gesture_keeps_history(b: BoardView)
    requires
        b.before == Some(b.lines),
    ensures
        end_gesture_spec(b).undo == b.undo,
        end_gesture_spec(b).redo == b.redo,
        end_gesture_spec(b).lines == b.lines,
{
}

// ------------------------------------------------------------ copies

fn copy_stroke(s: &Vec<StrokePt>) -> (out: Vec<StrokePt>)
    ensures
        out@ == s@,
{
    let mut out: Vec<StrokePt> = Vec::new();
    let mut i: usize = 0;
    while i < s.len()
        invariant
            i <= s@.len(),
            out@ == s@.take(i as int),
        decreases s@.len() - i,
    {
        out.push(s[i]);
        i += 1;
        assert(out@ =~= s@.take(i as int));
    }
    assert(s@.take(s@.len() as int) =~= s@);
    out
}

fn copy_ink(lines: &Vec<Vec<StrokePt>>) -> (out: Vec<Vec<StrokePt>>)
    ensures
        ink_v(out@) == ink_v(lines@),
{
    let mut out: Vec<Vec<StrokePt>> = Vec::new();
    let mut i: usize = 0;
    while i < lines.len()
        invariant
            i <= lines@.len(),
            ink_v(out@) == ink_v(lines@).take(i as int),
        decreases lines@.len() - i,
    {
        let s = copy_stroke(&lines[i]);
        let ghost before = ink_v(out@);
        out.push(s);
        assert(ink_v(out@) =~= before.push(lines@[i as int]@));
        i += 1;
        assert(ink_v(out@) =~= ink_v(lines@).take(i as int));
    }
    assert(ink_v(lines@).take(lines@.len() as int) =~= ink_v(lines@));
    out
}

fn same_stroke(a: &Vec<StrokePt>, b: &Vec<StrokePt>) -> (r: bool)
    ensures
        r == (a@ == b@),
{
    if a.len() != b.len() {
        return false;
    }
    let mut i: usize = 0;
    while i < a.len()
        invariant
            i <= a@.len(),
            a@.len() == b@.len(),
            forall|j: int| 0 <= j < i ==> a@[j] == b@[j],
        decreases a@.len() - i,
    {
        if a[i] != b[i] {
            return false;
        }
        i += 1;
    }
    assert(a@ =~= b@);
    true
}

fn same_ink(a: &Vec<Vec<StrokePt>>, b: &Vec<Vec<StrokePt>>) -> (r: bool)
    ensures
        r == (ink_v(a@) == ink_v(b@)),
{
    if a.len() != b.len() {
        assert(ink_v(a@).len() != ink_v(b@).len());
        return false;
    }
    let mut i: usize = 0;
    while i < a.len()
        invariant
            i <= a@.len(),
            a@.len() == b@.len(),
            forall|j: int| 0 <= j < i ==> #[trigger] ink_v(a@)[j] == ink_v(b@)[j],
        decreases a@.len() - i,
    {
        if !same_stroke(&a[i], &b[i]) {
            assert(ink_v(a@)[i as int] != ink_v(b@)[i as int]);
            return false;
        }
        i += 1;
    }
    assert(ink_v(a@) =~= ink_v(b@));
    true
}

// ------------------------------------------------------------ the pad

impl DrawBoard {
    /// An empty pad with the pen on dotted paper.
    pub fn new() -> (b: DrawBoard)
        ensures
            b@.lines.len() == 0,
            b@.undo.len() == 0,
            b@.redo.len() == 0,
            b@.before is None,
            !b@.painting,
            b@.t0 is None,
            b@.tool == DrawTool::Pen,
            b@.paper == DrawPaper::Dots,
            b@.hover is None,
            !b@.pad_hovered,
            !b@.dock_hovered,
    {
        let b = DrawBoard {
            lines: Vec::new(),
            painting: false,
            t0: None,
            tool: DrawTool::Pen,
            paper: DrawPaper::Dots,
            undo: Vec::new(),
            redo: Vec::new(),
            gesture_before: None,
            hover: None,
            pad_hovered: false,
            dock_hovered: false,
        };
        assert(b@.lines.len() == 0);
        b
    }

    /// Drops the ink and its history; tool, paper and pointer stay.
    pub fn clear_ink(&mut self)
        ensures
            final(self)@ == (BoardView {
                lines: Seq::empty(),
                undo: Seq::empty(),
                redo: Seq::empty(),
                before: None,
                painting: false,
                t0: None,
                ..old(self)@
            }),
    {
        self.lines.clear();
        self.undo.clear();
        self.redo.clear();
        self.gesture_before = None;
        self.painting = false;
        self.t0 = None;
        assert(self@.lines =~= Seq::<Seq<StrokePt>>::empty());
        assert(self@.undo =~= Seq::<Ink>::empty());
        assert(self@.redo =~= Seq::<Ink>::empty());
    }

    pub fn can_undo(&self) -> (r: bool)
        ensures
            r == (self@.undo.len() > 0),
    {
        self.undo.len() > 0
    }

    pub fn can_redo(&self) -> (r: bool)
        ensures
            r == (self@.redo.len() > 0),
    {
        self.redo.len() > 0
    }

    pub fn set_tool(&mut self, tool: DrawTool)
        ensures
            final(self)@ == (BoardView { tool, ..old(self)@ }),
    {
        self.tool = tool;
    }

    pub fn set_paper(&mut self, paper: DrawPaper)
        ensures
            final(self)@ == (BoardView { paper, ..old(self)@ }),
    {
        self.paper = paper;
    }

    /// Leaving the pad also forgets the pointer and the dock.
    pub fn set_pad_hovered(&mut self, hovered: bool)
        ensures
            final(self)@ == (if hovered {
                BoardView { pad_hovered: true, ..old(self)@ }
            } else {
                BoardView { pad_hovered: false, hover: None, dock_hovered: false, ..old(self)@ }
            }),
    {
        self.pad_hovered = hovered;
        if !hovered {
            self.hover = None;
            self.dock_hovered = false;
        }
    }

    pub fn set_dock_hovered(&mut self, hovered: bool)
        ensures
            final(self)@ == (BoardView { dock_hovered: hovered, ..old(self)@ }),
    {
        self.dock_hovered = hovered;
    }

    pub fn leave_canvas(&mut self)
        ensures
            final(self)@ == (BoardView {
                pad_hovered: false,
                hover: None,
                dock_hovered: false,
                ..old(self)@
            }),
    {
        self.set_pad_hovered(false);
    }

    /// The OS pointer hides while the eraser's ring stands in for it.
    pub fn os_cursor_hidden(&self) -> (r: bool)
        ensures
            r == (self@.tool == DrawTool::Eraser && self@.pad_hovered && !self@.dock_hovered),
    {
        self.tool == DrawTool::Eraser && self.pad_hovered && !self.dock_hovered
    }

    /// Where to paint the eraser ring, if anywhere.
    pub fn eraser_ring(&self) -> (r: Option<InkPos>)
        ensures
            r == (if self@.tool != DrawTool::Eraser || self@.dock_hovered {
                None
            } else {
                self@.hover
            }),
    {
        if self.tool != DrawTool::Eraser || self.dock_hovered {
            return None;
        }
        self.hover
    }

    pub fn begin_gesture(&mut self)
        ensures
            final(self)@ == (BoardView { before: Some(old(self)@.lines), ..old(self)@ }),
    {
        self.gesture_before = Some(copy_ink(&self.lines));
    }

    pub fn end_gesture(&mut self)
        ensures
            final(self)@ == end_gesture_spec(old(self)@),
    {
        self.painting = false;
        let before = self.gesture_before.take();
        match before {
            None => {},
            Some(before) => {
                if !same_ink(&before, &self.lines) {
                    let ghost b = ink_v(before@);
                    let ghost u0 = self@.undo;
                    self.undo.push(before);
                    assert(self@.undo =~= u0.push(b));
                    self.redo.clear();
                    assert(self@.redo =~= Seq::<Ink>::empty());
                }
            },
        }
    }

    /// The sample for a pen at `pos` when the clock reads `now`; the clock
    /// starts at the pad's first sample.
    fn stamp(&mut self, pos: InkPos, now: u64) -> (p: StrokePt)
        ensures
            p == sample(old(self)@, pos, now),
            final(self)@ == (BoardView { t0: Some(clock_after(old(self)@, now)), ..old(self)@ }),
    {
        let t0 = match self.t0 {
            Some(t) => t,
            None => now,
        };
        self.t0 = Some(t0);
        StrokePt { pos, t_ns: now.saturating_sub(t0) }
    }

    /// Pointer pressed on the pad at `pos`, the clock reading `now`.
    pub fn pointer_down(&mut self, pos: InkPos, now: u64)
        ensures
            final(self)@ == pointer_down_spec(old(self)@, pos, now),
    {
        self.hover = Some(pos);
        self.pad_hovered = true;
        self.begin_gesture();
        self.painting = true;
        if self.tool == DrawTool::Pen {
            let ghost l0 = self@.lines;
            let pt = self.stamp(pos, now);
            let stroke = vec![pt];
            assert(stroke@ =~= seq![pt]);
            self.lines.push(stroke);
            assert(self@.lines =~= l0.push(seq![pt]));
        }
    }

    /// Pointer moved to `pos`; whether the pad needs repainting.
    pub fn pointer_move(&mut self, pos: InkPos, now: u64) -> (repaint: bool)
        ensures
            final(self)@ == pointer_move_spec(old(self)@, pos, now),
            repaint == (old(self)@.painting || old(self)@.tool == DrawTool::Eraser),
    {
        self.hover = Some(pos);
        self.pad_hovered = true;
        if self.painting {
            if self.tool == DrawTool::Pen {
                let ghost l0 = self@.lines;
                let pt = self.stamp(pos, now);
                let n = self.lines.len();
                if n > 0 {
                    let mut last = self.lines.pop().unwrap();
                    assert(last@ == l0.last());
                    last.push(pt);
                    self.lines.push(last);
                    assert(self@.lines =~= l0.update(l0.len() - 1, l0.last().push(pt)));
                }
            }
            return true;
        }
        self.tool == DrawTool::Eraser
    }

    /// Whether a held eraser is wiping: the caller then hands back the
    /// erased ink through `apply_erase`.
    pub fn erasing(&self) -> (r: bool)
        ensures
            r == (self@.painting && self@.tool == DrawTool::Eraser),
    {
        self.painting && self.tool == DrawTool::Eraser
    }

    /// The ink after the eraser passed over it.
    pub fn apply_erase(&mut self, erased: Vec<Vec<StrokePt>>)
        ensures
            final(self)@ == (BoardView { lines: ink_v(erased@), ..old(self)@ }),
    {
        self.lines = erased;
    }

    pub fn pointer_up(&mut self)
        ensures
            final(self)@ == end_gesture_spec(old(self)@),
    {
        self.end_gesture();
    }

    pub fn is_gesturing(&self) -> (r: bool)
        ensures
            r == (self@.painting || self@.before is Some),
    {
        self.painting || self.gesture_before.is_some()
    }

    pub fn undo(&mut self)
        ensures
            final(self)@ == undo_spec(old(self)@),
    {
        let ghost b = self@;
        match self.undo.pop() {
            None => {},
            Some(prev) => {
                assert(ink_v(prev@) == b.undo.last());
                assert(self@.undo =~= b.undo.drop_last());
                let cur = copy_ink(&self.lines);
                self.redo.push(cur);
                assert(self@.redo =~= b.redo.push(b.lines));
                self.lines = prev;
                self.painting = false;
                self.gesture_before = None;
            },
        }
    }

    pub fn redo(&mut self)
        ensures
            final(self)@ == redo_spec(old(self)@),
    {
        let ghost b = self@;
        match self.redo.pop() {
            None => {},
            Some(next) => {
                assert(ink_v(next@) == b.redo.last());
                assert(self@.redo =~= b.redo.drop_last());
                let cur = copy_ink(&self.lines);
                self.undo.push(cur);
                assert(self@.undo =~= b.undo.push(b.lines));
                self.lines = next;
                self.painting = false;
                self.gesture_before = None;
            },
        }
    }

    /// Whether some stroke has at least two samples.
    pub fn has_ink(&self) -> (r: bool)
        ensures
            r == has_ink_spec(self@.lines),
    {
        let mut i: usize = 0;
        while i < self.lines.len()
            invariant
                i <= self.lines@.len(),
                forall|j: int| 0 <= j < i ==> #[trigger] self.lines@[j]@.len() < 2,
            decreases self.lines@.len() - i,
        {
            if self.lines[i].len() >= 2 {
                assert(self@.lines[i as int].len() >= 2);
                return true;
            }
            i += 1;
        }
        assert forall|j: int| 0 <= j < self@.lines.len() implies #[trigger] self@.lines[j].len() < 2 by {
            assert(self@.lines[j] == self.lines@[j]@);
        }
        false
    }
}

} // verus!
