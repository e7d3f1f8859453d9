//! How an intake batch is shown: five slots of cards on the reel, a backlog
//! waiting for a slot, feedback on the cards that finish, and the copy.

use vstd::prelude::*;
use crate::intake::{terminal, IntakeBatch, IntakeCounts, IntakeWork, ItemView};
use crate::text::{dec, dec_exec, push_all, string_of};

verus! {

/// Cards shown at once.
pub const INTAKE_WINDOW: usize = 5;

/// How long a finished card shows its outcome, in milliseconds.
pub const INTAKE_SUCCESS_FEEDBACK_MS: u64 = 520;
pub const INTAKE_FAILURE_FEEDBACK_MS: u64 = 160;

/// Where a card is on screen.
#[derive(Clone, Copy, Debug, PartialEq, Eq, Structural)]
pub enum IntakeVisual {
    Backlog,
    Visible,
    Feedback,
    Gone,
}

#[derive(Clone, Copy, Debug, PartialEq, Eq, Structural)]
pub enum IntakePhase {
    Running,
    Complete,
    Fading,
}

/// One file of the batch as a card.
#[derive(Clone, Copy, Debug, PartialEq, Eq, Structural)]
pub struct IntakeCard {
    pub key: u64,
    pub id: Option<u128>,
    pub work: IntakeWork,
    pub visual: IntakeVisual,
    pub slot: Option<usize>,
}

/// A card that just finished and shows its outcome.
#[derive(Clone, Copy, Debug, PartialEq, Eq, Structural)]
pub struct IntakeFeedback {
    pub key: u64,
    pub succeeded: bool,
}

/// What a sync asks of the caller: feedback to time, and whether the batch
/// is complete.
pub struct IntakeSync {
    pub feedback: Vec<IntakeFeedback>,
    pub complete: bool,
}

/// How long a finished card shows its outcome, in milliseconds: failures
/// are short.
pub fn intake_feedback_ms(succeeded: bool) -> (ms: u64)
    ensures
        ms == (if succeeded { INTAKE_SUCCESS_FEEDBACK_MS } else { INTAKE_FAILURE_FEEDBACK_MS }),
{
    if succeeded {
        INTAKE_SUCCESS_FEEDBACK_MS
    } else {
        INTAKE_FAILURE_FEEDBACK_MS
    }
}

/// The state of the presentation.
pub struct PresView {
    pub generation: u64,
    pub counts: IntakeCounts,
    pub phase: IntakePhase,
    pub cards: Seq<IntakeCard>,
    pub done: usize,
    pub succeeded: usize,
    pub failed: usize,
    pub slots: Seq<Option<usize>>,
    pub backlog: usize,
    pub next_backlog: usize,
}

pub struct IntakePresentation {
    pub generation: u64,
    pub counts: IntakeCounts,
    pub phase: IntakePhase,
    pub cards: Vec<IntakeCard>,
    pub done: usize,
    pub succeeded: usize,
    pub failed: usize,
    pub slots: Vec<Option<usize>>,
    pub backlog: usize,
    pub next_backlog: usize,
}

impl View for IntakePresentation {
    type V = PresView;

    open spec fn view(&self) -> PresView {
        PresView {
            generation: self.generation,
            counts: self.counts,
            phase: self.phase,
            cards: self.cards@,
            done: self.done,
            succeeded: self.succeeded,
            failed: self.failed,
            slots: self.slots@,
            backlog: self.backlog,
            next_backlog: self.next_backlog,
        }
    }
}

/// Cards waiting for a slot.
pub open spec fn waiting_count(cards: Seq<IntakeCard>) -> nat
    decreases cards.len(),
{
    if cards.len() == 0 {
        0
    } else {
        waiting_count(cards.drop_last()) + if cards.last().visual == IntakeVisual::Backlog {
            1nat
        } else {
            0nat
        }
    }
}

pub open spec fn on_reel(v: IntakeVisual) -> bool {
    v == IntakeVisual::Visible || v == IntakeVisual::Feedback
}

/// The presentation's invariant: five slots; a slot names a card exactly
/// when that card names the slot; a card holds a slot exactly when it is on
/// the reel; the backlog count is the number of waiting cards, and none of
/// them lies before the backlog cursor.
pub open spec fn wf(v: PresView) -> bool {
    &&& v.slots.len() == INTAKE_WINDOW
    &&& v.cards.len() <= usize::MAX
    &&& v.next_backlog <= v.cards.len()
    &&& forall|s: int|
        0 <= s < INTAKE_WINDOW ==> (#[trigger] v.slots[s] matches Some(i) ==> i < v.cards.len()
            && v.cards[i as int].slot == Some(s as usize))
    &&& forall|i: int|
        0 <= i < v.cards.len() ==> (#[trigger] v.cards[i].slot matches Some(s) ==> s
            < INTAKE_WINDOW && v.slots[s as int] == Some(i as usize))
    &&& forall|i: int|
        0 <= i < v.cards.len() ==> (#[trigger] v.cards[i].slot is Some) == on_reel(v.cards[i].visual)
    &&& v.backlog == waiting_count(v.cards)
    &&& forall|i: int| 0 <= i < v.next_backlog ==> #[trigger] v.cards[i].visual != IntakeVisual::Backlog
}

/// The first free slot at or after `s`.
pub open spec fn first_free(slots: Seq<Option<usize>>, s: int) -> Option<usize>
    decreases slots.len() - s,
{
    if s < 0 || s >= slots.len() {
        None
    } else if slots[s] is None {
        Some(s as usize)
    } else {
        first_free(slots, s + 1)
    }
}

pub open spec fn sat_dec(n: usize) -> usize {
    if n == 0 {
        0
    } else {
        (n - 1) as usize
    }
}

pub open spec fn count_if(b: bool) -> usize {
    if b {
        1
    } else {
        0
    }
}

/// One item of the batch brought onto its card: an existing card takes the
/// item's id and work (a card on the reel that just finished shows
/// feedback, a waiting one that finished is dropped); a new card takes the
/// first free slot, or waits. The counters take the item in.
pub open spec fn sync_step(v: PresView, index: int, item: ItemView) -> (PresView, Option<IntakeFeedback>) {
    let counted = PresView {
        done: (v.done + count_if(terminal(item.work))) as usize,
        succeeded: (v.succeeded + count_if(item.work == IntakeWork::Succeeded)) as usize,
        failed: (v.failed + count_if(item.work == IntakeWork::Failed)) as usize,
        ..v
    };
    let outcome = IntakeFeedback { key: item.key, succeeded: item.work == IntakeWork::Succeeded };
    if index < v.cards.len() {
        let card = v.cards[index];
        let became = !terminal(card.work) && terminal(item.work);
        let updated = IntakeCard { id: item.id, work: item.work, ..card };
        if became && card.visual == IntakeVisual::Visible {
            (
                PresView {
                    cards: v.cards.update(index, IntakeCard { visual: IntakeVisual::Feedback, ..updated }),
                    ..counted
                },
                Some(IntakeFeedback { key: card.key, succeeded: item.work == IntakeWork::Succeeded }),
            )
        } else if became && card.visual == IntakeVisual::Backlog {
            (
                PresView {
                    cards: v.cards.update(index, IntakeCard { visual: IntakeVisual::Gone, ..updated }),
                    backlog: sat_dec(v.backlog),
                    ..counted
                },
                None,
            )
        } else {
            (PresView { cards: v.cards.update(index, updated), ..counted }, None)
        }
    } else {
        let slot = first_free(v.slots, 0);
        let visual = match slot {
            Some(_) => if terminal(item.work) {
                IntakeVisual::Feedback
            } else {
                IntakeVisual::Visible
            },
            None => if terminal(item.work) {
                IntakeVisual::Gone
            } else {
                IntakeVisual::Backlog
            },
        };
        let card = IntakeCard { key: item.key, id: item.id, work: item.work, visual, slot };
        let at = v.cards.len() as usize;
        let placed = PresView {
            cards: v.cards.push(card),
            slots: match slot {
                Some(s) => v.slots.update(s as int, Some(at)),
                None => v.slots,
            },
            backlog: if slot is None && visual == IntakeVisual::Backlog {
                (v.backlog + 1) as usize
            } else {
                v.backlog
            },
            ..counted
        };
        (placed, if visual == IntakeVisual::Feedback { Some(outcome) } else { None })
    }
}

/// The first `k` items synced, with the feedback they raised.
pub open spec fn sync_go(v: PresView, items: Seq<ItemView>, k: int) -> (PresView, Seq<IntakeFeedback>)
    decreases k,
{
    if k <= 0 {
        (PresView { done: 0, succeeded: 0, failed: 0, ..v }, Seq::empty())
    } else {
        let (prev, fb) = sync_go(v, items, k - 1);
        let (next, f) = sync_step(prev, k - 1, items[k - 1]);
        (
            next,
            match f {
                Some(x) => fb.push(x),
                None => fb,
            },
        )
    }
}

/// Whether a card on the reel still shows its feedback.
pub open spec fn active_feedback(v: PresView) -> bool {
    exists|s: int|
        0 <= s < v.slots.len() && (#[trigger] v.slots[s] matches Some(i) && 0 <= i < v.cards.len()
            && v.cards[i as int].visual == IntakeVisual::Feedback)
}

/// The first waiting card from the cursor on takes the freed slot; waiting
/// cards already finished on the way are dropped.
pub open spec fn promote(v: PresView, s: usize) -> PresView
    decreases v.cards.len() - v.next_backlog,
{
    if v.next_backlog >= v.cards.len() || v.next_backlog == usize::MAX {
        v
    } else {
        let i = v.next_backlog as int;
        let moved = PresView { next_backlog: (v.next_backlog + 1) as usize, ..v };
        let c = v.cards[i];
        if c.visual != IntakeVisual::Backlog {
            promote(moved, s)
        } else if terminal(c.work) {
            promote(
                PresView {
                    cards: v.cards.update(i, IntakeCard { visual: IntakeVisual::Gone, ..c }),
                    backlog: sat_dec(v.backlog),
                    ..moved
                },
                s,
            )
        } else {
            PresView {
                cards: v.cards.update(
                    i,
                    IntakeCard { slot: Some(s), visual: IntakeVisual::Visible, ..c },
                ),
                slots: v.slots.update(s as int, Some(i as usize)),
                backlog: sat_dec(v.backlog),
                ..moved
            }
        }
    }
}

/// Ending the feedback of card `key`: it leaves its slot, which the next
/// waiting card takes. Nothing happens outside the running phase or for a
/// card not showing feedback.
pub open spec fn finish_spec(v: PresView, key: u64) -> (PresView, bool) {
    if v.phase != IntakePhase::Running || key == 0 {
        (v, false)
    } else {
        let index = ((key - 1) as u64) as usize as int;
        if index >= v.cards.len() {
            (v, false)
        } else {
            let card = v.cards[index];
            if card.key != key || card.visual != IntakeVisual::Feedback {
                (v, false)
            } else {
                match card.slot {
                    None => (
                        PresView {
                            cards: v.cards.update(index, IntakeCard { visual: IntakeVisual::Gone, ..card }),
                            ..v
                        },
                        false,
                    ),
                    Some(s) => {
                        let freed = PresView {
                            cards: v.cards.update(
                                index,
                                IntakeCard { visual: IntakeVisual::Gone, slot: None, ..card },
                            ),
                            slots: v.slots.update(s as int, None),
                            ..v
                        };
                        (promote(freed, s), true)
                    },
                }
            }
        }
    }
}

// ------------------------------------------------------------ invariant

proof fn lemma_waiting_update(cards: Seq<IntakeCard>, i: int, c: IntakeCard)
    requires
        0 <= i < cards.len(),
    ensures
        waiting_count(cards.update(i, c)) + count_if(cards[i].visual == IntakeVisual::Backlog)
            == waiting_count(cards) + count_if(c.visual == IntakeVisual::Backlog),
    decreases cards.len(),
{
    if i == cards.len() - 1 {
        assert(cards.update(i, c).drop_last() =~= cards.drop_last());
    } else {
        lemma_waiting_update(cards.drop_last(), i, c);
        assert(cards.update(i, c).drop_last() =~= cards.drop_last().update(i, c));
    }
}

proof fn lemma_waiting_push(cards: Seq<IntakeCard>, c: IntakeCard)
    ensures
        waiting_count(cards.push(c)) == waiting_count(cards) + count_if(
            c.visual == IntakeVisual::Backlog,
        ),
{
    assert(cards.push(c).drop_last() =~= cards);
}

proof fn lemma_waiting_le(cards: Seq<IntakeCard>)
    ensures
        waiting_count(cards) <= cards.len(),
    decreases cards.len(),
{
    if cards.len() > 0 {
        lemma_waiting_le(cards.drop_last());
    }
}

proof fn lemma_first_free(slots: Seq<Option<usize>>, s: int)
    requires
        0 <= s,
        slots.len() <= usize::MAX,
    ensures
        first_free(slots, s) matches Some(f) ==> s <= f < slots.len() && slots[f as int] is None,
        first_free(slots, s) is None ==> forall|t: int| s <= t < slots.len() ==> slots[t] is Some,
    decreases slots.len() - s,
{
    if s < slots.len() {
        lemma_first_free(slots, s + 1);
    }
}

/// Bringing one item in keeps the invariant.
proof fn lemma_step_wf(v: PresView, index: int, item: ItemView)
    requires
        wf(v),
        0 <= index <= v.cards.len(),
        index < usize::MAX,
    ensures
        wf(sync_step(v, index, item).0),
        sync_step(v, index, item).0.phase == v.phase,
        sync_step(v, index, item).0.generation == v.generation,
        sync_step(v, index, item).0.counts == v.counts,
        sync_step(v, index, item).0.cards.len() == if index < v.cards.len() {
            v.cards.len()
        } else {
            v.cards.len() + 1
        },
        forall|j: int|
            0 <= j < v.cards.len() ==> #[trigger] sync_step(v, index, item).0.cards[j].key
                == v.cards[j].key,
        index == v.cards.len() ==> sync_step(v, index, item).0.cards[index].key == item.key,
{
    let r = sync_step(v, index, item).0;
    if index < v.cards.len() {
        let card = v.cards[index];
        let became = !terminal(card.work) && terminal(item.work);
        let updated = IntakeCard { id: item.id, work: item.work, ..card };
        if became && card.visual == IntakeVisual::Visible {
            lemma_waiting_update(v.cards, index, IntakeCard { visual: IntakeVisual::Feedback, ..updated });
        } else if became && card.visual == IntakeVisual::Backlog {
            lemma_waiting_update(v.cards, index, IntakeCard { visual: IntakeVisual::Gone, ..updated });
        } else {
            lemma_waiting_update(v.cards, index, updated);
        }
        assert(wf(r));
    } else {
        lemma_first_free(v.slots, 0);
        let slot = first_free(v.slots, 0);
        let visual = match slot {
            Some(_) => if terminal(item.work) {
                IntakeVisual::Feedback
            } else {
                IntakeVisual::Visible
            },
            None => if terminal(item.work) {
                IntakeVisual::Gone
            } else {
                IntakeVisual::Backlog
            },
        };
        let card = IntakeCard { key: item.key, id: item.id, work: item.work, visual, slot };
        lemma_waiting_push(v.cards, card);
        lemma_waiting_le(v.cards);
        assert forall|t: int| 0 <= t < INTAKE_WINDOW implies (#[trigger] r.slots[t] matches Some(i)
            ==> i < r.cards.len() && r.cards[i as int].slot == Some(t as usize)) by {
            if slot == Some(t as usize) {
            } else {
                assert(r.slots[t] == v.slots[t]);
            }
        }
        assert forall|i: int| 0 <= i < r.cards.len() implies (#[trigger] r.cards[i].slot matches Some(t)
            ==> t < INTAKE_WINDOW && r.slots[t as int] == Some(i as usize)) by {
            if i < v.cards.len() {
                assert(r.cards[i] == v.cards[i]);
                if let Some(t) = v.cards[i].slot {
                    assert(v.slots[t as int] == Some(i as usize));
                    if slot == Some(t) {
                        assert(v.slots[t as int] is None);
                    }
                }
            }
        }
        assert(wf(r));
    }
}

/// Bringing the first `k` items in keeps the invariant.
proof fn lemma_sync_wf(v: PresView, items: Seq<ItemView>, k: int)
    requires
        wf(v),
        0 <= k <= items.len(),
        items.len() < usize::MAX,
    ensures
        wf(sync_go(v, items, k).0),
        sync_go(v, items, k).0.phase == v.phase,
        sync_go(v, items, k).0.generation == v.generation,
        sync_go(v, items, k).0.counts == v.counts,
        sync_go(v, items, k).0.cards.len() == if k <= v.cards.len() { v.cards.len() as int } else { k },
    decreases k,
{
    if k > 0 {
        lemma_sync_wf(v, items, k - 1);
        let prev = sync_go(v, items, k - 1).0;
        lemma_step_wf(prev, k - 1, items[k - 1]);
    }
}

/// Handing the freed slot on keeps the invariant.
proof fn lemma_promote_wf(v: PresView, s: usize)
    requires
        wf(v),
        s < INTAKE_WINDOW,
        v.slots[s as int] is None,
    ensures
        wf(promote(v, s)),
        promote(v, s).cards.len() == v.cards.len(),
    decreases v.cards.len() - v.next_backlog,
{
    if v.next_backlog >= v.cards.len() || v.next_backlog == usize::MAX {
    } else {
        let i = v.next_backlog as int;
        let moved = PresView { next_backlog: (v.next_backlog + 1) as usize, ..v };
        let c = v.cards[i];
        if c.visual != IntakeVisual::Backlog {
            lemma_promote_wf(moved, s);
        } else if terminal(c.work) {
            lemma_waiting_update(v.cards, i, IntakeCard { visual: IntakeVisual::Gone, ..c });
            let next = PresView {
                cards: v.cards.update(i, IntakeCard { visual: IntakeVisual::Gone, ..c }),
                backlog: sat_dec(v.backlog),
                ..moved
            };
            assert(wf(next));
            lemma_promote_wf(next, s);
        } else {
            let placed = IntakeCard { slot: Some(s), visual: IntakeVisual::Visible, ..c };
            lemma_waiting_update(v.cards, i, placed);
            let r = promote(v, s);
            assert forall|t: int| 0 <= t < INTAKE_WINDOW implies (#[trigger] r.slots[t] matches Some(j)
                ==> j < r.cards.len() && r.cards[j as int].slot == Some(t as usize)) by {
                if t != s {
                    if let Some(j) = v.slots[t] {
                        assert(v.cards[j as int].slot == Some(t as usize));
                        assert(j != i);
                    }
                }
            }
            assert forall|j: int| 0 <= j < r.cards.len() implies (#[trigger] r.cards[j].slot matches Some(t)
                ==> t < INTAKE_WINDOW && r.slots[t as int] == Some(j as usize)) by {
                if j != i {
                    if let Some(t) = v.cards[j].slot {
                        assert(v.slots[t as int] == Some(j as usize));
                    }
                }
            }
            assert(wf(r));
        }
    }
}

/// Ending a card's feedback keeps the invariant.
pub proof fn lemma_finish_wf(v: PresView, key: u64)
    requires
        wf(v),
    ensures
        wf(finish_spec(v, key).0),
        finish_spec(v, key).0.cards.len() == v.cards.len(),
{
    if v.phase == IntakePhase::Running && key != 0 {
        let index = ((key - 1) as u64) as usize as int;
        if index < v.cards.len() {
            let card = v.cards[index];
            if card.key == key && card.visual == IntakeVisual::Feedback {
                if let Some(s) = card.slot {
                    let gone = IntakeCard { visual: IntakeVisual::Gone, slot: None, ..card };
                    lemma_waiting_update(v.cards, index, gone);
                    let freed = PresView {
                        cards: v.cards.update(index, gone),
                        slots: v.slots.update(s as int, None),
                        ..v
                    };
                    assert forall|t: int| 0 <= t < INTAKE_WINDOW implies (#[trigger] freed.slots[t] matches Some(j)
                        ==> j < freed.cards.len() && freed.cards[j as int].slot == Some(t as usize)) by {
                        if t != s {
                            if let Some(j) = v.slots[t] {
                                assert(v.cards[j as int].slot == Some(t as usize));
                            }
                        }
                    }
                    assert forall|j: int| 0 <= j < freed.cards.len() implies (#[trigger] freed.cards[j].slot matches Some(t)
                        ==> t < INTAKE_WINDOW && freed.slots[t as int] == Some(j as usize)) by {
                        if j != index {
                            if let Some(t) = v.cards[j].slot {
                                assert(v.slots[t as int] == Some(j as usize));
                                if t == s {
                                    assert(v.slots[s as int] == Some(index as usize));
                                }
                            }
                        }
                    }
                    assert(wf(freed));
                    lemma_promote_wf(freed, s);
                }
            }
        }
    }
}

// ------------------------------------------------------------ operations

impl IntakePresentation {
    /// A presentation of `batch`, synced once.
    pub fn new(batch: &IntakeBatch) -> (r: (Self, IntakeSync))
        requires
            batch@.items.len() < usize::MAX,
        ensures
            wf(r.0@),
            ({
                let start = PresView {
                    generation: batch@.generation,
                    counts: IntakeCounts { images: batch@.items.len() as usize, skipped: batch@.skipped },
                    phase: IntakePhase::Running,
                    cards: Seq::empty(),
                    done: 0,
                    succeeded: 0,
                    failed: 0,
                    slots: seq![None, None, None, None, None],
                    backlog: 0,
                    next_backlog: 0,
                };
                let (after, fb) = sync_go(start, batch@.items, batch@.items.len() as int);
                &&& r.0@ == after
                &&& r.1.feedback@ == fb
                &&& r.1.complete == (crate::intake::all_done(batch@.items) && !active_feedback(after))
            }),
    {
        let slots: Vec<Option<usize>> = vec![None, None, None, None, None];
        let mut p = IntakePresentation {
            generation: batch.generation_of(),
            counts: batch.counts(),
            phase: IntakePhase::Running,
            cards: Vec::new(),
            done: 0,
            succeeded: 0,
            failed: 0,
            slots,
            backlog: 0,
            next_backlog: 0,
        };
        assert(p@.slots =~= seq![None, None, None, None, None]);
        assert(p@.cards =~= Seq::<IntakeCard>::empty());
        let ghost start = PresView {
            generation: batch@.generation,
            counts: IntakeCounts { images: batch@.items.len() as usize, skipped: batch@.skipped },
            phase: IntakePhase::Running,
            cards: Seq::empty(),
            done: 0,
            succeeded: 0,
            failed: 0,
            slots: seq![None, None, None, None, None],
            backlog: 0,
            next_backlog: 0,
        };
        assert(p@ == start);
        assert(PresView { counts: IntakeCounts { images: batch@.items.len() as usize, skipped: batch@.skipped }, ..p@ } == start);
        let sync = p.sync(batch);
        (p, sync)
    }

    fn first_vacant_slot(&self) -> (r: Option<usize>)
        requires
            wf(self@),
        ensures
            r == first_free(self@.slots, 0),
    {
        let mut s: usize = 0;
        while s < self.slots.len()
            invariant
                s <= self.slots@.len(),
                first_free(self@.slots, 0) == first_free(self@.slots, s as int),
            decreases self.slots@.len() - s,
        {
            if self.slots[s].is_none() {
                return Some(s);
            }
            s += 1;
        }
        None
    }

    /// Brings the cards up to date with the batch; returns the feedback the
    /// finished cards raise and whether the batch is complete.
    pub fn sync(&mut self, batch: &IntakeBatch) -> (r: IntakeSync)
        requires
            wf(old(self)@),
            old(self)@.generation == batch@.generation,
            batch@.items.len() < usize::MAX,
            forall|i: int|
                0 <= i < old(self)@.cards.len() && i < batch@.items.len() ==> #[trigger] old(
                    self,
                )@.cards[i].key == batch@.items[i].key,
        ensures
            ({
                let start = PresView {
                    counts: IntakeCounts { images: batch@.items.len() as usize, skipped: batch@.skipped },
                    ..old(self)@
                };
                let (after, fb) = sync_go(start, batch@.items, batch@.items.len() as int);
                &&& final(self)@ == after
                &&& r.feedback@ == fb
                &&& r.complete == (crate::intake::all_done(batch@.items) && after.phase
                    == IntakePhase::Running && !active_feedback(after))
            }),
            wf(final(self)@),
            final(self)@.phase == old(self)@.phase,
    {
        let ghost items = batch@.items;
        self.counts = batch.counts();
        let ghost start = self@;
        self.done = 0;
        self.succeeded = 0;
        self.failed = 0;
        let mut feedback: Vec<IntakeFeedback> = Vec::new();
        let mut index: usize = 0;
        proof {
            lemma_sync_wf(start, items, 0);
        }
        assert(self@ == sync_go(start, items, 0).0);
        let n = batch.item_count();
        while index < n
            invariant
                items == batch@.items,
                n == items.len(),
                index <= items.len(),
                items.len() < usize::MAX,
                wf(start),
                start.cards.len() <= usize::MAX,
                (self@, feedback@) == sync_go(start, items, index as int),
                wf(self@),
                self@.cards.len() == if index <= start.cards.len() {
                    start.cards.len() as int
                } else {
                    index as int
                },
                self.done <= index,
                self.succeeded <= index,
                self.failed <= index,
            decreases items.len() - index,
        {
            let (item_key, item_id, item_work) = batch.item_state(index);
            proof {
                lemma_sync_wf(start, items, index + 1);
                lemma_step_wf(self@, index as int, items[index as int]);
            }
            let terminal_now = item_work.is_terminal();
            if index < self.cards.len() {
                let card = self.cards[index];
                let became = !card.work.is_terminal() && terminal_now;
                let mut updated = card;
                updated.id = item_id;
                updated.work = item_work;
                if became && card.visual == IntakeVisual::Visible {
                    updated.visual = IntakeVisual::Feedback;
                    feedback.push(IntakeFeedback { key: card.key, succeeded: item_work == IntakeWork::Succeeded });
                } else if became && card.visual == IntakeVisual::Backlog {
                    updated.visual = IntakeVisual::Gone;
                    self.backlog = self.backlog.saturating_sub(1);
                }
                self.cards.set(index, updated);
            } else {
                let slot = self.first_vacant_slot();
                let visual = match slot {
                    Some(_) => if terminal_now {
                        IntakeVisual::Feedback
                    } else {
                        IntakeVisual::Visible
                    },
                    None => if terminal_now {
                        IntakeVisual::Gone
                    } else {
                        IntakeVisual::Backlog
                    },
                };
                proof {
                    lemma_waiting_le(self@.cards);
                }
                let card_index = self.cards.len();
                self.cards.push(IntakeCard { key: item_key, id: item_id, work: item_work, visual, slot });
                if let Some(s) = slot {
                    proof {
                        lemma_first_free(self@.slots, 0);
                    }
                    self.slots.set(s, Some(card_index));
                } else if visual == IntakeVisual::Backlog {
                    self.backlog = self.backlog + 1;
                }
                if visual == IntakeVisual::Feedback {
                    feedback.push(IntakeFeedback { key: item_key, succeeded: item_work == IntakeWork::Succeeded });
                }
            }
            if terminal_now {
                self.done = self.done + 1;
            }
            if item_work == IntakeWork::Succeeded {
                self.succeeded = self.succeeded + 1;
            }
            if item_work == IntakeWork::Failed {
                self.failed = self.failed + 1;
            }
            index += 1;
            assert(self@ =~= sync_go(start, items, index as int).0);
        }
        proof {
            lemma_sync_wf(start, items, index as int);
        }
        let complete = batch.all_terminal() && self.phase == IntakePhase::Running
            && !self.has_active_feedback();
        IntakeSync { feedback, complete }
    }

    fn has_active_feedback(&self) -> (b: bool)
        requires
            wf(self@),
        ensures
            b == active_feedback(self@),
    {
        let mut s: usize = 0;
        while s < self.slots.len()
            invariant
                wf(self@),
                s <= self.slots@.len(),
                forall|t: int|
                    0 <= t < s ==> !(#[trigger] self@.slots[t] matches Some(i) && 0 <= i
                        < self@.cards.len() && self@.cards[i as int].visual == IntakeVisual::Feedback),
            decreases self.slots@.len() - s,
        {
            if let Some(i) = self.slots[s] {
                if self.cards[i].visual == IntakeVisual::Feedback {
                    assert(self@.slots[s as int] matches Some(j) && 0 <= j < self@.cards.len()
                        && self@.cards[j as int].visual == IntakeVisual::Feedback);
                    return true;
                }
            }
            s += 1;
        }
        false
    }

    /// Ends the feedback of card `key`; the freed slot goes to the next card
    /// waiting that is not finished. `false` outside the running phase or for
    /// a card not showing feedback.
    pub fn finish_feedback_and_promote(&mut self, key: u64) -> (done: bool)
        requires
            wf(old(self)@),
        ensures
            (final(self)@, done) == finish_spec(old(self)@, key),
            wf(final(self)@),
    {
        proof {
            lemma_finish_wf(self@, key);
        }
        if self.phase != IntakePhase::Running || key == 0 {
            return false;
        }
        let index = (key - 1) as usize;
        if index >= self.cards.len() {
            return false;
        }
        let mut card = self.cards[index];
        if card.key != key || card.visual != IntakeVisual::Feedback {
            return false;
        }
        card.visual = IntakeVisual::Gone;
        let slot = match card.slot {
            None => {
                self.cards.set(index, card);
                return false;
            },
            Some(s) => s,
        };
        card.slot = None;
        self.cards.set(index, card);
        self.slots.set(slot, None);
        loop
            invariant_except_break
                slot < INTAKE_WINDOW,
                self@.slots.len() == INTAKE_WINDOW,
                self@.cards.len() <= usize::MAX,
                self@.next_backlog <= self@.cards.len(),
                promote(self@, slot) == finish_spec(old(self)@, key).0,
            ensures
                self@ == finish_spec(old(self)@, key).0,
            decreases self@.cards.len() - self@.next_backlog,
        {
            if self.next_backlog >= self.cards.len() {
                break;
            }
            let i = self.next_backlog;
            self.next_backlog = self.next_backlog + 1;
            let replacement = self.cards[i];
            if replacement.visual != IntakeVisual::Backlog {
                continue;
            }
            self.backlog = self.backlog.saturating_sub(1);
            if replacement.work.is_terminal() {
                let mut gone = replacement;
                gone.visual = IntakeVisual::Gone;
                self.cards.set(i, gone);
                continue;
            }
            let mut placed = replacement;
            placed.slot = Some(slot);
            placed.visual = IntakeVisual::Visible;
            self.cards.set(i, placed);
            self.slots.set(slot, Some(i));
            break;
        }
        true
    }

    /// Cards waiting for a slot.
    pub fn backlog_count(&self) -> (n: usize)
        ensures
            n == self@.backlog,
    {
        self.backlog
    }

    /// Whether every image is done and no card still shows feedback.
    pub fn ready_to_complete(&self) -> (b: bool)
        requires
            wf(self@),
        ensures
            b == (self@.counts.images > 0 && self@.done == self@.counts.images && !active_feedback(self@)),
    {
        self.counts.images > 0 && self.done == self.counts.images && !self.has_active_feedback()
    }

    /// (done, total).
    pub fn progress(&self) -> (r: (usize, usize))
        ensures
            r == (self@.done, self@.counts.images),
    {
        (self.done, self.counts.images)
    }

    /// (succeeded, failed).
    pub fn results(&self) -> (r: (usize, usize))
        ensures
            r == (self@.succeeded, self@.failed),
    {
        (self.succeeded, self.failed)
    }

    /// The cards.
    pub fn cards(&self) -> (c: &[IntakeCard])
        ensures
            c@ == self@.cards,
    {
        self.cards.as_slice()
    }

    /// The cards on the reel, with their slots, slot by slot.
    pub fn visible_cards(&self) -> (out: Vec<(usize, IntakeCard)>)
        requires
            wf(self@),
        ensures
            out@ == visible_spec(self@),
            out@.len() <= INTAKE_WINDOW,
            forall|k: int|
                0 <= k < out@.len() ==> (self@.slots[#[trigger] out@[k].0 as int] matches Some(i)
                    && self@.cards[i as int] == out@[k].1),
    {
        let mut out: Vec<(usize, IntakeCard)> = Vec::new();
        let mut s: usize = 0;
        while s < self.slots.len()
            invariant
                wf(self@),
                s <= self.slots@.len(),
                out@ == visible_upto(self@, s as int),
                out@.len() <= s,
                forall|k: int|
                    0 <= k < out@.len() ==> (self@.slots[#[trigger] out@[k].0 as int] matches Some(i)
                        && self@.cards[i as int] == out@[k].1),
            decreases self.slots@.len() - s,
        {
            if let Some(i) = self.slots[s] {
                out.push((s, self.cards[i]));
            }
            s += 1;
        }
        out
    }

    /// For each card on the reel that has a document: its id and the seed
    /// of its paper.
    pub fn paper_jobs(&self) -> (out: Vec<(u128, u64)>)
        requires
            wf(self@),
        ensures
            out@ == jobs_upto(visible_spec(self@), self@.generation, visible_spec(self@).len() as int),
            out@.len() <= INTAKE_WINDOW,
    {
        let cards = self.visible_cards();
        let mut out: Vec<(u128, u64)> = Vec::new();
        let mut k: usize = 0;
        while k < cards.len()
            invariant
                k <= cards@.len(),
                cards@.len() <= INTAKE_WINDOW,
                out@ == jobs_upto(cards@, self@.generation, k as int),
                out@.len() <= k,
            decreases cards@.len() - k,
        {
            let (slot, card) = cards[k];
            if let Some(id) = card.id {
                out.push((id, crate::paper::paper_seed(self.generation, card.key, slot)));
            }
            k += 1;
        }
        out
    }
}

/// The cards on the first `n` slots, with their slots, slot by slot.
pub open spec fn visible_upto(v: PresView, n: int) -> Seq<(usize, IntakeCard)>
    decreases n,
{
    if n <= 0 {
        Seq::empty()
    } else {
        let rest = visible_upto(v, n - 1);
        match v.slots[n - 1] {
            Some(i) => rest.push(((n - 1) as usize, v.cards[i as int])),
            None => rest,
        }
    }
}

/// The cards on the reel, with their slots, slot by slot.
pub open spec fn visible_spec(v: PresView) -> Seq<(usize, IntakeCard)> {
    visible_upto(v, v.slots.len() as int)
}

/// Of the first `n` visible cards, those with a document: its id and the
/// seed of its paper.
pub open spec fn jobs_upto(cards: Seq<(usize, IntakeCard)>, generation: u64, n: int) -> Seq<(u128, u64)>
    decreases n,
{
    if n <= 0 {
        Seq::empty()
    } else {
        let rest = jobs_upto(cards, generation, n - 1);
        let (slot, card) = cards[n - 1];
        match card.id {
            Some(id) => rest.push((id, crate::paper::paper_seed_spec(generation, card.key, slot as u64))),
            None => rest,
        }
    }
}

// ------------------------------------------------------------ copy

/// How a status line is shown.
#[derive(Clone, Copy, Debug, PartialEq, Eq, Structural)]
pub enum StatusKind {
    Ready,
    Busy,
    Error,
}

/// Whether the overlay shows a drag over the window or a drop being taken.
#[derive(Clone, Copy, Debug, PartialEq, Eq, Structural)]
pub enum IntakeKind {
    Hover,
    Flash,
}

pub open spec fn min_usize(a: int, b: int) -> int {
    if a < b {
        a
    } else {
        b
    }
}

/// The status line of a presentation.
pub open spec fn status_spec(v: PresView) -> (StatusKind, Seq<char>) {
    let total = v.counts.images as nat;
    if v.counts.images == 0 {
        (StatusKind::Error, "No images in this drop"@)
    } else if v.phase != IntakePhase::Running {
        if v.failed == 0 {
            (StatusKind::Ready, "Recognized "@ + dec(total))
        } else {
            (
                StatusKind::Error,
                "Recognized "@ + dec(v.succeeded as nat) + " of "@ + dec(total) + " · "@ + dec(
                    v.failed as nat,
                ) + " failed"@,
            )
        }
    } else {
        (
            StatusKind::Busy,
            "Recognizing "@ + dec(min_usize(v.done + 1, total as int) as nat) + " of "@ + dec(total),
        )
    }
}

/// The line under the count of a drop.
pub open spec fn count_line_spec(counts: IntakeCounts) -> Seq<char> {
    if counts.images == 0 {
        "Only PNG, JPEG, and WebP are recognized."@
    } else if counts.images == 1 {
        "1 image will be recognized."@
    } else {
        dec(counts.images as nat) + " images will be recognized."@
    }
}

/// The title and line of the intake overlay.
pub open spec fn intake_copy_spec(kind: IntakeKind, counts: IntakeCounts, batch: Option<PresView>) -> (
    Seq<char>,
    Seq<char>,
) {
    match batch {
        Some(v) => if v.counts.images == 0 {
            ("No images"@, "Only PNG, JPEG, and WebP are recognized."@)
        } else if v.phase != IntakePhase::Running {
            let total = v.counts.images as nat;
            let sub = if v.failed == 0 {
                if total == 1 {
                    "1 image recognized"@
                } else {
                    dec(total) + " images recognized"@
                }
            } else {
                dec(v.succeeded as nat) + " of "@ + dec(total) + " images recognized · "@ + dec(
                    v.failed as nat,
                ) + " failed"@
            };
            ("Complete"@, sub)
        } else {
            let total = v.counts.images as int;
            ("Recognizing"@, dec(min_usize(v.done + 1, total) as nat) + " of "@ + dec(total as nat))
        },
        None => if counts.images == 0 {
            ("No images"@, "Only PNG, JPEG, and WebP are recognized."@)
        } else {
            match kind {
                IntakeKind::Hover => ("Drop to recognize"@, count_line_spec(counts)),
                IntakeKind::Flash => ("Recognizing"@, count_line_spec(counts)),
            }
        },
    }
}

fn dec_usize(n: usize) -> (out: Vec<char>)
    ensures
        out@ == dec(n as nat),
{
    dec_exec(n as u64)
}

/// The line under the count of a drop.
pub fn count_line(counts: IntakeCounts) -> (out: String)
    ensures
        out@ == count_line_spec(counts),
{
    if counts.images == 0 {
        String::from_str("Only PNG, JPEG, and WebP are recognized.")
    } else if counts.images == 1 {
        String::from_str("1 image will be recognized.")
    } else {
        let mut out = dec_usize(counts.images);
        crate::text::push_str(&mut out, " images will be recognized.");
        string_of(&out)
    }
}

/// "Recognizing n of total" as the overlay line: the next one, capped.
fn running_line(done: usize, total: usize) -> (out: Vec<char>)
    ensures
        out@ == dec(min_usize(done + 1, total as int) as nat) + " of "@ + dec(total as nat),
{
    let current: usize = if done < total { done + 1 } else { total };
    let mut out = dec_usize(current);
    crate::text::push_str(&mut out, " of ");
    let t = dec_usize(total);
    push_all(&mut out, &t);
    out
}

impl IntakePresentation {
    /// The status line: a drop without images, the outcome once done, or
    /// which image is being recognized.
    pub fn status(&self) -> (r: (StatusKind, String))
        ensures
            (r.0, r.1@) == status_spec(self@),
    {
        let total = self.counts.images;
        if total == 0 {
            return (StatusKind::Error, String::from_str("No images in this drop"));
        }
        if self.phase != IntakePhase::Running {
            if self.failed == 0 {
                let mut out: Vec<char> = Vec::new();
                crate::text::push_str(&mut out, "Recognized ");
                let t = dec_usize(total);
                push_all(&mut out, &t);
                return (StatusKind::Ready, string_of(&out));
            }
            let mut out: Vec<char> = Vec::new();
            crate::text::push_str(&mut out, "Recognized ");
            let a = dec_usize(self.succeeded);
            push_all(&mut out, &a);
            crate::text::push_str(&mut out, " of ");
            let t = dec_usize(total);
            push_all(&mut out, &t);
            crate::text::push_str(&mut out, " · ");
            let f = dec_usize(self.failed);
            push_all(&mut out, &f);
            crate::text::push_str(&mut out, " failed");
            return (StatusKind::Error, string_of(&out));
        }
        let mut out: Vec<char> = Vec::new();
        crate::text::push_str(&mut out, "Recognizing ");
        let line = running_line(self.done, total);
        push_all(&mut out, &line);
        (StatusKind::Busy, string_of(&out))
    }
}

/// The title and line of the intake overlay, from the batch when one runs,
/// else from the counts of the drag.
pub fn intake_copy(kind: IntakeKind, counts: IntakeCounts, batch: Option<&IntakePresentation>) -> (r: (
    String,
    String,
))
    ensures
        (r.0@, r.1@) == intake_copy_spec(
            kind,
            counts,
            match batch {
                Some(b) => Some(b@),
                None => None,
            },
        ),
{
    match batch {
        Some(b) => {
            let total = b.counts.images;
            if total == 0 {
                return (
                    String::from_str("No images"),
                    String::from_str("Only PNG, JPEG, and WebP are recognized."),
                );
            }
            if b.phase != IntakePhase::Running {
                let sub = if b.failed == 0 {
                    if total == 1 {
                        String::from_str("1 image recognized")
                    } else {
                        let mut out = dec_usize(total);
                        crate::text::push_str(&mut out, " images recognized");
                        string_of(&out)
                    }
                } else {
                    let mut out = dec_usize(b.succeeded);
                    crate::text::push_str(&mut out, " of ");
                    let t = dec_usize(total);
                    push_all(&mut out, &t);
                    crate::text::push_str(&mut out, " images recognized · ");
                    let f = dec_usize(b.failed);
                    push_all(&mut out, &f);
                    crate::text::push_str(&mut out, " failed");
                    string_of(&out)
                };
                return (String::from_str("Complete"), sub);
            }
            let line = running_line(b.done, total);
            (String::from_str("Recognizing"), string_of(&line))
        },
        None => {
            if counts.images == 0 {
                return (
                    String::from_str("No images"),
                    String::from_str("Only PNG, JPEG, and WebP are recognized."),
                );
            }
            let sub = count_line(counts);
            match kind {
                IntakeKind::Hover => (String::from_str("Drop to recognize"), sub),
                IntakeKind::Flash => (String::from_str("Recognizing"), sub),
            }
        },
    }
}

} // verus!
