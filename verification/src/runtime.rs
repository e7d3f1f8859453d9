//! Per-document flags for work in flight: thumbnails, block loads, image
//! loads and persist retries.

use vstd::prelude::*;
use std::collections::HashMap;

verus! {

broadcast use vstd::std_specs::hash::group_hash_axioms;

/// Flags kept for one document. Documents are keyed by their id as a `u128`.
#[derive(Clone, Copy, Debug, PartialEq, Eq, Structural)]
pub struct DocRuntime {
    pub thumb_inflight: bool,
    pub thumb_failed: bool,
    pub blocks_inflight: bool,
    pub png_inflight: bool,
    pub persist_retry_count: u8,
    pub persist_retry_pending: bool,
}

/// The flags of a document nothing has happened to.
pub open spec fn idle() -> DocRuntime {
    DocRuntime {
        thumb_inflight: false,
        thumb_failed: false,
        blocks_inflight: false,
        png_inflight: false,
        persist_retry_count: 0,
        persist_retry_pending: false,
    }
}

fn idle_exec() -> (r: DocRuntime)
    ensures
        r == idle(),
{
    DocRuntime {
        thumb_inflight: false,
        thumb_failed: false,
        blocks_inflight: false,
        png_inflight: false,
        persist_retry_count: 0,
        persist_retry_pending: false,
    }
}

/// The flags of `id`: those stored, or the idle ones.
pub open spec fn entry(m: Map<u128, DocRuntime>, id: u128) -> DocRuntime {
    if m.contains_key(id) {
        m[id]
    } else {
        idle()
    }
}

/// Seconds to wait before persist retry number `count` (1, 2, 4).
pub open spec fn retry_delay(count: u8) -> u64 {
    if count <= 1 {
        1
    } else if count == 2 {
        2
    } else {
        4
    }
}

pub struct DocumentRuntime {
    runtime: HashMap<u128, DocRuntime>,
}

impl View for DocumentRuntime {
    type V = Map<u128, DocRuntime>;

    closed spec fn view(&self) -> Map<u128, DocRuntime> {
        self.runtime@
    }
}

impl DocumentRuntime {
    pub fn new() -> (r: Self)
        ensures
            r@ == Map::<u128, DocRuntime>::empty(),
    {
        DocumentRuntime { runtime: HashMap::new() }
    }

    fn get(&self, id: u128) -> (r: DocRuntime)
        ensures
            r == entry(self@, id),
    {
        match self.runtime.get(&id) {
            Some(rt) => *rt,
            None => idle_exec(),
        }
    }

    /// Forgets everything about `id`.
    pub fn drop_doc(&mut self, id: u128)
        ensures
            final(self)@ == old(self)@.remove(id),
    {
        self.runtime.remove(&id);
    }

    /// Forgets every document.
    pub fn clear_docs(&mut self)
        ensures
            final(self)@ == Map::<u128, DocRuntime>::empty(),
    {
        self.runtime.clear();
    }

    /// Whether a thumbnail must not be requested: one is in flight or failed.
    pub fn thumb_blocked(&self, id: u128) -> (b: bool)
        ensures
            b == (entry(self@, id).thumb_inflight || entry(self@, id).thumb_failed),
    {
        let rt = self.get(id);
        rt.thumb_inflight || rt.thumb_failed
    }

    pub fn start_thumb(&mut self, id: u128)
        ensures
            final(self)@ == old(self)@.insert(id, DocRuntime { thumb_inflight: true, ..entry(old(self)@, id) }),
    {
        let mut rt = self.get(id);
        rt.thumb_inflight = true;
        self.runtime.insert(id, rt);
    }

    pub fn finish_thumb(&mut self, id: u128)
        ensures
            old(self)@.contains_key(id) ==> final(self)@ == old(self)@.insert(
                id,
                DocRuntime { thumb_inflight: false, ..old(self)@[id] },
            ),
            !old(self)@.contains_key(id) ==> final(self)@ == old(self)@,
    {
        if let Some(rt) = self.runtime.get(&id) {
            let mut next = *rt;
            next.thumb_inflight = false;
            self.runtime.insert(id, next);
        }
    }

    pub fn fail_thumb(&mut self, id: u128)
        ensures
            final(self)@ == old(self)@.insert(
                id,
                DocRuntime { thumb_inflight: false, thumb_failed: true, ..entry(old(self)@, id) },
            ),
    {
        let mut rt = self.get(id);
        rt.thumb_inflight = false;
        rt.thumb_failed = true;
        self.runtime.insert(id, rt);
    }

    pub fn thumb_failed(&self, id: u128) -> (b: bool)
        ensures
            b == entry(self@, id).thumb_failed,
    {
        self.get(id).thumb_failed
    }

    /// Marks a block load as started; `false` when one is already in flight.
    pub fn start_blocks(&mut self, id: u128) -> (started: bool)
        ensures
            started == !entry(old(self)@, id).blocks_inflight,
            final(self)@ == old(self)@.insert(
                id,
                DocRuntime { blocks_inflight: true, ..entry(old(self)@, id) },
            ),
    {
        let mut rt = self.get(id);
        let started = !rt.blocks_inflight;
        rt.blocks_inflight = true;
        self.runtime.insert(id, rt);
        started
    }

    pub fn finish_blocks(&mut self, id: u128)
        ensures
            old(self)@.contains_key(id) ==> final(self)@ == old(self)@.insert(
                id,
                DocRuntime { blocks_inflight: false, ..old(self)@[id] },
            ),
            !old(self)@.contains_key(id) ==> final(self)@ == old(self)@,
    {
        if let Some(rt) = self.runtime.get(&id) {
            let mut next = *rt;
            next.blocks_inflight = false;
            self.runtime.insert(id, next);
        }
    }

    /// Marks an image load as started; `false` when one is already in flight.
    pub fn start_png(&mut self, id: u128) -> (started: bool)
        ensures
            started == !entry(old(self)@, id).png_inflight,
            final(self)@ == old(self)@.insert(
                id,
                DocRuntime { png_inflight: true, ..entry(old(self)@, id) },
            ),
    {
        let mut rt = self.get(id);
        let started = !rt.png_inflight;
        rt.png_inflight = true;
        self.runtime.insert(id, rt);
        started
    }

    pub fn finish_png(&mut self, id: u128)
        ensures
            old(self)@.contains_key(id) ==> final(self)@ == old(self)@.insert(
                id,
                DocRuntime { png_inflight: false, ..old(self)@[id] },
            ),
            !old(self)@.contains_key(id) ==> final(self)@ == old(self)@,
    {
        if let Some(rt) = self.runtime.get(&id) {
            let mut next = *rt;
            next.png_inflight = false;
            self.runtime.insert(id, next);
        }
    }

    /// Schedules a persist retry and returns its delay in seconds (1, 2, then
    /// 4); `None` while one is pending or after three.
    pub fn begin_persist_retry(&mut self, id: u128) -> (delay: Option<u64>)
        ensures
            ({
                let old_rt = entry(old(self)@, id);
                if old_rt.persist_retry_pending || old_rt.persist_retry_count >= 3 {
                    delay is None && final(self)@ == old(self)@.insert(id, old_rt)
                } else {
                    let count = (old_rt.persist_retry_count + 1) as u8;
                    &&& delay == Some(retry_delay(count))
                    &&& final(self)@ == old(self)@.insert(
                        id,
                        DocRuntime {
                            persist_retry_count: count,
                            persist_retry_pending: true,
                            ..old_rt
                        },
                    )
                }
            }),
    {
        let mut rt = self.get(id);
        if rt.persist_retry_pending || rt.persist_retry_count >= 3 {
            self.runtime.insert(id, rt);
            return None;
        }
        rt.persist_retry_count = rt.persist_retry_count + 1;
        rt.persist_retry_pending = true;
        self.runtime.insert(id, rt);
        let secs: u64 = if rt.persist_retry_count == 1 {
            1
        } else if rt.persist_retry_count == 2 {
            2
        } else {
            4
        };
        Some(secs)
    }

    /// Marks the pending retry as run; whether one was pending.
    pub fn finish_persist_retry(&mut self, id: u128) -> (was: bool)
        ensures
            was == (old(self)@.contains_key(id) && old(self)@[id].persist_retry_pending),
            old(self)@.contains_key(id) ==> final(self)@ == old(self)@.insert(
                id,
                DocRuntime { persist_retry_pending: false, ..old(self)@[id] },
            ),
            !old(self)@.contains_key(id) ==> final(self)@ == old(self)@,
    {
        if let Some(rt) = self.runtime.get(&id) {
            let mut next = *rt;
            let was = next.persist_retry_pending;
            next.persist_retry_pending = false;
            self.runtime.insert(id, next);
            was
        } else {
            false
        }
    }

    /// Resets the retry budget of `id`.
    pub fn clear_persist_retry(&mut self, id: u128)
        ensures
            old(self)@.contains_key(id) ==> final(self)@ == old(self)@.insert(
                id,
                DocRuntime { persist_retry_count: 0, persist_retry_pending: false, ..old(self)@[id] },
            ),
            !old(self)@.contains_key(id) ==> final(self)@ == old(self)@,
    {
        if let Some(rt) = self.runtime.get(&id) {
            let mut next = *rt;
            next.persist_retry_count = 0;
            next.persist_retry_pending = false;
            self.runtime.insert(id, next);
        }
    }
}

/// Dropping a document clears every flag it had: afterwards it reads as a
/// document nothing has happened to.
pub proof fn lemma_drop_clears_flags(m: Map<u128, DocRuntime>, id: u128)
    ensures
        entry(m.remove(id), id) == idle(),
{
}

/// Dropping a document leaves the flags of every other document alone.
pub proof fn lemma_drop_keeps_others(m: Map<u128, DocRuntime>, id: u128, other: u128)
    requires
        other != id,
    ensures
        entry(m.remove(id), other) == entry(m, other),
{
}

} // verus!
