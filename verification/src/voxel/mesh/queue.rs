//! The queue of chunks waiting to be re-meshed: changed chunks are queued
//! once each, oldest first, and a bounded batch is meshed per frame.

use std::collections::VecDeque;

use bevy_platform::collections::HashSet;
use bevy_platform::hash::FixedHasher;
use vstd::prelude::*;

use crate::math::IVec3;

verus! {

/// How many queued chunks are meshed per frame.
pub const PER_FRAME: usize = 16;

/// A queued chunk: the id of the world it belongs to and its position.
pub type QueuedChunk = (u64, IVec3);

/// The queue after the first `n` changed chunks of a world are offered to
/// it: each is appended unless it is already queued.
pub open spec fn queue_after(q: Seq<QueuedChunk>, world: u64, changed: Seq<IVec3>, n: nat) -> Seq<QueuedChunk>
    decreases n,
{
    if n == 0 {
        q
    } else {
        let prev = queue_after(q, world, changed, (n - 1) as nat);
        let e = (world, changed[n - 1]);
        if prev.contains(e) {
            prev
        } else {
            prev.push(e)
        }
    }
}

/// Queued chunks, as a set.
pub type QueuedSet = HashSet<QueuedChunk, FixedHasher>;

/// What a set of queued chunks holds.
pub uninterp spec fn queued_set_entries(s: QueuedSet) -> Set<QueuedChunk>;

/// `HashSet::new`: an empty set.
#[verifier::external_body]
fn queued_set_new() -> (r: QueuedSet)
    ensures
        queued_set_entries(r) =~= Set::empty(),
{
    HashSet::new()
}

/// `HashSet::contains`: whether the entry is in the set.
#[verifier::external_body]
fn queued_set_contains(s: &QueuedSet, e: QueuedChunk) -> (r: bool)
    ensures
        r == queued_set_entries(*s).contains(e),
{
    s.contains(&e)
}

/// `HashSet::insert`: the entry is now in the set, the others stay.
#[verifier::external_body]
fn queued_set_insert(s: &mut QueuedSet, e: QueuedChunk)
    ensures
        queued_set_entries(*final(s)) == queued_set_entries(*old(s)).insert(e),
{
    s.insert(e);
}

/// `HashSet::remove`: the entry is no longer in the set, the others stay.
#[verifier::external_body]
fn queued_set_remove(s: &mut QueuedSet, e: QueuedChunk)
    ensures
        queued_set_entries(*final(s)) == queued_set_entries(*old(s)).remove(e),
{
    s.remove(&e);
}

/// How many entries a frame takes from a queue of `len` entries.
pub open spec fn batch_len(len: int) -> int {
    if len < PER_FRAME {
        len
    } else {
        PER_FRAME as int
    }
}

/// Chunks waiting to be re-meshed, oldest first, none twice.
pub struct MeshQueue {
    queue: VecDeque<QueuedChunk>,
    /// The queued entries, for the membership test.
    dedup: QueuedSet,
}

impl MeshQueue {
    /// The queued chunks, oldest first.
    pub closed spec fn entries(&self) -> Seq<QueuedChunk> {
        self.queue@
    }

    /// Whether the membership set holds exactly the queued entries.
    pub closed spec fn dedup_agrees(&self) -> bool {
        forall|e: QueuedChunk| #[trigger] queued_set_entries(self.dedup).contains(e) <==> self.queue@.contains(e)
    }

    /// No chunk is queued twice, and the membership set agrees with the
    /// queue.
    pub open spec fn wf(&self) -> bool {
        self.entries().no_duplicates() && self.dedup_agrees()
    }

    pub fn new() -> (r: Self)
        ensures
            r.wf(),
            r.entries() == Seq::<QueuedChunk>::empty(),
    {
        MeshQueue { queue: VecDeque::new(), dedup: queued_set_new() }
    }

    /// Whether a chunk is queued.
    pub fn contains(&self, world: u64, chunk: IVec3) -> (r: bool)
        requires
            self.wf(),
        ensures
            r == self.entries().contains((world, chunk)),
    {
        queued_set_contains(&self.dedup, (world, chunk))
    }

    /// Queue the changed chunks of a world, each unless it is already
    /// queued.
    pub fn push_changed(&mut self, world: u64, changed: &[IVec3])
        requires
            old(self).wf(),
        ensures
            final(self).wf(),
            final(self).entries() == queue_after(old(self).entries(), world, changed@, changed@.len()),
    {
        let mut i: usize = 0;
        while i < changed.len()
            invariant
                i <= changed@.len(),
                self.wf(),
                self.entries() == queue_after(old(self).entries(), world, changed@, i as nat),
            decreases changed@.len() - i,
        {
            let chunk = changed[i];
            if !self.contains(world, chunk) {
                let ghost before = self.entries();
                self.queue.push_back((world, chunk));
                queued_set_insert(&mut self.dedup, (world, chunk));
                proof {
                    assert(self.entries() == before.push((world, chunk)));
                    assert forall|a: int, b: int| 0 <= a < b < self.entries().len() implies self.entries()[a]
                        != self.entries()[b] by {
                        if b == before.len() {
                            assert(before.contains(before[a]));
                        }
                    }
                    assert forall|e: QueuedChunk| #[trigger] queued_set_entries(self.dedup).contains(e)
                        <==> self.queue@.contains(e) by {
                        if e != (world, chunk) && self.queue@.contains(e) {
                            let j = choose|j: int| 0 <= j < self.queue@.len() && self.queue@[j] == e;
                            assert(j < before.len());
                            assert(before[j] == e);
                        }
                        if before.contains(e) {
                            let j = choose|j: int| 0 <= j < before.len() && before[j] == e;
                            assert(self.queue@[j] == e);
                        }
                        if e == (world, chunk) {
                            assert(self.queue@[before.len() as int] == e);
                        }
                    }
                }
            }
            i += 1;
        }
    }

    /// Take this frame's batch: the oldest `PER_FRAME` chunks, or all of
    /// them when fewer are queued.
    pub fn pop_batch(&mut self) -> (r: Vec<QueuedChunk>)
        requires
            old(self).wf(),
        ensures
            final(self).wf(),
            r@ == old(self).entries().take(batch_len(old(self).entries().len() as int)),
            final(self).entries() == old(self).entries().skip(batch_len(old(self).entries().len() as int)),
    {
        let mut batch: Vec<QueuedChunk> = Vec::new();
        let mut pop_count: usize = 0;
        while pop_count < PER_FRAME
            invariant_except_break
                pop_count <= PER_FRAME,
                pop_count <= old(self).entries().len(),
                batch@ == old(self).entries().take(pop_count as int),
                self.entries() == old(self).entries().skip(pop_count as int),
            invariant
                old(self).entries().no_duplicates(),
                self.dedup_agrees(),
            ensures
                batch@ == old(self).entries().take(batch_len(old(self).entries().len() as int)),
                self.entries() == old(self).entries().skip(batch_len(old(self).entries().len() as int)),
            decreases PER_FRAME - pop_count,
        {
            let ghost before = self.entries();
            match self.queue.pop_front() {
                Some(entry) => {
                    proof {
                        assert(before.len() > 0);
                        assert(entry == before[0]);
                        assert(old(self).entries()[pop_count as int] == entry);
                        assert(old(self).entries().take(pop_count + 1) =~= old(self).entries().take(
                            pop_count as int,
                        ).push(entry));
                        assert(self.entries() =~= old(self).entries().skip(pop_count + 1));
                    }
                    queued_set_remove(&mut self.dedup, entry);
                    proof {
                        let s = old(self).entries();
                        assert forall|e: QueuedChunk| #[trigger] queued_set_entries(self.dedup).contains(e)
                            <==> self.queue@.contains(e) by {
                            if self.queue@.contains(e) {
                                let j = choose|j: int| 0 <= j < self.queue@.len() && self.queue@[j] == e;
                                assert(before[j + 1] == e);
                                assert(before.contains(e));
                                assert(s[pop_count + 1 + j] == e);
                                assert(s[pop_count as int] == entry);
                                assert(e != entry);
                            }
                            if before.contains(e) && e != entry {
                                let j = choose|j: int| 0 <= j < before.len() && before[j] == e;
                                assert(j != 0);
                                assert(self.queue@[j - 1] == e);
                            }
                        }
                    }
                    batch.push(entry);
                    pop_count += 1;
                },
                None => {
                    assert(pop_count == old(self).entries().len());
                    break;
                },
            }
        }
        proof {
            let k = batch_len(old(self).entries().len() as int);
            let s = old(self).entries();
            assert forall|a: int, b: int| 0 <= a < b < s.skip(k).len() implies s.skip(k)[a] != s.skip(k)[b] by {
                assert(s.skip(k)[a] == s[a + k]);
                assert(s.skip(k)[b] == s[b + k]);
            }
        }
        batch
    }
}

} // verus!

verus! {

/// The queue after a frame's changed-chunk events are offered to it in
/// order, each event being a world id and the chunks that changed in it.
pub open spec fn queue_after_events(q: Seq<QueuedChunk>, events: Seq<(u64, Seq<IVec3>)>) -> Seq<QueuedChunk>
    decreases events.len(),
{
    if events.len() == 0 {
        q
    } else {
        let e = events.last();
        queue_after(queue_after_events(q, events.drop_last()), e.0, e.1, e.1.len())
    }
}

/// Whether one of the events reports entry `e`.
pub open spec fn reported(events: Seq<(u64, Seq<IVec3>)>, e: QueuedChunk) -> bool {
    exists|i: int, j: int| 0 <= i < events.len() && 0 <= j < events[i].1.len() && e == (
        #[trigger] events[i].0,
        #[trigger] events[i].1[j],
    )
}

/// Offering the first `n` chunks of one event keeps the queue free of
/// repeats, keeps what was queued first, and adds exactly the offered chunks.
proof fn lemma_queue_after(q: Seq<QueuedChunk>, world: u64, changed: Seq<IVec3>, n: nat)
    requires
        q.no_duplicates(),
        n <= changed.len(),
    ensures
        queue_after(q, world, changed, n).no_duplicates(),
        queue_after(q, world, changed, n).len() >= q.len(),
        queue_after(q, world, changed, n).subrange(0, q.len() as int) == q,
        forall|e: QueuedChunk| #[trigger] queue_after(q, world, changed, n).contains(e) <==> (q.contains(e)
            || exists|j: int| 0 <= j < n && e == (world, #[trigger] changed[j])),
    decreases n,
{
    if n > 0 {
        let m = (n - 1) as nat;
        lemma_queue_after(q, world, changed, m);
        let prev = queue_after(q, world, changed, m);
        let e = (world, changed[n - 1]);
        let cur = queue_after(q, world, changed, n);
        if !prev.contains(e) {
            assert forall|a: int, b: int| 0 <= a < b < cur.len() implies cur[a] != cur[b] by {
                if b == prev.len() {
                    assert(prev.contains(prev[a]));
                }
            }
            assert(cur.subrange(0, q.len() as int) =~= prev.subrange(0, q.len() as int));
        }
        assert forall|x: QueuedChunk| #[trigger] cur.contains(x) <==> (q.contains(x)
            || exists|j: int| 0 <= j < n && x == (world, #[trigger] changed[j])) by {
            if cur.contains(x) && !prev.contains(x) {
                assert(x == e);
                assert(0 <= n - 1 < n && x == (world, changed[n - 1]));
            }
            if exists|j: int| 0 <= j < n && x == (world, #[trigger] changed[j]) {
                let j = choose|j: int| 0 <= j < n && x == (world, #[trigger] changed[j]);
                if j < m {
                    assert(prev.contains(x));
                } else {
                    assert(x == e);
                }
            }
            if prev.contains(x) {
                let k = choose|k: int| 0 <= k < prev.len() && prev[k] == x;
                assert(cur[k] == x);
            }
            if x == e && !prev.contains(e) {
                assert(cur[prev.len() as int] == x);
            }
        }
    }
}

/// A frame of the re-mesh queue: offering all of a frame's events keeps the
/// queue free of repeats, keeps what was already queued at its front, and
/// queues exactly the reported chunks besides; the frame's batch is then at
/// most `PER_FRAME` of them, none twice.
pub proof fn lemma_frame(q: Seq<QueuedChunk>, events: Seq<(u64, Seq<IVec3>)>)
    requires
        q.no_duplicates(),
    ensures
        queue_after_events(q, events).no_duplicates(),
        queue_after_events(q, events).len() >= q.len(),
        queue_after_events(q, events).subrange(0, q.len() as int) == q,
        forall|e: QueuedChunk| #[trigger] queue_after_events(q, events).contains(e) <==> (q.contains(e)
            || reported(events, e)),
        batch_len(queue_after_events(q, events).len() as int) <= PER_FRAME,
        queue_after_events(q, events).take(batch_len(queue_after_events(q, events).len() as int)).no_duplicates(),
    decreases events.len(),
{
    let f = queue_after_events(q, events);
    if events.len() > 0 {
        let rest = events.drop_last();
        let ev = events.last();
        lemma_frame(q, rest);
        let prev = queue_after_events(q, rest);
        lemma_queue_after(prev, ev.0, ev.1, ev.1.len());
        assert(f.subrange(0, q.len() as int) =~= prev.subrange(0, prev.len() as int).subrange(0, q.len() as int)) by {
            assert(f.subrange(0, prev.len() as int) == prev);
        }
        assert forall|e: QueuedChunk| #[trigger] f.contains(e) <==> (q.contains(e) || reported(events, e)) by {
            let last = events.len() - 1;
            if reported(rest, e) {
                let (i, j) = choose|i: int, j: int| 0 <= i < rest.len() && 0 <= j < rest[i].1.len() && e == (
                    #[trigger] rest[i].0,
                    #[trigger] rest[i].1[j],
                );
                assert(events[i] == rest[i]);
                assert(e == (events[i].0, events[i].1[j]));
            }
            if exists|j: int| 0 <= j < ev.1.len() && e == (ev.0, #[trigger] ev.1[j]) {
                let j = choose|j: int| 0 <= j < ev.1.len() && e == (ev.0, #[trigger] ev.1[j]);
                assert(events[last] == ev);
                assert(e == (events[last].0, events[last].1[j]));
            }
            if reported(events, e) {
                let (i, j) = choose|i: int, j: int| 0 <= i < events.len() && 0 <= j < events[i].1.len() && e == (
                    #[trigger] events[i].0,
                    #[trigger] events[i].1[j],
                );
                if i < last {
                    assert(rest[i] == events[i]);
                    assert(e == (rest[i].0, rest[i].1[j]));
                } else {
                    assert(e == (ev.0, ev.1[j]));
                }
            }
        }
    }
    let b = batch_len(f.len() as int);
    assert forall|a: int, c: int| 0 <= a < c < f.take(b).len() implies f.take(b)[a] != f.take(b)[c] by {
        assert(f.take(b)[a] == f[a]);
        assert(f.take(b)[c] == f[c]);
    }
}

} // verus!
