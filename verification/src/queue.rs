//! The debounced ordered queue.
//!
//! Pending items are kept strictly ascending by sequence key, one entry per
//! key; a later admission under an existing key overwrites the stored
//! content in place. Every admission refreshes the last-arrival time, and
//! the first admission to find no drain worker active starts one. The
//! worker sleeps a quiet interval at a time, drains the whole queue as one
//! ordered batch once the burst has gone quiet, and terminates after that
//! single pass; the host process owns the actual sleeping and locking and
//! consults [`RelayQueue::poll_quiet`] for every decision.

use vstd::prelude::*;

verus! {

/// Minimum idle time, in seconds, since the last admission before a drain
/// may proceed.
pub const QUIET_INTERVAL: u64 = 3;

/// One pending relay item.
pub struct QueuedItem {
    /// Opaque reference to the audio payload held by the platform.
    pub content: String,
    /// Ordinal identifier of the originating message; orders the queue and
    /// deduplicates admissions.
    pub key: i32,
}

/// The sequence keys of `s` are strictly ascending (so also unique).
pub open spec fn keys_sorted(s: Seq<QueuedItem>) -> bool {
    forall|i: int, j: int| 0 <= i < j < s.len() ==> s[i].key < s[j].key
}

/// `k` is the sequence key of some entry of `s`.
pub open spec fn has_key(s: Seq<QueuedItem>, k: i32) -> bool {
    exists|i: int| 0 <= i < s.len() && s[i].key == k
}

/// The position of the entry of `s` that carries key `k` (meaningful when
/// `has_key(s, k)` holds; in a sorted sequence it is unique).
pub open spec fn key_index(s: Seq<QueuedItem>, k: i32) -> int {
    choose|i: int| 0 <= i < s.len() && s[i].key == k
}

/// What admission does to the pending sequence: replace the entry that
/// already carries the same key, or insert at the position that keeps the
/// keys ascending.
pub open spec fn insert_sorted(s: Seq<QueuedItem>, it: QueuedItem) -> Seq<QueuedItem>
    decreases s.len(),
{
    if s.len() == 0 {
        seq![it]
    } else if it.key < s[0].key {
        seq![it] + s
    } else if it.key == s[0].key {
        seq![it] + s.drop_first()
    } else {
        seq![s[0]] + insert_sorted(s.drop_first(), it)
    }
}

/// The pending state of a queue, with the bookkeeping the drain worker
/// lifecycle depends on.
pub struct QueueModel {
    /// Pending items, strictly ascending by key.
    pub pending: Seq<QueuedItem>,
    /// Time of the most recent admission.
    pub last_arrival: u64,
    /// Whether a drain worker is currently active.
    pub worker_active: bool,
}

/// What one admission call does to the whole queue state, and whether it
/// starts a drain worker: the item is merged into the pending sequence, the
/// last-arrival time becomes the admission time, and a worker is started
/// exactly when none was active.
pub open spec fn accept_model(q: QueueModel, it: QueuedItem, now: u64) -> (QueueModel, bool) {
    (
        QueueModel {
            pending: insert_sorted(q.pending, it),
            last_arrival: now,
            worker_active: true,
        },
        !q.worker_active,
    )
}

/// What the drain worker decides after each quiet-interval sleep.
#[derive(PartialEq, Eq, Structural)]
pub enum DrainStep {
    /// An admission arrived during the sleep: the burst is still growing,
    /// so wait out another quiet interval.
    Wait,
    /// The queue went quiet but holds nothing: terminate without
    /// dispatching.
    Finish,
    /// The queue went quiet with items pending: drain them all as one
    /// ordered batch and dispatch it.
    Drain,
}

/// The drain worker's decision as a function of the queue state and the
/// current time.
pub open spec fn drain_step_spec(q: QueueModel, now: u64) -> DrainStep {
    if now < q.last_arrival + QUIET_INTERVAL {
        DrainStep::Wait
    } else if q.pending.len() == 0 {
        DrainStep::Finish
    } else {
        DrainStep::Drain
    }
}

/// The debounced ordered queue: pending items, last-arrival time, and the
/// drain-worker flag. The host wraps each field access in its own short
/// exclusive-access section; no method here blocks or calls out.
pub struct RelayQueue {
    /// Pending items, strictly ascending by sequence key.
    pub items: Vec<QueuedItem>,
    /// Time of the most recent admission, in seconds.
    pub last_arrival: u64,
    /// True while a drain worker is active; at most one is ever active.
    pub worker_active: bool,
}

impl RelayQueue {
    /// The queue's pending state as one abstract value.
    pub open spec fn model(self) -> QueueModel {
        QueueModel {
            pending: self.items@,
            last_arrival: self.last_arrival,
            worker_active: self.worker_active,
        }
    }

    /// The queue's invariant: keys strictly ascending, hence unique.
    pub open spec fn wf(self) -> bool {
        keys_sorted(self.items@)
    }

    /// A fresh queue: empty, no worker, created at time `now`.
    pub fn new(now: u64) -> (q: RelayQueue)
        ensures
            q.wf(),
            q.model() == (QueueModel {
                pending: Seq::<QueuedItem>::empty(),
                last_arrival: now,
                worker_active: false,
            }),
    {
        RelayQueue { items: Vec::new(), last_arrival: now, worker_active: false }
    }

    /// Accept `content` under sequence key `key` at time `now`.
    ///
    /// Merges the item into the pending sequence (overwriting in place when
    /// the key is already present), refreshes the last-arrival time, and
    /// reports whether the caller must start a drain worker: true exactly
    /// when no worker was active.
    pub fn accept(&mut self, content: String, key: i32, now: u64) -> (started: bool)
        requires
            old(self).wf(),
        ensures
            final(self).wf(),
            (final(self).model(), started) == accept_model(
                old(self).model(),
                (QueuedItem { content, key }),
                now,
            ),
    {
        let pos = self.lower_bound(key);
        if pos < self.items.len() && self.items[pos].key == key {
            proof {
                lemma_insert_sorted_replaces(self.items@, (QueuedItem { content: content, key }), pos as int);
            }
            self.items[pos] = QueuedItem { content, key };
            proof {
                lemma_update_keeps_sorted(old(self).items@, self.items@, pos as int);
            }
        } else {
            proof {
                lemma_insert_sorted_inserts(self.items@, (QueuedItem { content: content, key }), pos as int);
            }
            self.items.insert(pos, QueuedItem { content, key });
            proof {
                lemma_insert_keeps_sorted(old(self).items@, self.items@, pos as int);
            }
        }
        self.last_arrival = now;
        let started = !self.worker_active;
        self.worker_active = true;
        started
    }

    /// First position whose key is at least `key`; all earlier keys are
    /// smaller, all keys from the position on are at least `key`.
    fn lower_bound(&self, key: i32) -> (pos: usize)
        requires
            self.wf(),
        ensures
            pos <= self.items@.len(),
            forall|i: int| 0 <= i < pos ==> self.items@[i].key < key,
            forall|i: int| pos <= i < self.items@.len() ==> self.items@[i].key >= key,
    {
        let mut lo: usize = 0;
        let mut hi: usize = self.items.len();
        while lo < hi
            invariant
                lo <= hi <= self.items@.len(),
                forall|i: int| 0 <= i < lo ==> self.items@[i].key < key,
                forall|i: int| hi <= i < self.items@.len() ==> self.items@[i].key >= key,
                self.wf(),
            decreases hi - lo,
        {
            let mid = lo + (hi - lo) / 2;
            if self.items[mid].key < key {
                lo = mid + 1;
            } else {
                hi = mid;
            }
        }
        lo
    }

    /// The drain worker's decision at time `now`, made after each
    /// quiet-interval sleep: keep waiting while the last admission is more
    /// recent than the quiet interval, terminate if the queue went quiet
    /// empty, drain otherwise.
    pub fn poll_quiet(&self, now: u64) -> (step: DrainStep)
        ensures
            step == drain_step_spec(self.model(), now),
    {
        if now < self.last_arrival || now - self.last_arrival < QUIET_INTERVAL {
            DrainStep::Wait
        } else if self.items.len() == 0 {
            DrainStep::Finish
        } else {
            DrainStep::Drain
        }
    }

    /// Atomically remove and return the entire pending contents as one
    /// batch, ordered ascending by sequence key. The worker flag and the
    /// last-arrival time are untouched.
    pub fn take_batch(&mut self) -> (batch: Vec<QueuedItem>)
        requires
            old(self).wf(),
        ensures
            final(self).wf(),
            batch@ == old(self).items@,
            keys_sorted(batch@),
            final(self).items@ == Seq::<QueuedItem>::empty(),
            final(self).last_arrival == old(self).last_arrival,
            final(self).worker_active == old(self).worker_active,
    {
        let batch = self.items.split_off(0);
        proof {
            assert(batch@ =~= old(self).items@);
            assert(self.items@ =~= Seq::<QueuedItem>::empty());
        }
        batch
    }

    /// Record that the drain worker terminated (on any path). Only the
    /// worker that the flag was set for calls this, once, as it exits.
    pub fn worker_done(&mut self)
        ensures
            final(self).items@ == old(self).items@,
            final(self).last_arrival == old(self).last_arrival,
            !final(self).worker_active,
    {
        self.worker_active = false;
    }
}

/// When `it`'s key already stands at position `p` of a sorted sequence,
/// merging `it` is exactly an in-place overwrite at `p`.
proof fn lemma_insert_sorted_replaces(s: Seq<QueuedItem>, it: QueuedItem, p: int)
    requires
        keys_sorted(s),
        0 <= p < s.len(),
        s[p].key == it.key,
        forall|i: int| 0 <= i < p ==> s[i].key < it.key,
    ensures
        insert_sorted(s, it) == s.update(p, it),
    decreases s.len(),
{
    if p == 0 {
        assert(insert_sorted(s, it) =~= s.update(0, it));
    } else {
        assert(s[0].key < it.key);
        lemma_insert_sorted_replaces(s.drop_first(), it, p - 1);
        assert(seq![s[0]] + s.drop_first().update(p - 1, it) =~= s.update(p, it));
    }
}

/// When `it`'s key is absent and `p` separates the smaller keys from the
/// larger ones, merging `it` is exactly an insertion at `p`.
proof fn lemma_insert_sorted_inserts(s: Seq<QueuedItem>, it: QueuedItem, p: int)
    requires
        keys_sorted(s),
        0 <= p <= s.len(),
        forall|i: int| 0 <= i < p ==> s[i].key < it.key,
        forall|i: int| p <= i < s.len() ==> s[i].key > it.key,
    ensures
        insert_sorted(s, it) == s.insert(p, it),
    decreases s.len(),
{
    if s.len() == 0 {
        assert(insert_sorted(s, it) =~= s.insert(0, it));
    } else if p == 0 {
        assert(s[0].key > it.key);
        assert(insert_sorted(s, it) =~= s.insert(0, it));
    } else {
        assert(s[0].key < it.key);
        lemma_insert_sorted_inserts(s.drop_first(), it, p - 1);
        assert(seq![s[0]] + s.drop_first().insert(p - 1, it) =~= s.insert(p, it));
    }
}

/// Every entry of the merged sequence is the merged item itself or an
/// entry of the original sequence.
proof fn lemma_insert_sorted_members(s: Seq<QueuedItem>, it: QueuedItem)
    ensures
        forall|j: int|
            0 <= j < insert_sorted(s, it).len() ==> (insert_sorted(s, it)[j] == it || s.contains(
                insert_sorted(s, it)[j],
            )),
    decreases s.len(),
{
    if s.len() == 0 {
    } else if it.key < s[0].key {
    } else if it.key == s[0].key {
        assert forall|j: int| 1 <= j < insert_sorted(s, it).len() implies s.contains(
            insert_sorted(s, it)[j],
        ) by {
            assert(insert_sorted(s, it)[j] == s[j]);
        }
    } else {
        lemma_insert_sorted_members(s.drop_first(), it);
        let t = insert_sorted(s.drop_first(), it);
        assert forall|j: int| 1 <= j < insert_sorted(s, it).len() implies (insert_sorted(s, it)[j]
            == it || s.contains(insert_sorted(s, it)[j])) by {
            assert(insert_sorted(s, it)[j] == t[j - 1]);
            if t[j - 1] != it {
                let k = choose|k: int| 0 <= k < s.drop_first().len() && s.drop_first()[k] == t[j
                    - 1];
                assert(s[k + 1] == t[j - 1]);
            }
        }
    }
}

/// Ordering law: merging an item into a sequence whose keys are strictly
/// ascending yields a sequence whose keys are strictly ascending. Together
/// with [`RelayQueue::accept`]'s contract this keeps the queue ordered at
/// all times, so every drained batch comes out ascending by sequence key.
pub proof fn lemma_accept_keeps_order(s: Seq<QueuedItem>, it: QueuedItem)
    requires
        keys_sorted(s),
    ensures
        keys_sorted(insert_sorted(s, it)),
    decreases s.len(),
{
    let r = insert_sorted(s, it);
    if s.len() == 0 {
    } else if it.key < s[0].key {
        assert forall|i: int, j: int| 0 <= i < j < r.len() implies r[i].key < r[j].key by {
            if i == 0 {
                assert(r[j] == s[j - 1]);
            } else {
                assert(r[i] == s[i - 1] && r[j] == s[j - 1]);
            }
        }
    } else if it.key == s[0].key {
        assert forall|i: int, j: int| 0 <= i < j < r.len() implies r[i].key < r[j].key by {
            if i == 0 {
                assert(r[j] == s[j]);
            } else {
                assert(r[i] == s[i] && r[j] == s[j]);
            }
        }
    } else {
        assert(keys_sorted(s.drop_first())) by {
            assert forall|i: int, j: int|
                0 <= i < j < s.drop_first().len() implies s.drop_first()[i].key
                < s.drop_first()[j].key by {
                assert(s.drop_first()[i] == s[i + 1] && s.drop_first()[j] == s[j + 1]);
            }
        }
        lemma_accept_keeps_order(s.drop_first(), it);
        lemma_insert_sorted_members(s.drop_first(), it);
        let t = insert_sorted(s.drop_first(), it);
        assert forall|i: int, j: int| 0 <= i < j < r.len() implies r[i].key < r[j].key by {
            if i == 0 {
                assert(r[j] == t[j - 1]);
                if t[j - 1] != it {
                    let k = choose|k: int| 0 <= k < s.drop_first().len() && s.drop_first()[k] == t[j
                        - 1];
                    assert(s[k + 1] == t[j - 1]);
                }
            } else {
                assert(r[i] == t[i - 1] && r[j] == t[j - 1]);
            }
        }
    }
}

/// Dedup law: admitting under a key and then admitting again under the
/// same key leaves the queue exactly as if only the second admission had
/// happened — one entry for the key, carrying the later content, and a
/// batch length unaffected by the first of the two calls.
pub proof fn lemma_accept_same_key_overwrites(s: Seq<QueuedItem>, a: QueuedItem, b: QueuedItem)
    requires
        a.key == b.key,
    ensures
        insert_sorted(insert_sorted(s, a), b) == insert_sorted(s, b),
    decreases s.len(),
{
    let r1 = insert_sorted(s, a);
    if s.len() == 0 {
        assert(insert_sorted(r1, b) =~= seq![b]);
        assert(insert_sorted(s, b) =~= seq![b]);
    } else if a.key < s[0].key {
        assert(r1 == seq![a] + s);
        assert(r1[0] == a);
        assert(r1.drop_first() =~= s);
        assert(insert_sorted(r1, b) == seq![b] + s);
        assert(insert_sorted(s, b) == seq![b] + s);
    } else if a.key == s[0].key {
        assert(r1 == seq![a] + s.drop_first());
        assert(r1[0] == a);
        assert(r1.drop_first() =~= s.drop_first());
        assert(insert_sorted(r1, b) == seq![b] + s.drop_first());
        assert(insert_sorted(s, b) == seq![b] + s.drop_first());
    } else {
        let t = insert_sorted(s.drop_first(), a);
        assert(r1 == seq![s[0]] + t);
        assert(r1[0] == s[0]);
        assert(r1.drop_first() =~= t);
        lemma_accept_same_key_overwrites(s.drop_first(), a, b);
        assert(insert_sorted(r1, b) == seq![r1[0]] + insert_sorted(r1.drop_first(), b));
        assert(insert_sorted(s, b) == seq![s[0]] + insert_sorted(s.drop_first(), b));
    }
}

/// Overwrite law: admitting under a key that the sorted queue already
/// holds overwrites that one entry in place — the length is unchanged and
/// the entry now carries the admitted content.
pub proof fn lemma_accept_existing_key(s: Seq<QueuedItem>, it: QueuedItem)
    requires
        keys_sorted(s),
        has_key(s, it.key),
    ensures
        insert_sorted(s, it) == s.update(key_index(s, it.key), it),
        insert_sorted(s, it).len() == s.len(),
        0 <= key_index(s, it.key) < s.len(),
        s[key_index(s, it.key)].key == it.key,
{
    let i = key_index(s, it.key);
    assert(0 <= i < s.len() && s[i].key == it.key);
    lemma_insert_sorted_replaces(s, it, i);
}

/// Fresh-key law: admitting under a key absent from the sorted queue adds
/// exactly one entry, at the position that keeps the keys ascending.
pub proof fn lemma_accept_new_key(s: Seq<QueuedItem>, it: QueuedItem)
    requires
        keys_sorted(s),
        !has_key(s, it.key),
    ensures
        insert_sorted(s, it).len() == s.len() + 1,
        exists|p: int| 0 <= p <= s.len() && insert_sorted(s, it) == s.insert(p, it),
    decreases s.len(),
{
    if s.len() == 0 {
        assert(insert_sorted(s, it) =~= s.insert(0, it));
    } else if it.key < s[0].key {
        assert(insert_sorted(s, it) =~= s.insert(0, it));
    } else if it.key == s[0].key {
        assert(false);
    } else {
        assert(!has_key(s.drop_first(), it.key)) by {
            assert forall|i: int|
                0 <= i < s.drop_first().len() implies s.drop_first()[i].key != it.key by {
                assert(s.drop_first()[i] == s[i + 1]);
            }
        }
        assert(keys_sorted(s.drop_first())) by {
            assert forall|i: int, j: int|
                0 <= i < j < s.drop_first().len() implies s.drop_first()[i].key
                < s.drop_first()[j].key by {
                assert(s.drop_first()[i] == s[i + 1] && s.drop_first()[j] == s[j + 1]);
            }
        }
        lemma_accept_new_key(s.drop_first(), it);
        let p = choose|p: int|
            0 <= p <= s.drop_first().len() && insert_sorted(s.drop_first(), it)
                == s.drop_first().insert(p, it);
        assert(seq![s[0]] + s.drop_first().insert(p, it) =~= s.insert(p + 1, it));
        assert(insert_sorted(s, it) == s.insert(p + 1, it));
    }
}

/// Debounce law: an admission refreshes the last-arrival time, so at every
/// instant short of its own time plus the quiet interval the drain worker
/// still decides to wait. An admission arriving before the interval
/// elapses therefore resets the wait.
pub proof fn lemma_admission_resets_debounce(
    q: QueueModel,
    it: QueuedItem,
    t_accept: u64,
    t_poll: u64,
)
    requires
        t_poll < t_accept + QUIET_INTERVAL,
    ensures
        drain_step_spec(accept_model(q, it, t_accept).0, t_poll) == DrainStep::Wait,
{
}

/// The combined outcome of a run of consecutive admissions: the resulting
/// queue state, and how many of the admissions reported that they started
/// a drain worker.
pub open spec fn run_accepts(q: QueueModel, calls: Seq<(QueuedItem, u64)>) -> (QueueModel, nat)
    decreases calls.len(),
{
    if calls.len() == 0 {
        (q, 0nat)
    } else {
        let first = accept_model(q, calls[0].0, calls[0].1);
        let rest = run_accepts(first.0, calls.drop_first());
        (rest.0, rest.1 + (if first.1 {
            1nat
        } else {
            0nat
        }))
    }
}

/// While a worker is active, no admission starts another.
proof fn lemma_no_start_while_active(q: QueueModel, calls: Seq<(QueuedItem, u64)>)
    requires
        q.worker_active,
    ensures
        run_accepts(q, calls).1 == 0,
        run_accepts(q, calls).0.worker_active,
    decreases calls.len(),
{
    if calls.len() > 0 {
        lemma_no_start_while_active(accept_model(q, calls[0].0, calls[0].1).0, calls.drop_first());
    }
}

/// Single-worker law: any number of admissions arriving at an idle queue
/// start exactly one drain worker between them — the first one starts it,
/// every later one finds the flag set. The host serializes the flag
/// check-and-set in one exclusive-access section, so concurrent admissions
/// reach it in some order and this law applies to that order.
pub proof fn lemma_single_worker(q: QueueModel, calls: Seq<(QueuedItem, u64)>)
    requires
        !q.worker_active,
        calls.len() >= 1,
    ensures
        run_accepts(q, calls).1 == 1,
        run_accepts(q, calls).0.worker_active,
{
    let first = accept_model(q, calls[0].0, calls[0].1);
    lemma_no_start_while_active(first.0, calls.drop_first());
}

/// Overwriting position `p` with an item of the same key keeps the keys
/// strictly ascending.
proof fn lemma_update_keeps_sorted(s: Seq<QueuedItem>, t: Seq<QueuedItem>, p: int)
    requires
        keys_sorted(s),
        0 <= p < s.len(),
        t.len() == s.len(),
        t[p].key == s[p].key,
        forall|i: int| 0 <= i < s.len() && i != p ==> t[i] == s[i],
    ensures
        keys_sorted(t),
{
}

/// Inserting at a position that separates smaller keys from larger ones
/// keeps the keys strictly ascending.
proof fn lemma_insert_keeps_sorted(s: Seq<QueuedItem>, t: Seq<QueuedItem>, p: int)
    requires
        keys_sorted(s),
        0 <= p <= s.len(),
        t.len() == s.len() + 1,
        forall|i: int| 0 <= i < p ==> t[i] == s[i] && s[i].key < t[p].key,
        forall|i: int| p < i < t.len() ==> t[i] == s[i - 1] && s[i - 1].key > t[p].key,
    ensures
        keys_sorted(t),
{
}

} // verus!
