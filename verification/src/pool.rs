//! The bookkeeping of the process pool: round-robin dispatch over a
//! fixed set of workers, and per-worker FIFO demultiplexing of responses
//! into slots that awaiters consume, possibly out of order, with
//! drop-safe reclamation.
//!
//! The processes themselves, the channels between them and the
//! cooperative token that serialises channel reads are outside code:
//! a driver submits, delivers each arriving response, and takes or drops
//! slots through the verified operations here.

use vstd::prelude::*;
use vstd::arithmetic::div_mod::{lemma_fundamental_div_mod, lemma_fundamental_div_mod_converse};

verus! {

/// The worker that the round-robin cursor picks for the `i`-th
/// submission.
pub open spec fn rr_assign(base: int, modulus: int, i: int) -> int {
    (base + i) % modulus
}

/// How many of the first `k` submissions the round-robin cursor sends to
/// worker `w`.
pub open spec fn rr_count(base: int, modulus: int, k: nat, w: int) -> nat
    decreases k,
{
    if k == 0 {
        0
    } else {
        rr_count(base, modulus, (k - 1) as nat, w) + (if rr_assign(base, modulus, k - 1) == w {
            1nat
        } else {
            0nat
        })
    }
}

/// The closed form of the round-robin count: worker `w` is hit once
/// every full cycle, starting at its own phase.
proof fn lemma_rr_count_exact(base: int, m: int, k: nat, w: int)
    requires
        m > 0,
        0 <= base < m,
        0 <= w < m,
    ensures
        rr_count(base, m, k, w) == (k + m - 1 - (w - base) % m) / m,
    decreases k,
{
    let d = (w - base) % m;
    lemma_fundamental_div_mod(w - base, m);
    let qd = (w - base) / m;
    if k == 0 {
        lemma_fundamental_div_mod_converse(m - 1 - d, m, 0, m - 1 - d);
    } else {
        lemma_rr_count_exact(base, m, (k - 1) as nat, w);
        let t = (k - 1) + m - 1 - d;
        lemma_fundamental_div_mod(t, m);
        // whether submission k-1 hits w, in terms of t's remainder
        lemma_fundamental_div_mod(base + (k - 1), m);
        let qq = (base + (k - 1)) / m;
        let rr = (base + (k - 1)) % m;
        assert(m * (qq + qd + 1) == m * qq + m * qd + m && m * (qq + qd) == m * qq + m * qd) by (nonlinear_arith);
        assert(t == m * (qq + qd + 1) + (rr - w - 1));
        if rr == w {
            lemma_fundamental_div_mod_converse(t, m, qq + qd, m - 1);
            lemma_fundamental_div_mod_converse(t + 1, m, qq + qd + 1, 0);
        } else if rr > w {
            lemma_fundamental_div_mod_converse(t, m, qq + qd + 1, rr - w - 1);
            lemma_fundamental_div_mod_converse(t + 1, m, qq + qd + 1, rr - w);
        } else {
            lemma_fundamental_div_mod_converse(t, m, qq + qd, rr - w - 1 + m);
            lemma_fundamental_div_mod_converse(t + 1, m, qq + qd, rr - w + m);
        }
    }
}

/// Round-robin fairness: after `k` sequential submissions across `m`
/// workers, each worker has received either `k / m` or `k / m + 1` of
/// them (the floor and the ceiling of `k / m`), and every submission
/// went to exactly one worker, the one the assignment names.
pub proof fn lemma_round_robin_fair(base: int, m: int, k: nat, w: int)
    requires
        m > 0,
        0 <= base < m,
        0 <= w < m,
    ensures
        rr_count(base, m, k, w) == k as int / m || rr_count(base, m, k, w) == k as int / m + 1,
        forall|i: int| 0 <= i ==> 0 <= #[trigger] rr_assign(base, m, i) < m,
{
    let d = (w - base) % m;
    lemma_fundamental_div_mod(w - base, m);
    lemma_rr_count_exact(base, m, k, w);
    lemma_fundamental_div_mod(k as int, m);
    let q = k as int / m;
    let r = k as int % m;
    let t = k + m - 1 - d;
    assert(m * (q + 1) == m * q + m) by (nonlinear_arith);
    if r + m - 1 - d < m {
        lemma_fundamental_div_mod_converse(t, m, q, r + m - 1 - d);
    } else {
        lemma_fundamental_div_mod_converse(t, m, q + 1, r - 1 - d);
    }
    assert forall|i: int| 0 <= i implies 0 <= #[trigger] rr_assign(base, m, i) < m by {
        lemma_fundamental_div_mod(base + i, m);
    }
}


/// The round-robin counts of the workers below `upto`, added up.
pub open spec fn rr_count_below(base: int, modulus: int, k: nat, upto: nat) -> nat
    decreases upto,
{
    if upto == 0 {
        0
    } else {
        rr_count_below(base, modulus, k, (upto - 1) as nat) + rr_count(
            base,
            modulus,
            k,
            upto - 1,
        )
    }
}

/// One more submission raises the summed counts below `upto` exactly
/// when its assigned worker lies below `upto`.
proof fn lemma_rr_sum_step(base: int, m: int, k: nat, upto: nat)
    requires
        k >= 1,
    ensures
        rr_count_below(base, m, k, upto) == rr_count_below(base, m, (k - 1) as nat, upto) + (
        if 0 <= rr_assign(base, m, k - 1) < upto {
            1int
        } else {
            0int
        }),
    decreases upto,
{
    if upto > 0 {
        lemma_rr_sum_step(base, m, k, (upto - 1) as nat);
    }
}

/// Round-robin loses nothing: the per-worker counts of the first `k`
/// submissions add up to `k`, so the workers' shares partition the
/// submitted closures.
pub proof fn lemma_round_robin_total(base: int, m: int, k: nat)
    requires
        m > 0,
        0 <= base < m,
    ensures
        rr_count_below(base, m, k, m as nat) == k,
    decreases k,
{
    if k == 0 {
        lemma_rr_total_zero(base, m, m as nat);
    } else {
        lemma_round_robin_total(base, m, (k - 1) as nat);
        lemma_rr_sum_step(base, m, k, m as nat);
        lemma_fundamental_div_mod(base + (k - 1), m);
    }
}

/// With no submissions, every count is zero.
proof fn lemma_rr_total_zero(base: int, m: int, upto: nat)
    ensures
        rr_count_below(base, m, 0, upto) == 0,
    decreases upto,
{
    if upto > 0 {
        lemma_rr_total_zero(base, m, (upto - 1) as nat);
    }
}

/// The atomic round-robin cursor: each pick advances the counter once
/// and names worker `(base + counter) % modulus`.
#[derive(Debug)]
pub struct RoundRobin {
    pub base: usize,
    pub modulus: usize,
    pub counter: u64,
}

impl RoundRobin {
    /// A cursor over `modulus` workers, starting at `base`.
    pub fn new(base: usize, modulus: usize) -> (r: RoundRobin)
        requires
            modulus > 0,
            base < modulus,
        ensures
            r.base == base,
            r.modulus == modulus,
            r.counter == 0,
    {
        RoundRobin { base, modulus, counter: 0 }
    }

    /// Pick the next worker and advance.
    pub fn get(&mut self) -> (r: usize)
        requires
            old(self).modulus > 0,
            old(self).base < old(self).modulus,
            old(self).counter < u64::MAX,
        ensures
            r == rr_assign(old(self).base as int, old(self).modulus as int, old(self).counter as int),
            final(self).counter == old(self).counter + 1,
            final(self).base == old(self).base,
            final(self).modulus == old(self).modulus,
            r < final(self).modulus,
    {
        let ghost b = self.base as int;
        let ghost m = self.modulus as int;
        let ghost c = self.counter as int;
        let m64 = self.modulus as u64;
        let b64 = self.base as u64;
        let rem = self.counter % m64;
        let pick64 = if rem >= m64 - b64 {
            rem - (m64 - b64)
        } else {
            rem + b64
        };
        proof {
            lemma_fundamental_div_mod(c, m);
            let qc = c / m;
            let rc = c % m;
            assert(c == m * qc + rc);
            assert(0 <= rc < m);
            assert(m * (qc + 1) == m * qc + m) by (nonlinear_arith);
            if rc >= m - b {
                assert(b + c == (qc + 1) * m + (b + rc - m)) by (nonlinear_arith)
                    requires
                        c == m * qc + rc,
                ;
                assert(0 <= b + rc - m < m);
                lemma_fundamental_div_mod_converse(b + c, m, qc + 1, b + rc - m);
            } else {
                assert(b + c == qc * m + (b + rc)) by (nonlinear_arith)
                    requires
                        c == m * qc + rc,
                ;
                assert(0 <= b + rc < m);
                lemma_fundamental_div_mod_converse(b + c, m, qc, b + rc);
            }
        }
        self.counter = self.counter + 1;
        pick64 as usize
    }
}

/// One outstanding submission's slot: still awaited, holding its
/// response, or already consumed (or abandoned).
#[derive(Debug)]
pub enum Queued<T> {
    /// Submitted; no response yet.
    Awaiting,
    /// The response arrived and waits to be taken.
    Got(T),
    /// Consumed by its awaiter, or abandoned before the response came.
    Taken,
}

impl<T> Queued<T> {
    /// Place the matching response: only an awaited slot takes it; a
    /// response for an abandoned slot is discarded.
    pub fn received(&mut self, t: T)
        ensures
            (*old(self) is Awaiting) ==> *final(self) == Queued::Got(t),
            !(*old(self) is Awaiting) ==> *final(self) == *old(self),
    {
        if let Queued::Awaiting = self {
            *self = Queued::Got(t);
        }
    }

    /// Consume the response.
    pub fn take(&mut self) -> (t: T)
        requires
            *old(self) is Got,
        ensures
            *final(self) is Taken,
            t == old(self)->Got_0,
    {
        let mut prev = Queued::Taken;
        core::mem::swap(self, &mut prev);
        match prev {
            Queued::Got(t) => t,
            _ => vstd::pervasive::unreached(),
        }
    }

    /// Abandon the slot.
    pub fn drop_(&mut self)
        ensures
            *final(self) is Taken,
    {
        *self = Queued::Taken;
    }
}

/// How many slots at the front of a queue can be reclaimed: consumed
/// slots, up to the number of responses already delivered — a slot whose
/// response is still on its way stays, so that delivery keeps matching
/// submissions by position.
pub open spec fn reclaim_count<T>(s: Seq<Queued<T>>, delivered: int) -> int
    decreases s.len(),
{
    if s.len() == 0 || delivered <= 0 || !(s[0] is Taken) {
        0
    } else {
        1 + reclaim_count(s.skip(1), delivered - 1)
    }
}

/// The count of reclaimable slots is within the queue and within what
/// was delivered.
pub proof fn lemma_reclaim_count_bounds<T>(s: Seq<Queued<T>>, delivered: int)
    ensures
        0 <= reclaim_count(s, delivered) <= s.len(),
        delivered >= 0 ==> reclaim_count(s, delivered) <= delivered,
        forall|j: int| 0 <= j < reclaim_count(s, delivered) ==> s[j] is Taken,
    decreases s.len(),
{
    if s.len() == 0 || delivered <= 0 || !(s[0] is Taken) {
    } else {
        lemma_reclaim_count_bounds(s.skip(1), delivered - 1);
        assert forall|j: int| 0 <= j < reclaim_count(s, delivered) implies s[j] is Taken by {
            if j >= 1 {
                assert(s.skip(1)[j - 1] is Taken);
            }
        }
    }
}

/// A queue whose every slot is consumed, and whose every response has
/// landed, reclaims completely: nothing is left.
pub proof fn lemma_full_reclamation<T>(s: Seq<Queued<T>>, delivered: int)
    requires
        forall|j: int| 0 <= j < s.len() ==> (#[trigger] s[j]) is Taken,
        delivered >= s.len(),
    ensures
        reclaim_count(s, delivered) == s.len(),
    decreases s.len(),
{
    if s.len() > 0 {
        assert(s[0] is Taken);
        lemma_full_reclamation(s.skip(1), delivered - 1);
    }
}

/// One worker's response bookkeeping: the slots of its outstanding
/// submissions, the submission index of the queue's front, and how many
/// responses have been delivered so far.
#[derive(Debug)]
pub struct ProcessInner<T> {
    pub queue: Vec<Queued<T>>,
    pub received: usize,
    pub tail: usize,
}

impl<T> ProcessInner<T> {
    /// Responses never outrun submissions, the front is never beyond
    /// what was delivered, and no slot past the delivered point holds a
    /// response yet: it awaits, or was abandoned early.
    pub open spec fn wf(&self) -> bool {
        &&& self.tail <= self.received <= self.tail + self.queue@.len()
        &&& self.tail + self.queue@.len() <= usize::MAX
        &&& forall|j: int|
            self.received - self.tail <= j < self.queue@.len() ==> !((#[trigger] self.queue@[j])
                is Got)
    }

    /// The slot of submission `index`, if it is still in the queue.
    pub open spec fn slot(&self, index: int) -> Queued<T> {
        self.queue@[index - self.tail]
    }

    /// A worker with no history.
    pub fn new() -> (r: ProcessInner<T>)
        ensures
            r.wf(),
            r.queue@.len() == 0,
            r.received == 0,
            r.tail == 0,
    {
        let r = ProcessInner { queue: Vec::new(), received: 0, tail: 0 };
        r
    }

    /// Record one submission; its slot awaits the matching response.
    /// Answers the submission's index.
    pub fn push_awaiting(&mut self) -> (index: usize)
        requires
            old(self).wf(),
            old(self).tail + old(self).queue@.len() < usize::MAX,
        ensures
            final(self).wf(),
            index == old(self).tail + old(self).queue@.len(),
            final(self).queue@ == old(self).queue@.push(Queued::<T>::Awaiting),
            final(self).received == old(self).received,
            final(self).tail == old(self).tail,
    {
        let index = self.tail + self.queue.len();
        self.queue.push(Queued::Awaiting);
        index
    }

    /// Whether the response for submission `index` has been delivered.
    pub fn poll_ready(&self, index: usize) -> (r: bool)
        ensures
            r == (self.received > index),
    {
        self.received > index
    }

    /// The queue once the next response has been placed: the slot of the
    /// `received`-th submission holds it — responses match submissions in
    /// order — unless that slot was abandoned, in which case the response
    /// is discarded and the queue is unchanged.
    pub open spec fn placed(&self, t: T) -> Seq<Queued<T>> {
        if self.slot(self.received as int) is Awaiting {
            self.queue@.update(self.received - self.tail, Queued::Got(t))
        } else {
            self.queue@
        }
    }

    /// Deliver the next response into the slot of the `received`-th
    /// submission (discarded if that slot was abandoned), then reclaim
    /// any consumed slots now at the front — so a response landing in an
    /// abandoned head slot frees it at once.
    pub fn deliver(&mut self, t: T)
        requires
            old(self).wf(),
            old(self).received < old(self).tail + old(self).queue@.len(),
        ensures
            final(self).wf(),
            final(self).received == old(self).received + 1,
            ({
                let rc = reclaim_count(
                    old(self).placed(t),
                    old(self).received + 1 - old(self).tail,
                );
                &&& final(self).tail == old(self).tail + rc
                &&& final(self).queue@ == old(self).placed(t).skip(rc)
            }),
    {
        let offset = self.received - self.tail;
        self.queue[offset].received(t);
        self.received = self.received + 1;
        proof {
            if old(self).queue@[offset as int] is Awaiting {
                assert(self.queue@ =~= old(self).queue@.update(offset as int, Queued::Got(t)));
            } else {
                assert(self.queue@ =~= old(self).queue@);
            }
            assert(self.queue@ == old(self).placed(t));
        }
        self.compact();
    }

    /// Reclaim consumed slots at the front of the queue, advancing the
    /// front index past them; a slot whose response has not landed yet
    /// stays.
    fn compact(&mut self)
        requires
            old(self).wf(),
        ensures
            final(self).wf(),
            final(self).received == old(self).received,
            final(self).tail == old(self).tail + reclaim_count(
                old(self).queue@,
                old(self).received - old(self).tail,
            ),
            final(self).queue@ == old(self).queue@.skip(
                reclaim_count(old(self).queue@, old(self).received - old(self).tail),
            ),
    {
        proof {
            lemma_reclaim_count_bounds(old(self).queue@, old(self).received - old(self).tail);
        }
        loop
            invariant
                self.wf(),
                self.received == old(self).received,
                old(self).tail <= self.tail,
                self.tail == old(self).tail + (old(self).queue@.len() - self.queue@.len()),
                self.queue@ == old(self).queue@.skip(old(self).queue@.len() - self.queue@.len()),
                reclaim_count(old(self).queue@, old(self).received - old(self).tail) == (old(
                    self,
                ).queue@.len() - self.queue@.len()) + reclaim_count(
                    self.queue@,
                    self.received - self.tail,
                ),
            decreases self.queue@.len(),
        {
            proof {
                lemma_reclaim_count_bounds(self.queue@, self.received - self.tail);
            }
            if self.queue.len() == 0 {
                return ;
            }
            if self.tail >= self.received {
                return ;
            }
            let front_taken = match &self.queue[0] {
                Queued::Taken => true,
                _ => false,
            };
            if !front_taken {
                return ;
            }
            let ghost before = self.queue@;
            let _ = self.queue.remove(0);
            self.tail = self.tail + 1;
            proof {
                assert(self.queue@ =~= before.skip(1));
                assert(self.queue@ =~= old(self).queue@.skip(
                    old(self).queue@.len() - self.queue@.len(),
                ));
            }
        }
    }

    /// Consume the delivered response of submission `index`, and reclaim
    /// any consumed slots now at the front.
    pub fn take_slot(&mut self, index: usize) -> (t: T)
        requires
            old(self).wf(),
            old(self).tail <= index < old(self).tail + old(self).queue@.len(),
            old(self).slot(index as int) is Got,
        ensures
            final(self).wf(),
            t == old(self).slot(index as int)->Got_0,
            final(self).received == old(self).received,
            final(self).tail == old(self).tail + reclaim_count(
                old(self).queue@.update(index - old(self).tail, Queued::Taken),
                old(self).received - old(self).tail,
            ),
            final(self).queue@ == old(self).queue@.update(
                index - old(self).tail,
                Queued::Taken,
            ).skip(
                reclaim_count(
                    old(self).queue@.update(index - old(self).tail, Queued::Taken),
                    old(self).received - old(self).tail,
                ),
            ),
    {
        let offset = index - self.tail;
        let t = self.queue[offset].take();
        proof {
            assert(self.queue@ =~= old(self).queue@.update(offset as int, Queued::Taken));
        }
        self.compact();
        t
    }

    /// Abandon submission `index` — its response, if it ever comes, will
    /// be discarded — and reclaim any consumed slots now at the front.
    pub fn drop_slot(&mut self, index: usize)
        requires
            old(self).wf(),
            old(self).tail <= index < old(self).tail + old(self).queue@.len(),
        ensures
            final(self).wf(),
            final(self).received == old(self).received,
            final(self).tail == old(self).tail + reclaim_count(
                old(self).queue@.update(index - old(self).tail, Queued::Taken),
                old(self).received - old(self).tail,
            ),
            final(self).queue@ == old(self).queue@.update(
                index - old(self).tail,
                Queued::Taken,
            ).skip(
                reclaim_count(
                    old(self).queue@.update(index - old(self).tail, Queued::Taken),
                    old(self).received - old(self).tail,
                ),
            ),
    {
        let offset = index - self.tail;
        self.queue[offset].drop_();
        proof {
            assert(self.queue@ =~= old(self).queue@.update(offset as int, Queued::Taken));
        }
        self.compact();
    }

    /// How many slots the queue holds.
    pub fn queue_len(&self) -> (r: usize)
        ensures
            r == self.queue@.len(),
    {
        self.queue.len()
    }
}

/// The marker that a worker's closure unwound: the worker stays healthy,
/// and the caller sees this instead of a value. The panic payload is not
/// observable.
#[derive(Clone, Copy, Debug, PartialEq, Eq, Structural)]
pub struct Panicked;

/// The bookkeeping of a pool of worker processes: one response queue per
/// worker and the round-robin dispatch cursor. A driver owns the
/// channels; it routes each submission to the worker this state picks,
/// and feeds every arriving response back in.
#[derive(Debug)]
pub struct ProcessPool<T> {
    pub workers: Vec<ProcessInner<T>>,
    pub rr: RoundRobin,
}

impl<T> ProcessPool<T> {
    /// Every worker's bookkeeping is sound and the cursor ranges over
    /// exactly the workers.
    pub open spec fn wf(&self) -> bool {
        &&& self.workers@.len() > 0
        &&& self.rr.modulus == self.workers@.len()
        &&& self.rr.base < self.rr.modulus
        &&& forall|w: int| 0 <= w < self.workers@.len() ==> (#[trigger] self.workers@[w]).wf()
    }

    /// A pool of `processes` workers (ten when unspecified), none of
    /// which has seen work yet.
    pub fn new(processes: Option<usize>) -> (r: ProcessPool<T>)
        requires
            (processes matches Some(n) ==> n > 0),
        ensures
            r.wf(),
            r.workers@.len() == (match processes {
                Some(n) => n as int,
                None => 10,
            }),
            r.rr.counter == 0,
            r.rr.base == 0,
            r.rr.modulus == r.workers@.len(),
            forall|w: int|
                0 <= w < r.workers@.len() ==> (#[trigger] r.workers@[w]).queue@.len() == 0 && r.workers@[w].received == 0
                    && r.workers@[w].tail == 0,
    {
        let count = match processes {
            Some(n) => n,
            None => 10,
        };
        let mut workers: Vec<ProcessInner<T>> = Vec::new();
        let mut i: usize = 0;
        while i < count
            invariant
                i <= count,
                workers@.len() == i,
                forall|w: int|
                    0 <= w < i ==> (#[trigger] workers@[w]).wf() && workers@[w].queue@.len() == 0
                        && workers@[w].received == 0 && workers@[w].tail == 0,
            decreases count - i,
        {
            workers.push(ProcessInner::new());
            i = i + 1;
        }
        ProcessPool { workers, rr: RoundRobin::new(0, count) }
    }

    /// How many worker processes the pool federates.
    pub fn processes(&self) -> (r: usize)
        ensures
            r == self.workers@.len(),
    {
        self.workers.len()
    }

    /// Route one unit of work: the cursor picks the worker, whose queue
    /// gains an awaiting slot. Answers the worker and the submission
    /// index to await; the driver sends the serialised closure to that
    /// worker's inbound channel.
    pub fn spawn(&mut self) -> (r: (usize, usize))
        requires
            old(self).wf(),
            old(self).rr.counter < u64::MAX,
            forall|w: int|
                0 <= w < old(self).workers@.len() ==> (#[trigger] old(self).workers@[w]).tail + old(
                    self,
                ).workers@[w].queue@.len() < usize::MAX,
        ensures
            final(self).wf(),
            r.0 == rr_assign(
                old(self).rr.base as int,
                old(self).rr.modulus as int,
                old(self).rr.counter as int,
            ),
            r.0 < old(self).workers@.len(),
            r.1 == old(self).workers@[r.0 as int].tail + old(self).workers@[r.0 as int].queue@.len(),
            final(self).rr.counter == old(self).rr.counter + 1,
            final(self).rr.base == old(self).rr.base,
            final(self).rr.modulus == old(self).rr.modulus,
            final(self).workers@ == old(self).workers@.update(
                r.0 as int,
                final(self).workers@[r.0 as int],
            ),
            final(self).workers@[r.0 as int].queue@ == old(self).workers@[r.0 as int].queue@.push(
                Queued::<T>::Awaiting,
            ),
            final(self).workers@[r.0 as int].received == old(self).workers@[r.0 as int].received,
            final(self).workers@[r.0 as int].tail == old(self).workers@[r.0 as int].tail,
    {
        let worker = self.rr.get();
        let index = self.workers[worker].push_awaiting();
        proof {
            assert(self.workers@ =~= old(self).workers@.update(
                worker as int,
                self.workers@[worker as int],
            ));
        }
        (worker, index)
    }

    /// Deliver the next response of one worker: it lands in the slot of
    /// that worker's `received`-th submission (discarded if the slot was
    /// abandoned), and consumed slots now at the front are reclaimed.
    pub fn deliver(&mut self, worker: usize, t: T)
        requires
            old(self).wf(),
            worker < old(self).workers@.len(),
            old(self).workers@[worker as int].received < old(self).workers@[worker as int].tail
                + old(self).workers@[worker as int].queue@.len(),
        ensures
            final(self).wf(),
            final(self).rr == old(self).rr,
            final(self).workers@ == old(self).workers@.update(
                worker as int,
                final(self).workers@[worker as int],
            ),
            final(self).workers@[worker as int].received == old(self).workers@[worker as int].received
                + 1,
            ({
                let before = old(self).workers@[worker as int];
                let rc = reclaim_count(before.placed(t), before.received + 1 - before.tail);
                &&& final(self).workers@[worker as int].tail == before.tail + rc
                &&& final(self).workers@[worker as int].queue@ == before.placed(t).skip(rc)
            }),
    {
        self.workers[worker].deliver(t);
        proof {
            assert(self.workers@ =~= old(self).workers@.update(
                worker as int,
                self.workers@[worker as int],
            ));
        }
    }

    /// Whether submission `index` of `worker` has its response.
    pub fn poll_ready(&self, worker: usize, index: usize) -> (r: bool)
        requires
            worker < self.workers@.len(),
        ensures
            r == (self.workers@[worker as int].received > index),
    {
        self.workers[worker].poll_ready(index)
    }

    /// Consume the response of submission `index` of `worker`.
    pub fn take(&mut self, worker: usize, index: usize) -> (t: T)
        requires
            old(self).wf(),
            worker < old(self).workers@.len(),
            old(self).workers@[worker as int].tail <= index < old(self).workers@[worker as int].tail
                + old(self).workers@[worker as int].queue@.len(),
            old(self).workers@[worker as int].slot(index as int) is Got,
        ensures
            final(self).wf(),
            final(self).rr == old(self).rr,
            t == old(self).workers@[worker as int].slot(index as int)->Got_0,
            final(self).workers@ == old(self).workers@.update(
                worker as int,
                final(self).workers@[worker as int],
            ),
            final(self).workers@[worker as int].received == old(
                self,
            ).workers@[worker as int].received,
            final(self).workers@[worker as int].tail == old(self).workers@[worker as int].tail
                + reclaim_count(
                old(self).workers@[worker as int].queue@.update(
                    index - old(self).workers@[worker as int].tail,
                    Queued::Taken,
                ),
                old(self).workers@[worker as int].received - old(
                    self,
                ).workers@[worker as int].tail,
            ),
            final(self).workers@[worker as int].queue@ == old(
                self,
            ).workers@[worker as int].queue@.update(
                index - old(self).workers@[worker as int].tail,
                Queued::Taken,
            ).skip(
                reclaim_count(
                    old(self).workers@[worker as int].queue@.update(
                        index - old(self).workers@[worker as int].tail,
                        Queued::Taken,
                    ),
                    old(self).workers@[worker as int].received - old(
                        self,
                    ).workers@[worker as int].tail,
                ),
            ),
    {
        let t = self.workers[worker].take_slot(index);
        proof {
            assert(self.workers@ =~= old(self).workers@.update(
                worker as int,
                self.workers@[worker as int],
            ));
        }
        t
    }

    /// Abandon submission `index` of `worker`: detach-only, the work is
    /// not interrupted, and the eventual response will be discarded.
    pub fn drop_handle(&mut self, worker: usize, index: usize)
        requires
            old(self).wf(),
            worker < old(self).workers@.len(),
            old(self).workers@[worker as int].tail <= index < old(self).workers@[worker as int].tail
                + old(self).workers@[worker as int].queue@.len(),
        ensures
            final(self).wf(),
            final(self).rr == old(self).rr,
            final(self).workers@ == old(self).workers@.update(
                worker as int,
                final(self).workers@[worker as int],
            ),
            final(self).workers@[worker as int].received == old(
                self,
            ).workers@[worker as int].received,
            final(self).workers@[worker as int].tail == old(self).workers@[worker as int].tail
                + reclaim_count(
                old(self).workers@[worker as int].queue@.update(
                    index - old(self).workers@[worker as int].tail,
                    Queued::Taken,
                ),
                old(self).workers@[worker as int].received - old(
                    self,
                ).workers@[worker as int].tail,
            ),
            final(self).workers@[worker as int].queue@ == old(
                self,
            ).workers@[worker as int].queue@.update(
                index - old(self).workers@[worker as int].tail,
                Queued::Taken,
            ).skip(
                reclaim_count(
                    old(self).workers@[worker as int].queue@.update(
                        index - old(self).workers@[worker as int].tail,
                        Queued::Taken,
                    ),
                    old(self).workers@[worker as int].received - old(
                        self,
                    ).workers@[worker as int].tail,
                ),
            ),
    {
        self.workers[worker].drop_slot(index);
        proof {
            assert(self.workers@ =~= old(self).workers@.update(
                worker as int,
                self.workers@[worker as int],
            ));
        }
    }

    /// How many slots one worker's queue holds.
    pub fn queue_len(&self, worker: usize) -> (r: usize)
        requires
            worker < self.workers@.len(),
        ensures
            r == self.workers@[worker as int].queue@.len(),
    {
        self.workers[worker].queue_len()
    }
}

/// Consuming or abandoning one submission's slot never touches
/// another's: after the queue reclaims its front, every other
/// still-queued submission keeps exactly the slot it had.
pub proof fn lemma_slot_noninterference<T>(
    q: Seq<Queued<T>>,
    tail: int,
    delivered: int,
    index: int,
    other: int,
)
    requires
        tail <= index < tail + q.len(),
        tail <= other < tail + q.len(),
        other != index,
        reclaim_count(q.update(index - tail, Queued::<T>::Taken), delivered) <= other - tail,
    ensures
        ({
            let updated = q.update(index - tail, Queued::<T>::Taken);
            let reclaimed = reclaim_count(updated, delivered);
            updated.skip(reclaimed)[other - (tail + reclaimed)] == q[other - tail]
        }),
{
    let updated = q.update(index - tail, Queued::<T>::Taken);
    lemma_reclaim_count_bounds(updated, delivered);
    let reclaimed = reclaim_count(updated, delivered);
    assert(updated.skip(reclaimed)[other - (tail + reclaimed)] == updated[other - tail]);
}


/// Where a run of responses lands, in order: each in the slot the
/// delivery counter names, unless that slot was abandoned. This models
/// the placement alone, head reclamation aside, which is what the
/// matching law below needs.
pub open spec fn fifo_deliver<T>(queue: Seq<Queued<T>>, delivered: int, rs: Seq<T>) -> Seq<
    Queued<T>,
>
    decreases rs.len(),
{
    if rs.len() == 0 {
        queue
    } else {
        let next = if queue[delivered] is Awaiting {
            queue.update(delivered, Queued::Got(rs[0]))
        } else {
            queue
        };
        fifo_deliver(next, delivered + 1, rs.skip(1))
    }
}

/// Per-worker FIFO: when responses r1, …, rm land in order on a worker
/// whose slots still await them, the slot of the j-th submission holds
/// exactly the j-th response — whatever order the awaiters then poll in,
/// since polling touches only other slots.
pub proof fn lemma_fifo_matching<T>(queue: Seq<Queued<T>>, delivered: int, rs: Seq<T>, j: int)
    requires
        0 <= delivered,
        delivered + rs.len() <= queue.len(),
        forall|i: int|
            delivered <= i < delivered + rs.len() ==> (#[trigger] queue[i]) is Awaiting,
        0 <= j < rs.len(),
    ensures
        fifo_deliver(queue, delivered, rs)[delivered + j] == Queued::Got(rs[j]),
    decreases rs.len(),
{
    let next = queue.update(delivered, Queued::Got(rs[0]));
    assert(queue[delivered] is Awaiting);
    if j == 0 {
        lemma_fifo_deliver_untouched(next, delivered + 1, rs.skip(1), delivered);
    } else {
        lemma_fifo_matching(next, delivered + 1, rs.skip(1), j - 1);
        assert(rs.skip(1)[j - 1] == rs[j]);
    }
}

/// Delivery writes only at the slots the counter passes: everything
/// before stays as it was.
proof fn lemma_fifo_deliver_untouched<T>(queue: Seq<Queued<T>>, delivered: int, rs: Seq<T>, j: int)
    requires
        0 <= j < delivered,
        delivered + rs.len() <= queue.len(),
        0 <= delivered,
    ensures
        fifo_deliver(queue, delivered, rs)[j] == queue[j],
    decreases rs.len(),
{
    if rs.len() == 0 {
    } else {
        let next = if queue[delivered] is Awaiting {
            queue.update(delivered, Queued::Got(rs[0]))
        } else {
            queue
        };
        lemma_fifo_deliver_untouched(next, delivered + 1, rs.skip(1), j);
    }
}

/// A marker that a type can cross threads and be shared between them.
pub fn assert_sync_and_send<T: Sync + Send>() {
}

/// The pool's bookkeeping can cross threads and be shared.
pub fn _assert() {
    assert_sync_and_send::<ProcessPool<u64>>();
}

} // verus!
