use crate::proc::Process;
use vstd::prelude::*;

verus! {

/// Intrusive ready-queue link of a task.  `prev` and `next` hold the arena
/// slots of the neighbouring ready-list members; both are `None` exactly when
/// the task is on no list.
pub struct SchedulerHead {
    pub prev: Option<usize>,
    pub next: Option<usize>,
}

impl SchedulerHead {
    /// The unlinked state.
    pub fn empty() -> (h: SchedulerHead)
        ensures
            h.prev is None,
            h.next is None,
    {
        SchedulerHead { prev: None, next: None }
    }
}

/// A context transfer that the architecture layer must perform after a
/// scheduling decision: save into the context of slot `from`, restore the
/// context of slot `to`.
#[derive(Clone, Copy, Debug, PartialEq, Eq, Structural)]
pub struct SwitchAction {
    pub from: usize,
    pub to: usize,
}

/// The per-CPU scheduler: the owner of every task, of `current`, of the
/// reserved `idle` task, and of the circular doubly-linked ready list.
///
/// Tasks live in an arena (`tasks`); a task is addressed by its stable slot
/// index.  The ready list is kept through the intrusive `sched` links of its
/// members, and `ring` is its ghost model: the rotation of member slots
/// starting at `queue_head`.
///
/// Every operation takes the scheduler by exclusive reference: the whole
/// mutation is one critical section, and no interrupt-driven re-entry can
/// observe a half-mutated ready list.
///
/// Ordering is only approximately FIFO, and deliberately so: `queue` inserts
/// relative to `queue_head`'s tail while `switch` advances from `current`'s
/// own position, so the rotation order can drift once tasks are repeatedly
/// blocked and re-queued.
pub struct Scheduler {
    pub tasks: Vec<Process>,
    pub current: usize,
    pub idle: usize,
    pub queue_head: Option<usize>,
    pub next_id: i32,
    pub ring: Ghost<Seq<usize>>,
}

impl Scheduler {
    /// The ready list as a rotation of arena slots starting at `queue_head`.
    pub open spec fn ring(&self) -> Seq<usize> {
        self.ring@
    }

    /// Slot that follows ring position `i`, wrapping around.
    pub open spec fn ring_next(&self, i: int) -> usize {
        self.ring()[if i + 1 == self.ring().len() { 0 } else { i + 1 }]
    }

    /// Slot that precedes ring position `i`, wrapping around.
    pub open spec fn ring_prev(&self, i: int) -> usize {
        self.ring()[if i == 0 { self.ring().len() - 1 } else { i - 1 }]
    }

    /// Scheduler invariant: the ready list is validly circular and
    /// doubly-linked, `queue_head` is its first member or `None`, the idle
    /// task is never a member, unqueued tasks carry no links, the running
    /// task is a member or idle, and ids are unique and bounded by the
    /// monotonic counter.
    pub open spec fn wf(&self) -> bool {
        &&& self.idle < self.tasks.len()
        &&& self.current < self.tasks.len()
        &&& self.ring().no_duplicates()
        &&& forall|i: int|
            0 <= i < self.ring().len() ==> (#[trigger] self.ring()[i]) < self.tasks.len()
        &&& !self.ring().contains(self.idle)
        &&& (self.ring().len() == 0 <==> self.queue_head is None)
        &&& (self.ring().len() > 0 ==> self.queue_head == Some(self.ring()[0]))
        &&& forall|i: int|
            0 <= i < self.ring().len() ==> (#[trigger] self.tasks@[self.ring()[i] as int].sched.next)
                == Some(self.ring_next(i))
        &&& forall|i: int|
            0 <= i < self.ring().len() ==> (#[trigger] self.tasks@[self.ring()[i] as int].sched.prev)
                == Some(self.ring_prev(i))
        &&& forall|t: int|
            0 <= t < self.tasks.len() && !self.ring().contains(t as usize)
                ==> (#[trigger] self.tasks@[t].sched.next) is None
                    && self.tasks@[t].sched.prev is None
        &&& (self.current == self.idle || self.ring().contains(self.current))
        &&& forall|t: int| 0 <= t < self.tasks.len() ==> (#[trigger] self.tasks@[t].id) <= self.next_id
        &&& forall|t1: int, t2: int|
            0 <= t1 < self.tasks.len() && 0 <= t2 < self.tasks.len() && t1 != t2
                ==> self.tasks@[t1].id != self.tasks@[t2].id
    }

    /// The ready list after `t` leaves it: the rotation with `t` deleted,
    /// starting at the old head's survivor.
    pub open spec fn ring_after_dequeue(&self, t: usize) -> Seq<usize> {
        self.ring().remove(self.ring().index_of(t))
    }

    /// The task that takes over when `t`, the running task, leaves the ready
    /// list: its successor in the rotation, or idle if the list empties.
    pub open spec fn dequeue_successor(&self, t: usize) -> usize {
        if self.ring().len() <= 1 {
            self.idle
        } else {
            self.ring_next(self.ring().index_of(t))
        }
    }

    /// Insert `t` into the circular ready list.  An empty list makes `t`
    /// self-linked and the head; otherwise `t` goes immediately before
    /// `queue_head`, i.e. at the tail of the rotation.
    pub fn queue(&mut self, t: usize)
        requires
            old(self).wf(),
            t < old(self).tasks.len(),
            t != old(self).idle,
            !old(self).ring().contains(t),
        ensures
            final(self).wf(),
            final(self).ring() == old(self).ring().push(t),
            final(self).current == old(self).current,
            final(self).idle == old(self).idle,
            final(self).next_id == old(self).next_id,
            final(self).tasks.len() == old(self).tasks.len(),
            forall|s: int|
                0 <= s < old(self).tasks.len() ==> (#[trigger] final(self).tasks@[s]).id
                    == old(self).tasks@[s].id
                    && final(self).tasks@[s].context == old(self).tasks@[s].context,
    {
        let ghost r0 = self.ring@;
        match self.queue_head {
            None => {
                set_prev(&mut self.tasks, t, Some(t));
                set_next(&mut self.tasks, t, Some(t));
                self.queue_head = Some(t);
                let ghost r1: Seq<usize> = seq![t];
                self.ring = Ghost(r1);
                proof {
                    let r1 = self.ring@;
                    assert(r1.len() == 1 && r1[0] == t);
                    assert forall|y: usize| r1.contains(y) implies y == t by {}
                    assert(r1.contains(t)) by { assert(r1[0] == t); }
                    assert(self.ring_next(0) == t);
                    assert(self.ring_prev(0) == t);
                    assert forall|s: int|
                        0 <= s < self.tasks.len() && !r1.contains(s as usize)
                            implies (#[trigger] self.tasks@[s].sched.next) is None
                                && self.tasks@[s].sched.prev is None by {
                        assert(s != t);
                        assert(!r0.contains(s as usize)) by {
                            if r0.contains(s as usize) {
                                let i = choose|i: int| 0 <= i < r0.len() && r0[i] == s as usize;
                            }
                        }
                    }
                }
            },
            Some(h) => {
                proof {
                    assert(r0.len() > 0 && r0[0] == h);
                    assert(self.tasks@[h as int].sched.prev == Some(self.ring_prev(0)));
                }
                let tail = self.tasks[h].sched.prev.unwrap();
                proof {
                    assert(tail == r0[r0.len() - 1]);
                    lemma_contains_index(r0, r0.len() - 1);
                }
                set_next(&mut self.tasks, tail, Some(t));
                set_prev(&mut self.tasks, t, Some(tail));
                set_prev(&mut self.tasks, h, Some(t));
                set_next(&mut self.tasks, t, Some(h));
                self.ring = Ghost(r0.push(t));
                proof {
                    let r1 = self.ring@;
                    let len0 = r0.len() as int;
                    lemma_push_contains(r0, t);
                    assert(r1.no_duplicates()) by {
                        assert forall|i: int, j: int|
                            0 <= i < r1.len() && 0 <= j < r1.len() && i != j implies r1[i] != r1[j] by {
                            if i < len0 && j < len0 {
                            } else if j == len0 {
                                lemma_contains_index(r0, i);
                            } else {
                                lemma_contains_index(r0, j);
                            }
                        }
                    }
                    // links of every ring member are consistent with the new rotation
                    assert forall|i: int|
                        0 <= i < r1.len() implies (#[trigger] self.tasks@[r1[i] as int].sched.next)
                            == Some(self.ring_next(i))
                            && self.tasks@[r1[i] as int].sched.prev == Some(self.ring_prev(i)) by {
                        lemma_contains_index(r0, 0);
                        if len0 > 1 {
                            lemma_contains_index(r0, len0 - 1);
                        }
                        if i == len0 {
                            // the new tail t: next wraps to the head, prev is the old tail
                            assert(r1[i] == t);
                        } else if i == len0 - 1 {
                            // the old tail: next now points at t
                            assert(r1[i] == r0[len0 - 1]);
                        } else if i == 0 {
                            // the head: prev now points at t, next unchanged
                            assert(r1[i] == h);
                        } else {
                            // interior members are untouched
                            assert(r1[i] == r0[i]);
                            lemma_contains_index(r0, i);
                            assert(r0[i] != t);
                            assert(r0[i] != r0[0]);
                            assert(r0[i] != r0[len0 - 1]);
                        }
                    }
                    assert forall|s: int|
                        0 <= s < self.tasks.len() && !r1.contains(s as usize)
                            implies (#[trigger] self.tasks@[s].sched.next) is None
                                && self.tasks@[s].sched.prev is None by {
                        assert(!r0.contains(s as usize));
                        assert(s != t && s as usize != tail && s as usize != h) by {
                            lemma_contains_index(r0, 0);
                            lemma_contains_index(r0, len0 - 1);
                        }
                    }
                    assert(r1[0] == h);
                }
            },
        }
    }

    /// Unlink `t` from the ready list, relinking its neighbours.  Dequeuing
    /// the running task is "block current": the scheduler moves `current` to
    /// the successor (or to idle if the list empties) and reports the context
    /// transfer that must be performed.  Dequeuing any other task only
    /// patches links; no transfer happens.
    pub fn dequeue(&mut self, t: usize) -> (action: Option<SwitchAction>)
        requires
            old(self).wf(),
            old(self).ring().contains(t),
        ensures
            final(self).wf(),
            final(self).ring() == old(self).ring_after_dequeue(t),
            !final(self).ring().contains(t),
            final(self).idle == old(self).idle,
            final(self).next_id == old(self).next_id,
            final(self).tasks.len() == old(self).tasks.len(),
            forall|s: int|
                0 <= s < old(self).tasks.len() ==> (#[trigger] final(self).tasks@[s]).id
                    == old(self).tasks@[s].id
                    && final(self).tasks@[s].context == old(self).tasks@[s].context,
            final(self).current == if t == old(self).current {
                old(self).dequeue_successor(t)
            } else {
                old(self).current
            },
            action == if t == old(self).current {
                Some(SwitchAction { from: t, to: old(self).dequeue_successor(t) })
            } else {
                None::<SwitchAction>
            },
    {
        let ghost r0 = self.ring@;
        let ghost len0 = r0.len() as int;
        let ghost idx = r0.index_of(t);
        proof {
            assert(r0[idx] == t && 0 <= idx < len0);
            assert(t < self.tasks.len());
            assert(self.tasks@[t as int].sched.next == Some(self.ring_next(idx)));
            assert(self.tasks@[t as int].sched.prev == Some(self.ring_prev(idx)));
        }
        let prev = self.tasks[t].sched.prev.unwrap();
        let next = self.tasks[t].sched.next.unwrap();
        proof {
            assert(prev == r0[if idx == 0 { len0 - 1 } else { idx - 1 }]);
            assert(next == r0[if idx + 1 == len0 { 0 } else { idx + 1 }]);
            lemma_contains_index(r0, if idx == 0 { len0 - 1 } else { idx - 1 });
            lemma_contains_index(r0, if idx + 1 == len0 { 0 } else { idx + 1 });
        }

        if next == t {
            // `t` is the only member: the list becomes empty.
            proof {
                // a distinct neighbour would contradict no_duplicates
                assert(len0 == 1) by {
                    if len0 > 1 {
                        let nidx = if idx + 1 == len0 { 0int } else { idx + 1 };
                        assert(r0[nidx] == r0[idx] && nidx != idx);
                    }
                }
            }
            set_prev(&mut self.tasks, t, None);
            set_next(&mut self.tasks, t, None);
            self.queue_head = None;
            let ghost r1: Seq<usize> = Seq::empty();
            self.ring = Ghost(r1);
            proof {
                r0.remove_ensures(idx);
                assert(r0.remove(idx) =~= r1);
                assert forall|s: int|
                    0 <= s < self.tasks.len() && !r1.contains(s as usize)
                        implies (#[trigger] self.tasks@[s].sched.next) is None
                            && self.tasks@[s].sched.prev is None by {
                    if s != t {
                        assert(!r0.contains(s as usize)) by {
                            if r0.contains(s as usize) {
                                let i = choose|i: int| 0 <= i < r0.len() && r0[i] == s as usize;
                                assert(i == idx);
                            }
                        }
                    }
                }
            }
            if self.current == t {
                self.current = self.idle;
                return Some(SwitchAction { from: t, to: self.idle });
            }
            return None;
        }

        // at least two members: relink the neighbours around `t`
        proof {
            assert(len0 > 1) by {
                if len0 == 1 {
                    assert(next == r0[0] && r0[0] == t);
                }
            }
            assert(prev != t && next != t) by {
                let pidx = if idx == 0 { len0 - 1 } else { idx - 1 };
                let nidx = if idx + 1 == len0 { 0int } else { idx + 1 };
                assert(pidx != idx && nidx != idx);
            }
        }
        let h = self.queue_head.unwrap();
        if h == t {
            self.queue_head = Some(next);
        }
        set_next(&mut self.tasks, prev, Some(next));
        set_prev(&mut self.tasks, next, Some(prev));
        set_prev(&mut self.tasks, t, None);
        set_next(&mut self.tasks, t, None);
        self.ring = Ghost(r0.remove(idx));
        proof {
            let r1 = self.ring@;
            let len1 = r1.len() as int;
            let pidx = if idx == 0 { len0 - 1 } else { idx - 1 };
            let nidx = if idx + 1 == len0 { 0int } else { idx + 1 };
            r0.remove_ensures(idx);
            lemma_remove_keeps_others(r0, idx);
            assert(len1 == len0 - 1);
            // the new head
            assert(r1[0] == if idx == 0 { r0[1] } else { r0[0] });
            assert(self.queue_head == Some(r1[0]));
            // every surviving member's links follow the new rotation
            assert forall|j: int|
                0 <= j < len1 implies (#[trigger] self.tasks@[r1[j] as int].sched.next)
                    == Some(self.ring_next(j))
                    && self.tasks@[r1[j] as int].sched.prev == Some(self.ring_prev(j)) by {
                let jo = if j < idx { j } else { j + 1 };
                assert(r1[j] == r0[jo]);
                assert(jo != idx);
                let jn = if j + 1 == len1 { 0int } else { j + 1 };
                let jp = if j == 0 { len1 - 1 } else { j - 1 };
                let jno = if jn < idx { jn } else { jn + 1 };
                let jpo = if jp < idx { jp } else { jp + 1 };
                assert(r1[jn] == r0[jno]);
                assert(r1[jp] == r0[jpo]);
                if jo == pidx {
                    // this is the predecessor of `t`: its next was re-pointed
                    assert(r0[jo] == prev);
                    assert(self.tasks@[r1[j] as int].sched.next == Some(next));
                    assert(r0[jno] == r0[nidx]);
                } else {
                    // next link untouched; old successor survives at `jn`
                    assert(r0[jo] != prev && r0[jo] != t);
                    let no = if jo + 1 == len0 { 0int } else { jo + 1 };
                    assert(self.tasks@[r0[jo] as int].sched.next == Some(r0[no]));
                    assert(no == jno);
                }
                if jo == nidx {
                    // this is the successor of `t`: its prev was re-pointed
                    assert(r0[jo] == next);
                    assert(self.tasks@[r1[j] as int].sched.prev == Some(prev));
                    assert(r0[jpo] == r0[pidx]);
                } else {
                    assert(r0[jo] != next && r0[jo] != t);
                    let po = if jo == 0 { len0 - 1 } else { jo - 1 };
                    assert(self.tasks@[r0[jo] as int].sched.prev == Some(r0[po]));
                    assert(po == jpo);
                }
            }
            assert forall|s: int|
                0 <= s < self.tasks.len() && !r1.contains(s as usize)
                    implies (#[trigger] self.tasks@[s].sched.next) is None
                        && self.tasks@[s].sched.prev is None by {
                if s != t {
                    assert(!r0.contains(s as usize));
                    assert(s as usize != prev && s as usize != next) by {
                        lemma_contains_index(r0, pidx);
                        lemma_contains_index(r0, nidx);
                    }
                }
            }
            assert(!r1.contains(t));
            assert(r1.contains(next)) by {
                let npos = if nidx < idx { nidx } else { nidx - 1 };
                assert(r1[npos] == r0[nidx]);
                lemma_contains_index(r1, npos);
            }
            if self.current != t {
                assert(self.current == self.idle || r1.contains(self.current)) by {
                    if self.current != self.idle {
                        assert(r0.contains(self.current));
                    }
                }
            }
        }
        if self.current == t {
            self.current = next;
            return Some(SwitchAction { from: t, to: next });
        }
        None
    }

    /// Round-robin selection policy: the successor of the running task if it
    /// is still a ready-list member, else the head of the ready list, else
    /// idle.
    pub open spec fn switch_candidate(&self) -> usize {
        if self.ring().contains(self.current) {
            self.ring_next(self.ring().index_of(self.current))
        } else if self.ring().len() > 0 {
            self.ring()[0]
        } else {
            self.idle
        }
    }

    /// Advance to the next task per the selection policy.  No context
    /// transfer is performed when the candidate is already running; in
    /// particular, with nothing queued and idle running, this is a no-op.
    pub fn switch(&mut self) -> (action: Option<SwitchAction>)
        requires
            old(self).wf(),
        ensures
            final(self).wf(),
            final(self).tasks == old(self).tasks,
            final(self).ring() == old(self).ring(),
            final(self).queue_head == old(self).queue_head,
            final(self).idle == old(self).idle,
            final(self).next_id == old(self).next_id,
            final(self).current == old(self).switch_candidate(),
            action == if old(self).switch_candidate() == old(self).current {
                None::<SwitchAction>
            } else {
                Some(SwitchAction { from: old(self).current, to: old(self).switch_candidate() })
            },
    {
        let ghost r0 = self.ring@;
        let curr = self.current;
        let cand: usize;
        match self.tasks[curr].sched.next {
            Some(n) => {
                proof {
                    // a task with a `next` link is a ready-list member
                    assert(r0.contains(curr)) by {
                        if !r0.contains(curr) {
                            assert(self.tasks@[curr as int].sched.next is None);
                        }
                    }
                    let idx = r0.index_of(curr);
                    assert(r0[idx] == curr);
                    assert(self.tasks@[curr as int].sched.next == Some(self.ring_next(idx)));
                    lemma_contains_index(r0, if idx + 1 == r0.len() { 0int } else { idx + 1 });
                }
                cand = n;
            },
            None => {
                proof {
                    assert(!r0.contains(curr)) by {
                        if r0.contains(curr) {
                            let idx = r0.index_of(curr);
                            assert(r0[idx] == curr);
                            assert(self.tasks@[curr as int].sched.next == Some(self.ring_next(idx)));
                        }
                    }
                    if r0.len() > 0 {
                        lemma_contains_index(r0, 0);
                    }
                }
                match self.queue_head {
                    Some(h) => {
                        cand = h;
                    },
                    None => {
                        cand = self.idle;
                    },
                }
            },
        }
        if cand != curr {
            self.current = cand;
            Some(SwitchAction { from: curr, to: cand })
        } else {
            None
        }
    }

    /// Create a new task: allocate its execution context for `entry`, assign
    /// the next process-unique id, and leave it unqueued.  Returns the new
    /// task's arena slot.
    pub fn spawn(&mut self, entry: u64, arg: usize, name: &str) -> (slot: usize)
        requires
            old(self).wf(),
            old(self).next_id < i32::MAX,
        ensures
            final(self).wf(),
            slot == old(self).tasks.len(),
            final(self).tasks.len() == old(self).tasks.len() + 1,
            forall|s: int|
                0 <= s < old(self).tasks.len() ==> #[trigger] final(self).tasks@[s]
                    == old(self).tasks@[s],
            final(self).tasks@[slot as int].id == old(self).next_id + 1,
            final(self).tasks@[slot as int].sched.prev is None,
            final(self).tasks@[slot as int].sched.next is None,
            final(self).tasks@[slot as int].context.wf(),
            final(self).tasks@[slot as int].context.initial_frame_built(entry),
            final(self).ring() == old(self).ring(),
            final(self).current == old(self).current,
            final(self).idle == old(self).idle,
            final(self).queue_head == old(self).queue_head,
            final(self).next_id == old(self).next_id + 1,
    {
        self.next_id = self.next_id + 1;
        let p = Process::kspawn(self.next_id, entry, arg, name);
        let slot = self.tasks.len();
        self.tasks.push(p);
        proof {
            let r = self.ring@;
            assert(!r.contains(slot)) by {
                if r.contains(slot) {
                    let i = r.index_of(slot);
                    assert(r[i] == slot && r[i] < slot);
                }
            }
            assert forall|i: int|
                0 <= i < r.len() implies (#[trigger] self.tasks@[r[i] as int].sched.next)
                    == Some(self.ring_next(i))
                    && self.tasks@[r[i] as int].sched.prev == Some(self.ring_prev(i)) by {
                assert(r[i] < slot);
            }
        }
        slot
    }
}

/// Scheduler initialization: create the reserved idle task, which gets the
/// first process id and lives in slot 0, and an otherwise empty ready list.
/// `idle_entry` is the entry address of the idle loop.
pub fn init(idle_entry: u64) -> (s: Scheduler)
    ensures
        s.wf(),
        s.tasks.len() == 1,
        s.idle == 0,
        s.current == 0,
        s.ring().len() == 0,
        s.queue_head is None,
        s.next_id == 1,
        s.tasks@[0].id == 1,
        s.tasks@[0].context.wf(),
        s.tasks@[0].context.initial_frame_built(idle_entry),
{
    let idle_task = Process::kspawn(1, idle_entry, 0, "idle");
    let mut tasks: Vec<Process> = Vec::new();
    tasks.push(idle_task);
    let ghost r: Seq<usize> = Seq::empty();
    Scheduler { tasks, current: 0, idle: 0, queue_head: None, next_id: 1, ring: Ghost(r) }
}

/// One-time bootstrap: make the head of the ready list (or idle, with
/// nothing queued) the running task and return its slot for the initial
/// context transfer into it.  Must follow `init`, and must happen exactly
/// once.
pub fn enter(sched: &mut Scheduler) -> (first: usize)
    requires
        old(sched).wf(),
    ensures
        final(sched).wf(),
        final(sched).tasks == old(sched).tasks,
        final(sched).ring() == old(sched).ring(),
        final(sched).queue_head == old(sched).queue_head,
        final(sched).idle == old(sched).idle,
        final(sched).next_id == old(sched).next_id,
        final(sched).current == if old(sched).ring().len() > 0 {
            old(sched).ring()[0]
        } else {
            old(sched).idle
        },
        first == final(sched).current,
{
    proof {
        if sched.ring@.len() > 0 {
            lemma_contains_index(sched.ring@, 0);
        }
    }
    let first = match sched.queue_head {
        Some(h) => h,
        None => sched.idle,
    };
    sched.current = first;
    first
}

/// Voluntary yield: what the timer-interrupt preemption hook invokes on the
/// running CPU's scheduler.
pub fn yield_now(sched: &mut Scheduler) -> (action: Option<SwitchAction>)
    requires
        old(sched).wf(),
    ensures
        final(sched).wf(),
        final(sched).tasks == old(sched).tasks,
        final(sched).ring() == old(sched).ring(),
        final(sched).current == old(sched).switch_candidate(),
        action == if old(sched).switch_candidate() == old(sched).current {
            None::<SwitchAction>
        } else {
            Some(SwitchAction { from: old(sched).current, to: old(sched).switch_candidate() })
        },
{
    sched.switch()
}

/// Counting semaphore built atop the scheduler's queue/dequeue operations.
///
/// This is a conventional multi-waiter FIFO counting semaphore: `wait`
/// consumes a unit or blocks the running task, `signal` re-admits the
/// longest-blocked waiter or banks a unit.  Any number of tasks may be
/// blocked at once, each recorded in arrival order.
pub struct Semaphore {
    pub count: u32,
    pub waiters: Vec<usize>,
}

impl Semaphore {
    /// Every recorded waiter is a real, non-idle task that is blocked, i.e.
    /// off the ready list, and no task is recorded twice.
    pub open spec fn wf_with(&self, sched: &Scheduler) -> bool {
        &&& self.waiters@.no_duplicates()
        &&& forall|i: int|
            0 <= i < self.waiters.len() ==> (#[trigger] self.waiters@[i]) < sched.tasks.len()
        &&& forall|i: int|
            0 <= i < self.waiters.len() ==> (#[trigger] self.waiters@[i]) != sched.idle
        &&& forall|i: int|
            0 <= i < self.waiters.len() ==> !sched.ring().contains(#[trigger] self.waiters@[i])
    }

    /// A semaphore holding `initial` units and no recorded waiter.
    pub fn new(initial: u32) -> (s: Semaphore)
        ensures
            s.count == initial,
            s.waiters@ == Seq::<usize>::empty(),
    {
        Semaphore { count: initial, waiters: Vec::new() }
    }

    /// Consume a unit if one is available.  Otherwise record the running
    /// task as a waiter and block it: it disappears from the ready list and
    /// the returned action transfers into the task that takes over.  The
    /// blocked task proceeds past `wait` only after a later `signal`
    /// re-admits it and it is scheduled again.
    pub fn wait(&mut self, sched: &mut Scheduler) -> (action: Option<SwitchAction>)
        requires
            old(self).wf_with(old(sched)),
            old(sched).wf(),
            old(sched).ring().contains(old(sched).current),
        ensures
            final(sched).wf(),
            final(self).wf_with(final(sched)),
            old(self).count > 0 ==> {
                &&& final(self).count == old(self).count - 1
                &&& final(self).waiters == old(self).waiters
                &&& *final(sched) == *old(sched)
                &&& action is None
            },
            old(self).count == 0 ==> {
                &&& final(self).count == 0
                &&& final(self).waiters@ == old(self).waiters@.push(old(sched).current)
                &&& final(sched).ring() == old(sched).ring_after_dequeue(old(sched).current)
                &&& !final(sched).ring().contains(old(sched).current)
                &&& final(sched).current == old(sched).dequeue_successor(old(sched).current)
                &&& action == Some(
                    SwitchAction {
                        from: old(sched).current,
                        to: old(sched).dequeue_successor(old(sched).current),
                    },
                )
            },
    {
        if self.count > 0 {
            self.count = self.count - 1;
            None
        } else {
            let ghost r0 = sched.ring@;
            let ghost w0 = self.waiters@;
            let t = sched.current;
            proof {
                // the running task is not already a recorded waiter
                assert(!w0.contains(t)) by {
                    if w0.contains(t) {
                        let i = w0.index_of(t);
                        assert(w0[i] == t);
                        assert(!r0.contains(w0[i]));
                    }
                }
            }
            self.waiters.push(t);
            let action = sched.dequeue(t);
            proof {
                let idx = r0.index_of(t);
                assert(r0[idx] == t);
                lemma_remove_keeps_others(r0, idx);
                lemma_push_contains(w0, t);
                let w1 = self.waiters@;
                assert(w1.no_duplicates()) by {
                    assert forall|i: int, j: int|
                        0 <= i < w1.len() && 0 <= j < w1.len() && i != j implies w1[i] != w1[j] by {
                        if j == w0.len() as int {
                            lemma_contains_index(w0, i);
                        } else if i == w0.len() as int {
                            lemma_contains_index(w0, j);
                        }
                    }
                }
                assert forall|i: int|
                    0 <= i < w1.len() implies !sched.ring@.contains(#[trigger] w1[i]) by {
                    if i < w0.len() {
                        assert(!r0.contains(w0[i]));
                    }
                }
            }
            action
        }
    }

    /// Release: re-admit the longest-blocked waiter to the ready list, or,
    /// with no waiter recorded, bank the unit in the count.
    pub fn signal(&mut self, sched: &mut Scheduler)
        requires
            old(self).wf_with(old(sched)),
            old(sched).wf(),
            old(self).waiters.len() == 0 ==> old(self).count < u32::MAX,
        ensures
            final(sched).wf(),
            final(self).wf_with(final(sched)),
            old(self).waiters.len() > 0 ==> {
                &&& final(self).count == old(self).count
                &&& final(self).waiters@ == old(self).waiters@.drop_first()
                &&& final(sched).ring() == old(sched).ring().push(old(self).waiters@[0])
                &&& final(sched).ring().contains(old(self).waiters@[0])
                &&& final(sched).current == old(sched).current
                &&& final(sched).idle == old(sched).idle
            },
            old(self).waiters.len() == 0 ==> {
                &&& final(self).count == old(self).count + 1
                &&& final(self).waiters == old(self).waiters
                &&& *final(sched) == *old(sched)
            },
    {
        if self.waiters.len() > 0 {
            let ghost r0 = sched.ring@;
            let ghost w0 = self.waiters@;
            let w = self.waiters.remove(0);
            sched.queue(w);
            proof {
                w0.remove_ensures(0);
                assert(w0.remove(0) =~= w0.drop_first());
                lemma_push_contains(r0, w);
                lemma_contains_index(r0.push(w), r0.len() as int);
                let w1 = self.waiters@;
                assert forall|i: int|
                    0 <= i < w1.len() implies !sched.ring@.contains(#[trigger] w1[i]) by {
                    assert(w1[i] == w0[i + 1]);
                    assert(!r0.contains(w0[i + 1]));
                    assert(w0[i + 1] != w0[0]);
                }
                lemma_remove_keeps_others(w0, 0);
            }
        } else {
            self.count = self.count + 1;
        }
    }
}

/// The ready list of a well-formed scheduler is validly circular and doubly
/// linked: every member's `next` and `prev` name members, following a
/// member's `next` link and then that neighbour's `prev` link (or the other
/// way round) returns to the member, and `queue_head`, when present, names a
/// member.  Since `queue` and `dequeue` each preserve well-formedness, this
/// holds after every sequence of them.
pub proof fn lemma_ready_list_circular(s: &Scheduler)
    requires
        s.wf(),
    ensures
        forall|i: int|
            0 <= i < s.ring().len() ==> {
                let m = #[trigger] s.ring()[i];
                &&& s.tasks@[m as int].sched.next is Some
                &&& s.tasks@[m as int].sched.prev is Some
                &&& s.ring().contains(s.tasks@[m as int].sched.next.unwrap())
                &&& s.ring().contains(s.tasks@[m as int].sched.prev.unwrap())
                &&& s.tasks@[s.tasks@[m as int].sched.next.unwrap() as int].sched.prev == Some(m)
                &&& s.tasks@[s.tasks@[m as int].sched.prev.unwrap() as int].sched.next == Some(m)
            },
        s.queue_head is Some ==> s.ring().contains(s.queue_head.unwrap()),
{
    let r = s.ring();
    let len = r.len() as int;
    assert forall|i: int|
        0 <= i < len implies {
            let m = #[trigger] r[i];
            &&& s.tasks@[m as int].sched.next is Some
            &&& s.tasks@[m as int].sched.prev is Some
            &&& s.ring().contains(s.tasks@[m as int].sched.next.unwrap())
            &&& s.ring().contains(s.tasks@[m as int].sched.prev.unwrap())
            &&& s.tasks@[s.tasks@[m as int].sched.next.unwrap() as int].sched.prev == Some(m)
            &&& s.tasks@[s.tasks@[m as int].sched.prev.unwrap() as int].sched.next == Some(m)
        } by {
        let ni = if i + 1 == len { 0int } else { i + 1 };
        let pi = if i == 0 { len - 1 } else { i - 1 };
        assert(s.tasks@[r[i] as int].sched.next == Some(r[ni]));
        assert(s.tasks@[r[i] as int].sched.prev == Some(r[pi]));
        lemma_contains_index(r, ni);
        lemma_contains_index(r, pi);
        // the neighbour's back-link returns to position i
        assert(s.tasks@[r[ni] as int].sched.prev == Some(s.ring_prev(ni)));
        assert(s.ring_prev(ni) == r[i]);
        assert(s.tasks@[r[pi] as int].sched.next == Some(s.ring_next(pi)));
        assert(s.ring_next(pi) == r[i]);
    }
    if s.queue_head is Some {
        lemma_contains_index(r, 0);
    }
}

/// Dequeuing a ready task other than the running one and queueing it again
/// leaves the relative order of all other ready tasks unchanged: the new
/// rotation is exactly the old one with the task deleted, followed by that
/// task at the tail, and it holds exactly the old tasks.
pub proof fn lemma_requeue_keeps_relative_order(s0: &Scheduler, t: usize)
    requires
        s0.wf(),
        s0.ring().contains(t),
        t != s0.current,
    ensures
        s0.ring_after_dequeue(t).push(t).drop_last() == s0.ring_after_dequeue(t),
        forall|y: usize|
            #[trigger] s0.ring_after_dequeue(t).contains(y) <==> (s0.ring().contains(y) && y
                != t),
        forall|y: usize|
            #[trigger] s0.ring_after_dequeue(t).push(t).contains(y) <==> s0.ring().contains(y),
{
    let r0 = s0.ring();
    let idx = r0.index_of(t);
    assert(r0[idx] == t);
    lemma_remove_keeps_others(r0, idx);
    lemma_push_contains(r0.remove(idx), t);
    assert(r0.remove(idx).push(t).drop_last() =~= r0.remove(idx));
}

/// With only idle present — nothing queued and idle running — the selection
/// policy picks the running task again, so `switch` performs no context
/// transfer.
pub proof fn lemma_switch_idle_no_transfer(s: &Scheduler)
    requires
        s.wf(),
        s.ring().len() == 0,
        s.current == s.idle,
    ensures
        s.switch_candidate() == s.current,
{
}

/// Dequeuing the running task while it is the sole ready task switches to
/// idle and leaves the ready list empty.
pub proof fn lemma_dequeue_sole_current(s: &Scheduler, t: usize)
    requires
        s.wf(),
        s.ring().len() == 1,
        s.ring().contains(t),
        t == s.current,
    ensures
        s.dequeue_successor(t) == s.idle,
        s.ring_after_dequeue(t).len() == 0,
{
    let idx = s.ring().index_of(t);
    assert(s.ring()[idx] == t);
    s.ring().remove_ensures(idx);
}

/// Blocking on a semaphore with no units and no recorded waiter, then
/// signalling it, round-trips the calling task through the blocked state:
/// after `wait` the task is off the ready list and is the first recorded
/// waiter; after the `signal` it is a ready-list member again.  The three
/// states are related exactly as the contracts of `wait` and `signal`
/// describe them.
pub proof fn lemma_wait_then_signal_readmits(
    ring0: Seq<usize>,
    x: usize,
    ring1: Seq<usize>,
    waiters1: Seq<usize>,
    ring2: Seq<usize>,
)
    requires
        ring0.no_duplicates(),
        ring0.contains(x),
        ring1 == ring0.remove(ring0.index_of(x)),
        waiters1 == Seq::<usize>::empty().push(x),
        ring2 == ring1.push(waiters1[0]),
    ensures
        !ring1.contains(x),
        ring2.contains(x),
{
    let idx = ring0.index_of(x);
    assert(ring0[idx] == x);
    lemma_remove_keeps_others(ring0, idx);
    lemma_push_contains(ring1, x);
    assert(waiters1[0] == x);
}

/// Set the `next` link of the task in slot `i`, leaving everything else of
/// the arena unchanged.
fn set_next(tasks: &mut Vec<Process>, i: usize, next: Option<usize>)
    requires
        i < old(tasks).len(),
    ensures
        final(tasks).len() == old(tasks).len(),
        final(tasks)@[i as int].sched.next == next,
        final(tasks)@[i as int].sched.prev == old(tasks)@[i as int].sched.prev,
        final(tasks)@[i as int].id == old(tasks)@[i as int].id,
        final(tasks)@[i as int].context == old(tasks)@[i as int].context,
        forall|s: int|
            0 <= s < old(tasks).len() && s != i ==> final(tasks)@[s] == old(tasks)@[s],
{
    let p = &mut tasks[i];
    p.sched.next = next;
}

/// Set the `prev` link of the task in slot `i`, leaving everything else of
/// the arena unchanged.
fn set_prev(tasks: &mut Vec<Process>, i: usize, prev: Option<usize>)
    requires
        i < old(tasks).len(),
    ensures
        final(tasks).len() == old(tasks).len(),
        final(tasks)@[i as int].sched.prev == prev,
        final(tasks)@[i as int].sched.next == old(tasks)@[i as int].sched.next,
        final(tasks)@[i as int].id == old(tasks)@[i as int].id,
        final(tasks)@[i as int].context == old(tasks)@[i as int].context,
        forall|s: int|
            0 <= s < old(tasks).len() && s != i ==> final(tasks)@[s] == old(tasks)@[s],
{
    let p = &mut tasks[i];
    p.sched.prev = prev;
}

/// Membership of a pushed element: `s.push(x)` holds exactly the elements of
/// `s` and `x`.
proof fn lemma_push_contains<T>(s: Seq<T>, x: T)
    ensures
        forall|y: T| #[trigger] s.push(x).contains(y) <==> (s.contains(y) || y == x),
{
    assert forall|y: T| #[trigger] s.push(x).contains(y) implies (s.contains(y) || y == x) by {
        let i = choose|i: int| 0 <= i < s.push(x).len() && s.push(x)[i] == y;
        if i < s.len() {
            assert(s[i] == y);
        }
    }
    assert forall|y: T| (s.contains(y) || y == x) implies #[trigger] s.push(x).contains(y) by {
        if s.contains(y) {
            let i = choose|i: int| 0 <= i < s.len() && s[i] == y;
            assert(s.push(x)[i] == y);
        } else {
            assert(s.push(x)[s.len() as int] == y);
        }
    }
}

/// Removing position `i` from a duplicate-free sequence keeps it
/// duplicate-free and removes exactly the element at `i`.
proof fn lemma_remove_keeps_others<T>(s: Seq<T>, i: int)
    requires
        0 <= i < s.len(),
        s.no_duplicates(),
    ensures
        s.remove(i).no_duplicates(),
        forall|y: T| #[trigger] s.remove(i).contains(y) <==> (s.contains(y) && y != s[i]),
{
    s.remove_ensures(i);
    let r = s.remove(i);
    assert forall|j1: int, j2: int|
        0 <= j1 < r.len() && 0 <= j2 < r.len() && j1 != j2 implies r[j1] != r[j2] by {
        let o1 = if j1 < i { j1 } else { j1 + 1 };
        let o2 = if j2 < i { j2 } else { j2 + 1 };
        assert(r[j1] == s[o1] && r[j2] == s[o2] && o1 != o2);
    }
    assert forall|y: T| #[trigger] r.contains(y) implies (s.contains(y) && y != s[i]) by {
        let j = choose|j: int| 0 <= j < r.len() && r[j] == y;
        let o = if j < i { j } else { j + 1 };
        assert(s[o] == y);
        lemma_contains_index(s, o);
        assert(o != i);
    }
    assert forall|y: T| (s.contains(y) && y != s[i]) implies #[trigger] r.contains(y) by {
        let o = choose|o: int| 0 <= o < s.len() && s[o] == y;
        assert(o != i);
        if o < i {
            assert(r[o] == y);
            lemma_contains_index(r, o);
        } else {
            assert(r[o - 1] == y);
            lemma_contains_index(r, o - 1);
        }
    }
}

/// An indexed element is contained.
proof fn lemma_contains_index<T>(s: Seq<T>, i: int)
    requires
        0 <= i < s.len(),
    ensures
        s.contains(s[i]),
{
}

} // verus!
