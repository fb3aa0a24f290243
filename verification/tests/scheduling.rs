use kcore::context::{CONTEXT_ENTRY_RETURN, INIT_CS, INIT_RFLAGS, INIT_SS, USTACK_SIZE};
use kcore::proc::Process;
use kcore::sched::{enter, init, yield_now, Semaphore, SwitchAction};

#[test]
fn init_creates_idle() {
    let s = init(0);
    assert!(s.tasks.len() == 1);
    assert!(s.idle == 0);
    assert!(s.current == 0);
    assert!(s.queue_head == None);
    assert!(s.tasks[0].id == 1);
    assert!(s.tasks[0].sched.prev == None);
    assert!(s.tasks[0].sched.next == None);
}

#[test]
fn spawn_assigns_monotonic_ids() {
    let mut s = init(0);
    let a = s.spawn(0x1000, 0, "a");
    let b = s.spawn(0x2000, 0, "b");
    assert!(a == 1 && b == 2);
    assert!(s.tasks[a].id == 2);
    assert!(s.tasks[b].id == 3);
    assert!(s.tasks[a].sched.next == None);
    assert!(s.tasks[a].sched.prev == None);
}

#[test]
fn queue_links_single_task_circularly() {
    let mut s = init(0);
    let a = s.spawn(0x1000, 0, "a");
    s.queue(a);
    assert!(s.queue_head == Some(a));
    assert!(s.tasks[a].sched.next == Some(a));
    assert!(s.tasks[a].sched.prev == Some(a));
}

#[test]
fn queue_inserts_at_tail_of_rotation() {
    let mut s = init(0);
    let a = s.spawn(0x1000, 0, "a");
    let b = s.spawn(0x2000, 0, "b");
    let c = s.spawn(0x3000, 0, "c");
    s.queue(a);
    s.queue(b);
    s.queue(c);
    // rotation a -> b -> c -> a, head stays a
    assert!(s.queue_head == Some(a));
    assert!(s.tasks[a].sched.next == Some(b));
    assert!(s.tasks[b].sched.next == Some(c));
    assert!(s.tasks[c].sched.next == Some(a));
    assert!(s.tasks[a].sched.prev == Some(c));
    assert!(s.tasks[b].sched.prev == Some(a));
    assert!(s.tasks[c].sched.prev == Some(b));
}

#[test]
fn ready_list_stays_circular_through_queue_dequeue() {
    let mut s = init(0);
    let a = s.spawn(0x1000, 0, "a");
    let b = s.spawn(0x2000, 0, "b");
    let c = s.spawn(0x3000, 0, "c");
    let d = s.spawn(0x4000, 0, "d");
    s.queue(a);
    s.queue(b);
    s.queue(c);
    s.queue(d);
    s.dequeue(b);
    s.dequeue(d);
    s.queue(b);
    // every member's neighbour links invert each other
    let members = [a, c, b];
    for &m in members.iter() {
        let nx = s.tasks[m].sched.next.unwrap();
        let pv = s.tasks[m].sched.prev.unwrap();
        assert!(s.tasks[nx].sched.prev == Some(m));
        assert!(s.tasks[pv].sched.next == Some(m));
        assert!(members.contains(&nx));
        assert!(members.contains(&pv));
    }
    // the head is a member
    assert!(members.contains(&s.queue_head.unwrap()));
    // the dequeued task carries no links
    assert!(s.tasks[d].sched.next == None);
    assert!(s.tasks[d].sched.prev == None);
}

#[test]
fn dequeue_and_requeue_keeps_relative_order() {
    let mut s = init(0);
    let a = s.spawn(0x1000, 0, "a");
    let b = s.spawn(0x2000, 0, "b");
    let c = s.spawn(0x3000, 0, "c");
    s.queue(a);
    s.queue(b);
    s.queue(c);
    enter(&mut s);
    assert!(s.current == a);

    // b is not current: only links are patched, no transfer
    assert!(s.dequeue(b) == None);
    assert!(s.tasks[a].sched.next == Some(c));
    assert!(s.tasks[c].sched.prev == Some(a));

    s.queue(b);
    // a and c keep their relative order; b re-enters at the tail
    assert!(s.tasks[a].sched.next == Some(c));
    assert!(s.tasks[c].sched.next == Some(b));
    assert!(s.tasks[b].sched.next == Some(a));
}

#[test]
fn switch_with_only_idle_is_noop() {
    let mut s = init(0);
    let first = enter(&mut s);
    assert!(first == s.idle);
    assert!(s.current == s.idle);
    // nothing queued, idle running: no context transfer
    assert!(s.switch() == None);
    assert!(s.current == s.idle);
}

#[test]
fn round_robin_three_task_cycle() {
    let mut s = init(0);
    let a = s.spawn(0x1000, 0, "a");
    let b = s.spawn(0x2000, 0, "b");
    let c = s.spawn(0x3000, 0, "c");
    s.queue(a);
    s.queue(b);
    s.queue(c);
    let first = enter(&mut s);
    assert!(first == a && s.current == a);

    assert!(s.switch() == Some(SwitchAction { from: a, to: b }));
    assert!(s.current == b);
    assert!(s.switch() == Some(SwitchAction { from: b, to: c }));
    assert!(s.current == c);
    assert!(s.switch() == Some(SwitchAction { from: c, to: a }));
    assert!(s.current == a);
}

#[test]
fn switch_from_idle_picks_head() {
    let mut s = init(0);
    let first = enter(&mut s);
    assert!(first == s.idle);
    let a = s.spawn(0x1000, 0, "a");
    s.queue(a);
    assert!(s.switch() == Some(SwitchAction { from: s.idle, to: a }));
    assert!(s.current == a);
}

#[test]
fn sole_task_keeps_running() {
    let mut s = init(0);
    let a = s.spawn(0x1000, 0, "a");
    s.queue(a);
    enter(&mut s);
    assert!(s.current == a);
    // its own successor is itself: no transfer
    assert!(s.switch() == None);
    assert!(s.current == a);
}

#[test]
fn dequeue_sole_current_switches_to_idle() {
    let mut s = init(0);
    let a = s.spawn(0x1000, 0, "a");
    s.queue(a);
    enter(&mut s);
    assert!(s.current == a);

    let action = s.dequeue(a);
    assert!(action == Some(SwitchAction { from: a, to: s.idle }));
    assert!(s.current == s.idle);
    assert!(s.queue_head == None);
    assert!(s.tasks[a].sched.next == None);
    assert!(s.tasks[a].sched.prev == None);
}

#[test]
fn dequeue_current_switches_to_successor() {
    let mut s = init(0);
    let a = s.spawn(0x1000, 0, "a");
    let b = s.spawn(0x2000, 0, "b");
    s.queue(a);
    s.queue(b);
    enter(&mut s);
    assert!(s.current == a);
    let action = s.dequeue(a);
    assert!(action == Some(SwitchAction { from: a, to: b }));
    assert!(s.current == b);
    assert!(s.queue_head == Some(b));
}

#[test]
fn yield_now_is_the_preemption_hook() {
    let mut s = init(0);
    let a = s.spawn(0x1000, 0, "a");
    let b = s.spawn(0x2000, 0, "b");
    s.queue(a);
    s.queue(b);
    enter(&mut s);
    assert!(yield_now(&mut s) == Some(SwitchAction { from: a, to: b }));
    assert!(s.current == b);
}

#[test]
fn current_names_the_running_process() {
    let mut s = init(0);
    let a = s.spawn(0x1000, 0, "a");
    s.queue(a);
    enter(&mut s);
    assert!(Process::current(&s).id == s.tasks[a].id);
}

#[test]
fn semaphore_wait_blocks_and_signal_readmits() {
    let mut s = init(0);
    let a = s.spawn(0x1000, 0, "a");
    let b = s.spawn(0x2000, 0, "b");
    s.queue(a);
    s.queue(b);
    enter(&mut s);
    assert!(s.current == a);

    let mut sem = Semaphore::new(0);
    // task a blocks: it disappears from the ready list
    let action = sem.wait(&mut s);
    assert!(action == Some(SwitchAction { from: a, to: b }));
    assert!(s.current == b);
    assert!(s.tasks[a].sched.next == None);
    assert!(s.tasks[a].sched.prev == None);
    assert!(s.queue_head == Some(b));
    assert!(sem.waiters == vec![a]);

    // a later signal re-admits a to the ready list
    sem.signal(&mut s);
    assert!(sem.waiters.is_empty());
    assert!(sem.count == 0);
    assert!(s.tasks[b].sched.next == Some(a));
    assert!(s.tasks[a].sched.next == Some(b));
    assert!(s.tasks[a].sched.prev == Some(b));
}

#[test]
fn semaphore_counts_without_blocking() {
    let mut s = init(0);
    let a = s.spawn(0x1000, 0, "a");
    s.queue(a);
    enter(&mut s);

    let mut sem = Semaphore::new(2);
    assert!(sem.wait(&mut s) == None);
    assert!(sem.count == 1);
    assert!(sem.wait(&mut s) == None);
    assert!(sem.count == 0);

    // no waiter recorded: the unit is banked
    sem.signal(&mut s);
    assert!(sem.count == 1);
    assert!(sem.waiters.is_empty());
}

#[test]
fn spawned_task_enters_at_entry_with_zeroed_registers() {
    let mut s = init(0);
    let a = s.spawn(0xCAFE, 0, "a");
    s.queue(a);
    let first = enter(&mut s);
    assert!(first == a);

    let ctx = &s.tasks[a].context;
    let top = ctx.kstack.len();
    assert!(ctx.rsp0_top == top);
    assert!(ctx.rsp0 == top - 12);
    // privilege-transition frame
    assert!(ctx.kstack[top - 1] == INIT_SS);
    assert!(ctx.kstack[top - 2] == USTACK_SIZE as u64);
    assert!(ctx.kstack[top - 3] == INIT_RFLAGS);
    assert!(ctx.kstack[top - 4] == INIT_CS);
    assert!(ctx.kstack[top - 5] == 0xCAFE);
    // trampoline return address
    assert!(ctx.kstack[top - 6] == CONTEXT_ENTRY_RETURN);
    // callee-saved registers are deterministically zero
    for i in 1..=6 {
        assert!(ctx.kstack[top - 6 - i] == 0);
    }
    // the user stack starts zero-filled
    assert!(ctx.ustack.iter().all(|&x| x == 0));
}
