use retro_cell::{
    blocked_step, drain_decision, release_wakes, Backoff, BlockedStep, DrainStep, Notifier,
    ReadResult, RetroCell, WriteOutcome, DRAIN_SPIN_LIMIT, WAITING_BIT,
};

#[test]
fn test_try_write_success() {
    let (mut cell, reader) = RetroCell::new(0usize);

    match cell.try_write() {
        WriteOutcome::InPlace(guard) => {
            cell.guard_set(&guard, 10);
            cell.finish_in_place(guard);
        }
        WriteOutcome::Congested(_) => {
            panic!("Should be in-place as there are no readers");
        }
    }

    let r = reader.read(&mut cell);
    assert_eq!(*cell.get(&r), 10);
    cell.release(r);
}

#[test]
fn test_try_write_congested() {
    let (mut cell, reader) = RetroCell::new(0usize);

    let guard = reader.read(&mut cell);

    // try_write must fail to lock in-place because the reader count is
    // positive
    match cell.try_write() {
        WriteOutcome::Congested(_) => {}
        WriteOutcome::InPlace(_) => {
            panic!("Should be congested due to active reader");
        }
    }

    cell.release(guard);
}

#[test]
fn test_retro_read() {
    let (mut cell, reader) = RetroCell::new(0usize);

    cell.write_cow(|_val: &usize| (1, ()));

    let retro = reader.read_retro(&mut cell);
    assert!(retro.is_some());
    let retro = retro.unwrap();
    assert_eq!(*cell.get(&retro), 0);
    cell.release(retro);

    let current = reader.read(&mut cell);
    assert_eq!(*cell.get(&current), 1);
    cell.release(current);
}

#[test]
fn test_try_read_blocked() {
    let (mut cell, reader) = RetroCell::new(0usize);

    // The writer holds the lock: a read attempt must route to the
    // blocked-reader protocol
    let guard = cell.write_in_place();
    match reader.try_read(&mut cell) {
        ReadResult::Blocked(_) => {}
        ReadResult::Success(_) => {
            panic!("Should be blocked");
        }
    }
    cell.guard_set(&guard, 1);
    cell.finish_in_place(guard);

    let r = reader.read(&mut cell);
    assert_eq!(*cell.get(&r), 1);
    cell.release(r);
}

#[test]
fn write_in_place_publishes_on_finish() {
    let (mut cell, reader) = RetroCell::new(0);
    let guard = cell.write_in_place();
    cell.guard_set(&guard, 1);
    assert_eq!(*cell.guard_get(&guard), 1);
    cell.finish_in_place(guard);
    let r = reader.read(&mut cell);
    assert_eq!(*cell.get(&r), 1);
    cell.release(r);
}

#[test]
fn pinned_node_survives_sibling_release() {
    let (mut cell, reader) = RetroCell::new(7);
    let r1 = reader.read(&mut cell);
    let r2 = reader.read(&mut cell);
    assert_eq!(r1.addr(), r2.addr());
    cell.release(r1);
    // The node is still pinned by r2 and keeps its value
    assert_eq!(*cell.get(&r2), 7);
    cell.release(r2);
}

#[test]
fn retro_survives_many_writes_while_pinned() {
    let (mut cell, reader) = RetroCell::new(0);
    cell.write_cow(|_v: &i32| (1, ()));
    // Pin the previous snapshot, then keep writing: the pinned node must
    // not be recycled while the reference exists
    let retro = reader.read_retro(&mut cell).expect("previous exists");
    assert_eq!(*cell.get(&retro), 0);
    for i in 2..30 {
        cell.write_cow(move |_v: &i32| (i, ()));
    }
    assert_eq!(*cell.get(&retro), 0);
    cell.release(retro);
    let r = reader.read(&mut cell);
    assert_eq!(*cell.get(&r), 29);
    cell.release(r);
}

#[test]
fn drain_decision_protocol() {
    // Quiescent word: the drain is over, whatever the spin count
    assert_eq!(drain_decision(0, 0), DrainStep::Done);
    assert_eq!(drain_decision(WAITING_BIT, 100), DrainStep::Done);
    // Readers present, waiter flag down: raise the flag
    assert_eq!(drain_decision(2, 0), DrainStep::SetWaiting(2 | WAITING_BIT));
    // Flag up, spins left: stay on the CPU
    assert_eq!(
        drain_decision(2 | WAITING_BIT, DRAIN_SPIN_LIMIT - 1),
        DrainStep::Spin
    );
    // Flag up, spins exhausted: park on the observed word
    assert_eq!(
        drain_decision(2 | WAITING_BIT, DRAIN_SPIN_LIMIT),
        DrainStep::Sleep(2 | WAITING_BIT)
    );
}

#[test]
fn release_wakes_only_last_reader_under_flag() {
    // Last reader, flag up: exactly one wake
    assert!(release_wakes(1 | WAITING_BIT));
    // Last reader, no waiter: no syscall owed
    assert!(!release_wakes(1));
    // Not the last reader: no wake yet
    assert!(!release_wakes(2 | WAITING_BIT));
}

#[test]
fn notifier_tickets_advance() {
    let mut n = Notifier::new();
    let t0 = n.ticket();
    assert_eq!(t0, 0);
    // A wait on a stale expectation returns
    n.wait_ticket(t0.wrapping_add(1));
    n.advance_and_wake();
    assert_eq!(n.ticket(), 1);
    n.advance_and_wake();
    assert_eq!(n.ticket(), 2);
}

#[test]
fn backoff_switches_to_yield() {
    let mut b = Backoff::new();
    assert!(!b.is_yielding());
    for _ in 0..10 {
        b.snooze();
    }
    assert!(b.is_yielding());
    // The step saturates: more snoozes keep the same advice
    for _ in 0..100 {
        b.snooze();
    }
    assert!(b.is_yielding());
}

#[test]
fn write_cow_returns_closure_result() {
    let (mut cell, reader) = RetroCell::new(5);
    // The closure's second component comes back to the caller
    let seen = cell.write_cow(|v: &i32| (*v + 1, *v));
    assert_eq!(seen, 5);
    let r = reader.read(&mut cell);
    assert_eq!(*cell.get(&r), 6);
    cell.release(r);
}

#[test]
fn cow_publishes_a_different_node() {
    let (mut cell, reader) = RetroCell::new(1);
    let r1 = reader.read(&mut cell);
    cell.write_cow(|_v: &i32| (2, ()));
    let r2 = reader.read(&mut cell);
    // Copy-on-write moved to fresh storage; the old node is the snapshot
    assert_ne!(r1.addr(), r2.addr());
    let retro = reader.read_retro(&mut cell).expect("previous exists");
    assert_eq!(retro.addr(), r1.addr());
    cell.release(retro);
    cell.release(r2);
    cell.release(r1);
}

#[test]
fn blocked_step_protocol() {
    // Lock tag clear: retain at the word's address, whatever the ticket
    assert_eq!(blocked_step(4, None), BlockedStep::TryRetain(4));
    assert_eq!(blocked_step(4, Some(7)), BlockedStep::TryRetain(4));
    // Locked and no ticket in hand: take one before parking
    assert_eq!(blocked_step(5, None), BlockedStep::TakeTicket);
    // Still locked after the ticket was taken: park on it
    assert_eq!(blocked_step(5, Some(7)), BlockedStep::Park(7));
}

#[test]
fn pool_recycles_addresses() {
    let (mut cell, reader) = RetroCell::new(0);
    let mut addrs: Vec<u64> = vec![];
    for i in 1..20 {
        cell.write_cow(move |_v: &i32| (i, ()));
        let r = reader.read(&mut cell);
        addrs.push(r.addr());
        cell.release(r);
    }
    // With no reader pinning anything, the collector recycles storages and
    // the cell cycles through at most three of them in all
    addrs.sort();
    addrs.dedup();
    assert!(addrs.len() <= 3, "expected at most 3 storages, got {}", addrs.len());
}
