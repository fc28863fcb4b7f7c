use retro_cell::{ReadResult, RetroCell, WriteOutcome};
use std::sync::atomic::{AtomicUsize, Ordering};
use std::sync::Arc;

#[test]
fn test_basic_read_write_inplace() {
    let (mut cell, reader) = RetroCell::new(42);
    let r = reader.read(&mut cell);
    assert_eq!(*cell.get(&r), 42);
    cell.release(r);

    // With no active readers, try_write should give an in-place guard
    match cell.try_write() {
        WriteOutcome::InPlace(guard) => {
            cell.guard_set(&guard, 100);
            cell.finish_in_place(guard);
        }
        WriteOutcome::Congested(_) => panic!("Should be in-place when no readers"),
    }
    let r = reader.read(&mut cell);
    assert_eq!(*cell.get(&r), 100);
    cell.release(r);
}

#[test]
fn test_basic_cow() {
    let (mut cell, reader) = RetroCell::new(vec![1, 2]);

    // Cow write
    cell.write_cow(|v: &Vec<i32>| {
        let mut w = v.clone();
        w.push(3);
        (w, ())
    });

    let r = reader.read(&mut cell);
    assert_eq!(*cell.get(&r), vec![1, 2, 3]);
    cell.release(r);
}

#[test]
fn test_write_cow_congested() {
    let (mut cell, reader) = RetroCell::new(10);

    // Hold a read reference to force congestion
    let ref1 = reader.read(&mut cell);
    assert_eq!(*cell.get(&ref1), 10);

    // try_write should return Congested because ref1 is active
    match cell.try_write() {
        WriteOutcome::Congested(writer) => {
            writer.perform_cow(&mut cell, |_v: &i32| (20, ()));
        }
        WriteOutcome::InPlace(_) => panic!("Should be congested"),
    }

    // New reader sees new value
    let r2 = reader.read(&mut cell);
    assert_eq!(*cell.get(&r2), 20);
    // Old reader still sees old value
    assert_eq!(*cell.get(&ref1), 10);
    cell.release(r2);
    cell.release(ref1);
}

#[test]
fn test_read_retro_when_locked() {
    let (mut cell, reader) = RetroCell::new(10);

    // Initial COW update to populate 'previous'
    cell.write_cow(|_v: &i32| (20, ()));
    // current=20, previous=10

    // Lock in place
    let guard = cell.write_in_place();
    match reader.try_read(&mut cell) {
        ReadResult::Blocked(blocked) => {
            // Can read retro (previous value)
            if let Some(val) = blocked.read_retro(&mut cell) {
                assert_eq!(*cell.get(&val), 10);
                cell.release(val);
            } else {
                panic!("Should have retro value");
            }

            cell.guard_set(&guard, 30);
            cell.finish_in_place(guard);

            // With the lock released, waiting yields the new value
            let val = blocked.wait(&mut cell);
            assert_eq!(*cell.get(&val), 30);
            cell.release(val);
        }
        ReadResult::Success(_) => panic!("Should be blocked"),
    }
}

#[derive(Clone)]
struct Counted {
    _id: usize,
    counter: Arc<AtomicUsize>,
}

impl Drop for Counted {
    fn drop(&mut self) {
        self.counter.fetch_add(1, Ordering::SeqCst);
    }
}

#[test]
fn test_garbage_collection() {
    let drop_count = Arc::new(AtomicUsize::new(0));
    let (mut cell, _reader) = RetroCell::new(Counted { _id: 0, counter: drop_count.clone() });

    // Create many updates
    for i in 1..=100 {
        let dc = drop_count.clone();
        cell.write_cow(move |_t: &Counted| (Counted { _id: i, counter: dc.clone() }, ()));
    }

    // Do one more write to trigger GC
    cell.write_cow(|t: &Counted| (t.clone(), ()));

    // We created: 1 initial + 100 updates + 1 final copy = 102 values.
    // The current value is alive. The previous value is kept (for retro
    // reads). So besides a couple of pooled storages nothing stays alive.
    let dropped = drop_count.load(Ordering::SeqCst);
    assert!(dropped >= 90, "Expected ~99 drops, got {}", dropped);
}

#[test]
fn test_no_retro_available() {
    let (mut cell, reader) = RetroCell::new(1);
    // No updates yet, so no previous value
    assert!(reader.read_retro(&mut cell).is_none());
}
