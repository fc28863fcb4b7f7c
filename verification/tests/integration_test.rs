use retro_cell::{ReadResult, RetroCell, WriteOutcome};

// Helper for simple updates: try in-place if possible (no readers),
// otherwise fall back to COW.
fn simple_update<T>(cell: &mut RetroCell<T>, f: impl FnOnce(&T) -> T) {
    match cell.try_write() {
        WriteOutcome::InPlace(guard) => {
            let new_val = f(cell.guard_get(&guard));
            cell.guard_set(&guard, new_val);
            cell.finish_in_place(guard);
        }
        WriteOutcome::Congested(writer) => writer.perform_cow(cell, |v: &T| (f(v), ())),
    }
}

#[test]
fn test_basic_usage() {
    let (mut writer, reader) = RetroCell::new(10);

    // Initial read
    if let ReadResult::Success(guard) = reader.try_read(&mut writer) {
        assert_eq!(*writer.get(&guard), 10);
        writer.release(guard);
    } else {
        panic!("Should read successfully");
    }

    // Update
    simple_update(&mut writer, |_val: &i32| 20);

    // Read after update
    if let ReadResult::Success(guard) = reader.try_read(&mut writer) {
        assert_eq!(*writer.get(&guard), 20);
        writer.release(guard);
    } else {
        panic!("Should read successfully");
    }
}

#[test]
fn test_inplace_update() {
    let (mut writer, reader) = RetroCell::new(100);

    let addr_1: u64;
    {
        let guard = match reader.try_read(&mut writer) {
            ReadResult::Success(g) => g,
            _ => panic!("read failed"),
        };
        addr_1 = guard.addr();
        writer.release(guard);
    } // guard released, reader count should be 0

    // Should be in-place because no readers
    match writer.try_write() {
        WriteOutcome::InPlace(guard) => {
            writer.guard_set(&guard, 101);
            writer.finish_in_place(guard);
        }
        WriteOutcome::Congested(_) => panic!("Should be InPlace update when no readers are active"),
    }

    let addr_2: u64;
    {
        let guard = match reader.try_read(&mut writer) {
            ReadResult::Success(g) => g,
            _ => panic!("read failed"),
        };
        assert_eq!(*writer.get(&guard), 101);
        addr_2 = guard.addr();
        writer.release(guard);
    }

    // In-place means addresses should be equal
    assert_eq!(addr_1, addr_2, "Should have performed in-place update");
}

#[test]
fn test_cow_update() {
    let (mut writer, reader) = RetroCell::new(200);

    let guard1 = match reader.try_read(&mut writer) {
        ReadResult::Success(g) => g,
        _ => panic!("read failed"),
    };
    let addr_1 = guard1.addr();

    // guard1 is held, so the reader count is positive: Congested.
    match writer.try_write() {
        WriteOutcome::Congested(w) => {
            w.perform_cow(&mut writer, |_val: &i32| (201, ()));
        }
        WriteOutcome::InPlace(_) => {
            panic!("Should be Congested (COW) update when readers are active")
        }
    }

    let guard2 = match reader.try_read(&mut writer) {
        ReadResult::Success(g) => g,
        _ => panic!("read failed"),
    };
    let addr_2 = guard2.addr();

    assert_eq!(*writer.get(&guard1), 200); // Old value preserved
    assert_eq!(*writer.get(&guard2), 201); // New value visible

    assert_ne!(addr_1, addr_2, "Should have performed COW update");
    writer.release(guard1);
    writer.release(guard2);
}

#[test]
fn test_read_retro_during_cow() {
    let (mut writer, reader) = RetroCell::new(10);

    // Step 1: COW update to establish a previous version
    {
        let g = reader.read(&mut writer); // Hold read to force COW
        match writer.try_write() {
            WriteOutcome::Congested(w) => w.perform_cow(&mut writer, |_v: &i32| (20, ())),
            WriteOutcome::InPlace(_) => panic!("Should be Congested"),
        }
        writer.release(g);
    }
    // Now: Current = 20 (a fresh node), Previous = 10 (the first node).

    // Step 2: in-place update under way
    match writer.try_write() {
        WriteOutcome::InPlace(g) => {
            writer.guard_set(&g, 30);

            // The writer holds the lock on the current node.
            match reader.try_read(&mut writer) {
                ReadResult::Blocked(handler) => {
                    // read_retro returns the previous valid node
                    let old_guard = handler
                        .read_retro(&mut writer)
                        .expect("Should have old value");
                    assert_eq!(*writer.get(&old_guard), 10);
                    writer.release(old_guard);

                    writer.finish_in_place(g);
                    let new_g = handler.wait(&mut writer);
                    assert_eq!(*writer.get(&new_g), 30);
                    writer.release(new_g);
                }
                _ => panic!("Should be Blocked"),
            }
        }
        WriteOutcome::Congested(_) => panic!("Should be InPlace"),
    }
}
