use aerosol::{Aero, Dep, DependencyError, Obtain, ObtainStep, SlotDesc, SlotPoll, ThreadOrWaker};

const DUMMY: u64 = 7;

fn thread(n: u64) -> ThreadOrWaker {
    ThreadOrWaker::Thread(n)
}

fn task(n: u64) -> ThreadOrWaker {
    ThreadOrWaker::Waker(n)
}

#[test]
fn racing_threads_and_tasks_share_one_construction() {
    let mut store: Aero<u32> = Aero::new();
    let mut owner_index = None;
    assert!(matches!(store.begin_obtain(DUMMY, &mut owner_index, thread(0)), ObtainStep::Construct));
    // 49 more threads and 50 tasks arrive while the constructor runs.
    let mut indices = Vec::new();
    let mut parties = Vec::new();
    for n in 1..50u64 {
        parties.push(thread(n));
    }
    for n in 0..50u64 {
        parties.push(task(n));
    }
    for p in &parties {
        let mut idx = None;
        assert!(matches!(store.begin_obtain(DUMMY, &mut idx, *p), ObtainStep::Pending));
        indices.push(idx);
    }
    // Exactly one constructor ran; it commits and every waiter is woken in order.
    let (r, woken) = store.finish_obtain::<()>(DUMMY, Ok(5));
    assert_eq!(r, Ok(5));
    assert_eq!(woken, parties);
    for (p, idx) in parties.iter().zip(indices.iter_mut()) {
        match store.begin_obtain(DUMMY, idx, *p) {
            ObtainStep::Ready(v) => assert_eq!(v, 5),
            _ => panic!("the resource is filled"),
        }
    }
}

#[test]
fn hundred_threads_one_construction() {
    let mut store: Aero<u32> = Aero::new();
    let mut constructions = 0;
    let mut indices = vec![None; 100];
    // Every thread takes its first step before the constructor finishes.
    for n in 0..100usize {
        match store.begin_obtain(DUMMY, &mut indices[n], thread(n as u64)) {
            ObtainStep::Construct => constructions += 1,
            ObtainStep::Pending => {}
            _ => panic!("nothing is filled yet"),
        }
    }
    assert_eq!(constructions, 1);
    let (_, woken) = store.finish_init::<()>(DUMMY, Ok(1));
    assert_eq!(woken.len(), 99);
    for n in 0..100usize {
        match store.begin_obtain(DUMMY, &mut indices[n], thread(n as u64)) {
            ObtainStep::Ready(v) => assert_eq!(v, 1),
            _ => panic!("the resource is filled"),
        }
    }
}

#[test]
fn waiter_indices_follow_registration_order() {
    let mut store: Aero<u32> = Aero::new();
    let mut owner_index = None;
    store.begin_obtain(DUMMY, &mut owner_index, thread(0));
    let mut a = None;
    let mut b = None;
    assert!(matches!(store.poll_for_slot(DUMMY, &mut a, thread(1), false), SlotPoll::Pending));
    assert!(matches!(store.poll_for_slot(DUMMY, &mut b, task(1), false), SlotPoll::Pending));
    assert_eq!(a, Some(0));
    assert_eq!(b, Some(1));
    assert_eq!(owner_index, None);
}

#[test]
fn latest_waker_replaces_the_earlier_one() {
    let mut store: Aero<u32> = Aero::new();
    let mut owner_index = None;
    store.begin_obtain(DUMMY, &mut owner_index, thread(0));
    let mut idx = None;
    assert!(matches!(store.poll_for_slot(DUMMY, &mut idx, task(1), true), SlotPoll::Pending));
    assert!(matches!(store.poll_for_slot(DUMMY, &mut idx, task(2), true), SlotPoll::Pending));
    assert_eq!(idx, Some(0));
    let woken = store.fill_placeholder(DUMMY, 9);
    assert_eq!(woken, vec![task(2)]);
}

#[test]
fn stale_wait_index_appends() {
    let mut store: Aero<u32> = Aero::new();
    let mut owner_index = None;
    store.begin_obtain(DUMMY, &mut owner_index, thread(0));
    let mut idx = Some(3);
    assert!(matches!(store.poll_for_slot(DUMMY, &mut idx, task(1), false), SlotPoll::Pending));
    assert_eq!(idx, Some(0));
}

#[test]
fn waiters_stay_pending_while_construction_runs() {
    let mut store: Aero<u32> = Aero::new();
    let mut owner_index = None;
    store.begin_obtain(DUMMY, &mut owner_index, thread(0));
    let mut idx = None;
    for _ in 0..3 {
        assert!(matches!(store.begin_obtain(DUMMY, &mut idx, thread(1)), ObtainStep::Pending));
    }
    assert!(matches!(store.try_get_slot(DUMMY), Some(SlotDesc::Placeholder)));
    assert!(!store.has(DUMMY));
}

#[test]
fn panicking_constructor_is_rolled_back_and_retried() {
    let mut store: Aero<u32> = Aero::new();
    let mut owner_index = None;
    store.begin_obtain(DUMMY, &mut owner_index, thread(0));
    let mut idx = None;
    store.begin_obtain(DUMMY, &mut idx, thread(1));
    // The owner's constructor unwound: its placeholder is cleared.
    let woken = store.clear_placeholder(DUMMY);
    assert_eq!(woken, vec![thread(1)]);
    assert!(!store.is_occupied(DUMMY));
    // The woken waiter retries and becomes the constructor.
    assert!(matches!(store.begin_obtain(DUMMY, &mut idx, thread(1)), ObtainStep::Construct));
    let (r, woken) = store.finish_init::<()>(DUMMY, Ok(3));
    assert_eq!(r, Ok(()));
    assert!(woken.is_empty());
    assert!(store.has(DUMMY));
}

#[test]
fn failed_construction_returns_error_and_wakes_waiters() {
    let mut store: Aero<u32> = Aero::new();
    let mut owner_index = None;
    store.begin_obtain(DUMMY, &mut owner_index, task(0));
    let mut idx = None;
    store.begin_obtain(DUMMY, &mut idx, task(1));
    let (r, woken) = store.finish_obtain(DUMMY, Err("broken"));
    assert_eq!(r, Err("broken"));
    assert_eq!(woken, vec![task(1)]);
    assert!(matches!(store.try_get(DUMMY, &mut idx, task(1)), SlotPoll::Ready(None)));
}

#[test]
fn try_get_waits_without_installing() {
    let mut store: Aero<u32> = Aero::new();
    let mut idx = None;
    assert!(matches!(store.try_get(DUMMY, &mut idx, thread(1)), SlotPoll::Ready(None)));
    assert!(!store.is_occupied(DUMMY));
    let mut owner_index = None;
    store.begin_obtain(DUMMY, &mut owner_index, thread(0));
    assert!(matches!(store.try_get(DUMMY, &mut idx, thread(1)), SlotPoll::Pending));
    assert!(matches!(store.try_get(DUMMY, &mut owner_index, thread(0)), SlotPoll::Cycle));
}

#[test]
fn thread_and_task_with_same_number_differ() {
    assert!(!thread(3).same_party(&task(3)));
    assert!(thread(3).same_party(&thread(3)));
    assert!(!task(3).same_party(&task(4)));
}

#[test]
fn conversion_failure_returns_the_handle() {
    let store: Aero<u32> = Aero::new().with(1, 10);
    let store = match store.try_into(vec![1, 2]) {
        Ok(_) => panic!("key 2 is missing"),
        Err(h) => h,
    };
    assert_eq!(store.required_list(), vec![1]);
    let store = match store.try_assert(2) {
        Ok(_) => panic!("key 2 is missing"),
        Err(h) => h,
    };
    assert!(store.try_assert(1).is_ok());
}

#[test]
fn remaining_skips_required_keys_in_order() {
    let store: Aero<u32> = Aero::new().with(1, 10).with(4, 40);
    assert_eq!(store.remaining(&vec![4, 2, 1, 3]), vec![2, 3]);
    assert_eq!(store.remaining(&vec![]), Vec::<u64>::new());
}

#[test]
fn dependency_fetch_reports_missing() {
    let found: Result<Dep<u32>, DependencyError> = Dep::from_lookup(Some(4), "Count");
    assert_eq!(found.ok().map(|d| d.0), Some(4));
    match Dep::<u32>::from_lookup(None, "Count") {
        Err(DependencyError::DoesNotExist { name }) => assert_eq!(name, "Count"),
        _ => panic!("expected a missing resource"),
    }
}

#[test]
fn dependency_obtain_reports_construction_failure() {
    let made = Obtain::from_outcome(Ok(8u32), "Count");
    assert_eq!(made.ok().map(|o| o.0), Some(8));
    match Obtain::<u32>::from_outcome(Err(anyhow::Error::msg("db down")), "Pool") {
        Err(e) => {
            assert_eq!(e.name(), "Pool");
            match e {
                DependencyError::FailedToConstruct { source, .. } => {
                    assert_eq!(source.to_string(), "db down")
                }
                _ => panic!("expected a construction failure"),
            }
        }
        Ok(_) => panic!("expected a construction failure"),
    }
}

#[test]
fn closing_the_store_wakes_every_waiter() {
    let mut store: Aero<u32> = Aero::new().with(1, 10);
    let mut a = None;
    let mut b = None;
    store.begin_obtain(2, &mut a, thread(0));
    store.begin_obtain(3, &mut b, task(0));
    let mut w1 = None;
    let mut w2 = None;
    let mut w3 = None;
    store.begin_obtain(2, &mut w1, thread(1));
    store.begin_obtain(2, &mut w2, task(5));
    store.begin_obtain(3, &mut w3, thread(2));
    let mut woken = store.close();
    woken.sort_by_key(|w| match w {
        ThreadOrWaker::Thread(n) => (0, *n),
        ThreadOrWaker::Waker(n) => (1, *n),
    });
    assert_eq!(woken, vec![thread(1), thread(2), task(5)]);
}
