use vstd::prelude::*;

use crate::slot::SlotState;
use crate::state::{
    filled_value, is_filled, is_placeholder, keeps_filled, poll_index, poll_kind, poll_next,
    required_filled, waiters_of_key, PollKind,
};
use crate::waiter::ThreadOrWaker;

verus! {

/// One observation of a slot by a party, as the poll core performs it.
pub struct PollCall {
    pub key: u64,
    pub caller: ThreadOrWaker,
    pub wait_index: Option<usize>,
    pub insert_placeholder: bool,
}

/// The slots after a run of observations, in order.
pub open spec fn run_polls<T>(m: Map<u64, SlotState<T>>, calls: Seq<PollCall>) -> Map<
    u64,
    SlotState<T>,
>
    decreases calls.len(),
{
    if calls.len() == 0 {
        m
    } else {
        let c = calls[0];
        run_polls(
            poll_next(m, c.key, c.wait_index, c.caller, c.insert_placeholder),
            calls.drop_first(),
        )
    }
}

/// How many observations of a run are told to construct the resource `k`.
pub open spec fn constructors_of<T>(m: Map<u64, SlotState<T>>, k: u64, calls: Seq<PollCall>) -> nat
    decreases calls.len(),
{
    if calls.len() == 0 {
        0
    } else {
        let c = calls[0];
        let here: nat = if c.key == k && c.insert_placeholder && poll_kind(m, k, c.caller)
            is Absent {
            1
        } else {
            0
        };
        here + constructors_of(
            poll_next(m, c.key, c.wait_index, c.caller, c.insert_placeholder),
            k,
            calls.drop_first(),
        )
    }
}

/// How the `i`-th observation of a run turns out.
pub open spec fn kind_at<T>(m: Map<u64, SlotState<T>>, calls: Seq<PollCall>, i: int) -> PollKind {
    poll_kind(run_polls(m, calls.take(i)), calls[i].key, calls[i].caller)
}

proof fn lemma_step_frame<T>(m: Map<u64, SlotState<T>>, c: PollCall, k: u64)
    ensures
        m.contains_key(k) ==> poll_next(
            m,
            c.key,
            c.wait_index,
            c.caller,
            c.insert_placeholder,
        ).contains_key(k),
        is_filled(m, k) ==> poll_next(m, c.key, c.wait_index, c.caller, c.insert_placeholder)[k]
            == m[k],
        is_placeholder(m, k) ==> poll_next(
            m,
            c.key,
            c.wait_index,
            c.caller,
            c.insert_placeholder,
        )[k] is Placeholder && poll_next(
            m,
            c.key,
            c.wait_index,
            c.caller,
            c.insert_placeholder,
        )[k]->Placeholder_owner == m[k]->Placeholder_owner,
{
}

proof fn lemma_run_keeps_slot<T>(m: Map<u64, SlotState<T>>, calls: Seq<PollCall>, k: u64)
    ensures
        m.contains_key(k) ==> run_polls(m, calls).contains_key(k),
        is_filled(m, k) ==> run_polls(m, calls)[k] == m[k],
        is_placeholder(m, k) ==> run_polls(m, calls)[k] is Placeholder && run_polls(
            m,
            calls,
        )[k]->Placeholder_owner == m[k]->Placeholder_owner,
    decreases calls.len(),
{
    if calls.len() > 0 {
        let c = calls[0];
        lemma_step_frame(m, c, k);
        lemma_run_keeps_slot(
            poll_next(m, c.key, c.wait_index, c.caller, c.insert_placeholder),
            calls.drop_first(),
            k,
        );
    }
}

proof fn lemma_run_take<T>(m: Map<u64, SlotState<T>>, calls: Seq<PollCall>, i: int)
    requires
        0 < i <= calls.len(),
    ensures
        run_polls(m, calls.take(i)) == run_polls(
            poll_next(
                m,
                calls[0].key,
                calls[0].wait_index,
                calls[0].caller,
                calls[0].insert_placeholder,
            ),
            calls.drop_first().take(i - 1),
        ),
{
    assert(calls.take(i).drop_first() =~= calls.drop_first().take(i - 1));
}

proof fn lemma_no_constructor_once_present<T>(
    m: Map<u64, SlotState<T>>,
    k: u64,
    calls: Seq<PollCall>,
)
    requires
        m.contains_key(k),
    ensures
        constructors_of(m, k, calls) == 0,
    decreases calls.len(),
{
    if calls.len() > 0 {
        let c = calls[0];
        lemma_step_frame(m, c, k);
        lemma_no_constructor_once_present(
            poll_next(m, c.key, c.wait_index, c.caller, c.insert_placeholder),
            k,
            calls.drop_first(),
        );
    }
}

/// At most one constructor: in any run of observations, whoever the callers
/// and whatever their wait indices, at most one is told to construct a given
/// resource, and none is when the resource already has a slot.
pub proof fn lemma_at_most_one_constructor<T>(m: Map<u64, SlotState<T>>, k: u64, calls: Seq<PollCall>)
    ensures
        constructors_of(m, k, calls) <= 1,
        m.contains_key(k) ==> constructors_of(m, k, calls) == 0,
    decreases calls.len(),
{
    if m.contains_key(k) {
        lemma_no_constructor_once_present(m, k, calls);
    } else if calls.len() > 0 {
        let c = calls[0];
        let m1 = poll_next(m, c.key, c.wait_index, c.caller, c.insert_placeholder);
        if c.key == k && c.insert_placeholder {
            assert(m1.contains_key(k));
            lemma_no_constructor_once_present(m1, k, calls.drop_first());
        } else {
            lemma_at_most_one_constructor(m1, k, calls.drop_first());
        }
    }
}

/// Once a construction commits value `v` for `k`, every later observation
/// of `k`, by any party and in any run, receives `v`.
pub proof fn lemma_commit_serves_every_caller<T>(
    m: Map<u64, SlotState<T>>,
    k: u64,
    v: T,
    calls: Seq<PollCall>,
    i: int,
)
    requires
        0 <= i < calls.len(),
        calls[i].key == k,
    ensures
        kind_at(m.insert(k, SlotState::Filled(v)), calls, i) is Value,
        filled_value(run_polls(m.insert(k, SlotState::Filled(v)), calls.take(i)), k) == v,
{
    let m1 = m.insert(k, SlotState::Filled(v));
    lemma_run_keeps_slot(m1, calls.take(i), k);
}

/// Once a construction fails and its slot is removed, the next observation
/// of the resource finds it absent, so a caller that asks for a placeholder
/// becomes the new constructor.
pub proof fn lemma_rollback_reopens<T>(
    m: Map<u64, SlotState<T>>,
    k: u64,
    c: PollCall,
)
    requires
        c.key == k,
    ensures
        poll_kind(m.remove(k), k, c.caller) is Absent,
        c.insert_placeholder ==> is_placeholder(
            poll_next(m.remove(k), k, c.wait_index, c.caller, true),
            k,
        ) && poll_next(m.remove(k), k, c.wait_index, c.caller, true)[k]->Placeholder_owner
            == c.caller,
{
}

/// Cycle safety: when a party installs the placeholder for `k` and later, in
/// the same run, observes `k` again (after any observations of other
/// resources by anyone), it is told that it waits on itself.
pub proof fn lemma_cycle_detected<T>(m: Map<u64, SlotState<T>>, calls: Seq<PollCall>)
    requires
        calls.len() >= 2,
        calls[0].insert_placeholder,
        !m.contains_key(calls[0].key),
        calls.last().key == calls[0].key,
        calls.last().caller == calls[0].caller,
    ensures
        kind_at(m, calls, calls.len() - 1) is Cycle,
{
    let c = calls[0];
    let k = c.key;
    let n = calls.len() - 1;
    let m1 = poll_next(m, k, c.wait_index, c.caller, true);
    assert(is_placeholder(m1, k));
    lemma_run_take(m, calls, n);
    lemma_run_keeps_slot(m1, calls.drop_first().take(n - 1), k);
}

/// While a construction is running, every party other than its owner that
/// observes the resource is told to wait, however many observations occur.
pub proof fn lemma_waiters_stay_pending<T>(
    m: Map<u64, SlotState<T>>,
    calls: Seq<PollCall>,
    i: int,
)
    requires
        0 <= i < calls.len(),
        is_placeholder(m, calls[i].key),
        m[calls[i].key]->Placeholder_owner != calls[i].caller,
    ensures
        kind_at(m, calls, i) is Pending,
{
    lemma_run_keeps_slot(m, calls.take(i), calls[i].key);
}

/// A party that is told to wait is recorded among the waiters at the index
/// it is given back; when it observes again with that index and a new
/// identity (a fresh waker), the entry is replaced by the new identity and
/// the list does not grow.
pub proof fn lemma_latest_waker_registered<T>(
    m: Map<u64, SlotState<T>>,
    k: u64,
    wait_index: Option<usize>,
    first: ThreadOrWaker,
    second: ThreadOrWaker,
    insert_placeholder: bool,
)
    requires
        is_placeholder(m, k),
        m[k]->Placeholder_owner != first,
        m[k]->Placeholder_owner != second,
        waiters_of_key(m, k).len() < usize::MAX,
    ensures
        ({
            let m1 = poll_next(m, k, wait_index, first, insert_placeholder);
            let i1 = poll_index(m, k, wait_index, first);
            let m2 = poll_next(m1, k, i1, second, insert_placeholder);
            &&& i1 is Some
            &&& waiters_of_key(m1, k)[i1->0 as int] == first
            &&& poll_index(m1, k, i1, second) == i1
            &&& waiters_of_key(m2, k)[i1->0 as int] == second
            &&& waiters_of_key(m2, k).len() == waiters_of_key(m1, k).len()
            &&& waiters_of_key(m2, k).contains(second)
        }),
{
    let m1 = poll_next(m, k, wait_index, first, insert_placeholder);
    let i1 = poll_index(m, k, wait_index, first);
    let m2 = poll_next(m1, k, i1, second, insert_placeholder);
    let w0 = waiters_of_key(m, k);
    let w1 = waiters_of_key(m1, k);
    let j = crate::state::registered_index(w0, wait_index);
    assert(0 <= j < w1.len());
    assert(i1 == Some(j as usize));
    assert(w1[j] == first);
    assert(is_placeholder(m1, k) && m1[k]->Placeholder_owner == m[k]->Placeholder_owner);
    assert(crate::state::registered_index(w1, i1) == j);
    let w2 = waiters_of_key(m2, k);
    assert(w2 == w1.update(j, second));
    assert(w2[j] == second);
}

/// Required lists stay valid: when every slot filled before a step stays
/// filled with its value, every list of keys that named filled slots still does.
pub proof fn lemma_required_stays_filled<T>(
    before: Map<u64, SlotState<T>>,
    after: Map<u64, SlotState<T>>,
    required: Seq<u64>,
)
    requires
        required_filled(before, required),
        keeps_filled(before, after),
    ensures
        required_filled(after, required),
{
    crate::state::lemma_required_kept(before, after, required);
}

/// Observations never empty a filled slot or change its value.
pub proof fn lemma_poll_keeps_filled<T>(m: Map<u64, SlotState<T>>, calls: Seq<PollCall>)
    ensures
        keeps_filled(m, run_polls(m, calls)),
{
    assert forall|k: u64| #[trigger] is_filled(m, k) implies run_polls(m, calls).contains_key(k)
        && run_polls(m, calls)[k] == m[k] by {
        lemma_run_keeps_slot(m, calls, k);
    }
}

} // verus!
