use vstd::prelude::*;

use crate::slot::SlotState;
use crate::state::{
    contains_key, filled_value, is_placeholder, keeps_filled, poll_index, poll_kind, poll_next, waiters_of_key,
    Aero, PollKind, SlotPoll,
};
use crate::resource::Resource;
use crate::waiter::ThreadOrWaker;

verus! {

/// What a party that wants a resource built on demand must do next.
pub enum ObtainStep<T> {
    /// The resource is there: here is a copy.
    Ready(T),
    /// Someone else is constructing it: wait until woken, then step again.
    Pending,
    /// The caller now owns a placeholder for it: run the constructor, then
    /// report the outcome with `finish_obtain` or `finish_init`.
    Construct,
    /// The caller is already constructing it: the dependency chain is cyclic.
    Cycle,
}

/// Whether `r` reports observation `kind` of the slots `m` at `k`.
pub open spec fn obtain_reports<T: Clone>(
    r: ObtainStep<T>,
    m: Map<u64, SlotState<T>>,
    k: u64,
    kind: PollKind,
) -> bool {
    match kind {
        PollKind::Value => r matches ObtainStep::Ready(y) && cloned(filled_value(m, k), y),
        PollKind::Absent => r is Construct,
        PollKind::Pending => r is Pending,
        PollKind::Cycle => r is Cycle,
    }
}

/// The keys of `target`, in order, that `have` does not hold.
pub open spec fn missing_from(target: Seq<u64>, have: Seq<u64>) -> Seq<u64>
    decreases target.len(),
{
    if target.len() == 0 {
        Seq::empty()
    } else {
        let rest = missing_from(target.drop_last(), have);
        if have.contains(target.last()) {
            rest
        } else {
            rest.push(target.last())
        }
    }
}

impl<T: Resource> Aero<T> {
    /// One step of get-or-construct for `key` on behalf of `current`: the
    /// poll core with placeholder installation. A missing slot becomes a
    /// placeholder owned by `current`, who is told to construct.
    pub fn begin_obtain(
        &mut self,
        key: u64,
        wait_index: &mut Option<usize>,
        current: ThreadOrWaker,
    ) -> (r: ObtainStep<T>)
        requires
            old(self).wf(),
        ensures
            final(self).wf(),
            final(self).required() == old(self).required(),
            final(self).slots() == poll_next(old(self).slots(), key, *old(wait_index), current, true),
            *final(wait_index) == poll_index(old(self).slots(), key, *old(wait_index), current),
            obtain_reports(r, old(self).slots(), key, poll_kind(old(self).slots(), key, current)),
            keeps_filled(old(self).slots(), final(self).slots()),
    {
        match self.poll_for_slot(key, wait_index, current, true) {
            SlotPoll::Ready(Some(x)) => ObtainStep::Ready(x),
            SlotPoll::Ready(None) => ObtainStep::Construct,
            SlotPoll::Pending => ObtainStep::Pending,
            SlotPoll::Cycle => ObtainStep::Cycle,
        }
    }

    /// Records the outcome of the constructor run for `key`. Success fills
    /// the slot with the value and hands back a copy; failure removes the
    /// slot and hands back the error. Either way the waiters of the
    /// placeholder come back too, in registration order, to be woken.
    pub fn finish_obtain<E>(&mut self, key: u64, outcome: Result<T, E>) -> (r: (
        Result<T, E>,
        Vec<ThreadOrWaker>,
    ))
        requires
            old(self).wf(),
            is_placeholder(old(self).slots(), key),
        ensures
            final(self).wf(),
            final(self).required() == old(self).required(),
            r.1@ == waiters_of_key(old(self).slots(), key),
            keeps_filled(old(self).slots(), final(self).slots()),
            match outcome {
                Ok(v) => final(self).slots() == old(self).slots().insert(key, SlotState::Filled(v))
                    && (r.0 matches Ok(y) && cloned(v, y)),
                Err(e) => final(self).slots() == old(self).slots().remove(key) && r.0 == Err::<
                    T,
                    E,
                >(e),
            },
    {
        match outcome {
            Ok(v) => {
                let y = v.clone();
                let woken = self.fill_placeholder(key, v);
                (Ok(y), woken)
            },
            Err(e) => {
                let woken = self.clear_placeholder(key);
                (Err(e), woken)
            },
        }
    }

    /// As `finish_obtain`, for a caller that only wants the resource to be
    /// in the store.
    pub fn finish_init<E>(&mut self, key: u64, outcome: Result<T, E>) -> (r: (
        Result<(), E>,
        Vec<ThreadOrWaker>,
    ))
        requires
            old(self).wf(),
            is_placeholder(old(self).slots(), key),
        ensures
            final(self).wf(),
            final(self).required() == old(self).required(),
            r.1@ == waiters_of_key(old(self).slots(), key),
            keeps_filled(old(self).slots(), final(self).slots()),
            match outcome {
                Ok(v) => final(self).slots() == old(self).slots().insert(key, SlotState::Filled(v))
                    && r.0 is Ok,
                Err(e) => final(self).slots() == old(self).slots().remove(key) && r.0 == Err::<
                    (),
                    E,
                >(e),
            },
    {
        match outcome {
            Ok(v) => {
                let woken = self.fill_placeholder(key, v);
                (Ok(()), woken)
            },
            Err(e) => {
                let woken = self.clear_placeholder(key);
                (Err(e), woken)
            },
        }
    }
}

impl<T> Aero<T> {
    /// The keys of `target` that this handle does not yet require, in the
    /// order of `target`: what must be constructed to widen the handle to it.
    pub fn remaining(&self, target: &Vec<u64>) -> (r: Vec<u64>)
        ensures
            r@ == missing_from(target@, self.required()),
    {
        let have = self.required_list();
        let mut r: Vec<u64> = Vec::new();
        let mut i: usize = 0;
        while i < target.len()
            invariant
                0 <= i <= target.len(),
                have@ == self.required(),
                r@ == missing_from(target@.subrange(0, i as int), have@),
            decreases target.len() - i,
        {
            let k = target[i];
            let ghost prefix = target@.subrange(0, i as int + 1);
            assert(prefix.drop_last() =~= target@.subrange(0, i as int));
            if !contains_key(&have, k) {
                r.push(k);
            }
            i = i + 1;
        }
        assert(target@.subrange(0, target@.len() as int) =~= target@);
        r
    }
}

} // verus!
