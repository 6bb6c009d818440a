use std::collections::HashMap;

use vstd::prelude::*;

use crate::slot::{Slot, SlotDesc, SlotState};
use crate::resource::Resource;
use crate::waiter::ThreadOrWaker;

verus! {

/// Whether the slot for `k` is filled.
pub open spec fn is_filled<T>(m: Map<u64, SlotState<T>>, k: u64) -> bool {
    m.contains_key(k) && m[k] is Filled
}

/// Whether a constructor is running for `k`.
pub open spec fn is_placeholder<T>(m: Map<u64, SlotState<T>>, k: u64) -> bool {
    m.contains_key(k) && m[k] is Placeholder
}

/// The value in the filled slot for `k`.
pub open spec fn filled_value<T>(m: Map<u64, SlotState<T>>, k: u64) -> T {
    m[k]->Filled_0
}

/// Every key of a required list names a filled slot.
pub open spec fn required_filled<T>(m: Map<u64, SlotState<T>>, required: Seq<u64>) -> bool {
    forall|i: int| 0 <= i < required.len() ==> #[trigger] is_filled(m, required[i])
}

/// Every key of `target` occurs in `have`.
pub open spec fn covers(have: Seq<u64>, target: Seq<u64>) -> bool {
    forall|i: int| 0 <= i < target.len() ==> have.contains(#[trigger] target[i])
}

/// How one observation of the slot for `k` by `current` turns out.
pub enum PollKind {
    /// The slot is filled: the caller gets the value.
    Value,
    /// There is no slot: the caller gets nothing (and may become the constructor).
    Absent,
    /// Someone else is constructing: the caller must wait.
    Pending,
    /// The caller itself is constructing: waiting would never end.
    Cycle,
}

/// What one observation of `k` by `current` finds.
pub open spec fn poll_kind<T>(m: Map<u64, SlotState<T>>, k: u64, current: ThreadOrWaker) -> PollKind {
    if !m.contains_key(k) {
        PollKind::Absent
    } else {
        match m[k] {
            SlotState::Filled(_) => PollKind::Value,
            SlotState::Placeholder { owner, .. } => if owner == current {
                PollKind::Cycle
            } else {
                PollKind::Pending
            },
        }
    }
}

/// The waiter list after `current` registers with the index it holds: an
/// index that names an entry is overwritten, else `current` is appended.
pub open spec fn registered(
    waiting: Seq<ThreadOrWaker>,
    wait_index: Option<usize>,
    current: ThreadOrWaker,
) -> Seq<ThreadOrWaker> {
    match wait_index {
        Some(i) => if i < waiting.len() {
            waiting.update(i as int, current)
        } else {
            waiting.push(current)
        },
        None => waiting.push(current),
    }
}

/// The index at which `current` stands after registering.
pub open spec fn registered_index(waiting: Seq<ThreadOrWaker>, wait_index: Option<usize>) -> int {
    match wait_index {
        Some(i) => if i < waiting.len() {
            i as int
        } else {
            waiting.len() as int
        },
        None => waiting.len() as int,
    }
}

/// The slots after one observation of `k` by `current`.
pub open spec fn poll_next<T>(
    m: Map<u64, SlotState<T>>,
    k: u64,
    wait_index: Option<usize>,
    current: ThreadOrWaker,
    insert_placeholder: bool,
) -> Map<u64, SlotState<T>> {
    if !m.contains_key(k) {
        if insert_placeholder {
            m.insert(k, SlotState::Placeholder { owner: current, waiting: Seq::empty() })
        } else {
            m
        }
    } else {
        match m[k] {
            SlotState::Filled(_) => m,
            SlotState::Placeholder { owner, waiting } => if owner == current {
                m
            } else {
                m.insert(
                    k,
                    SlotState::Placeholder { owner, waiting: registered(waiting, wait_index, current) },
                )
            },
        }
    }
}

/// The caller's wait index after one observation of `k`.
pub open spec fn poll_index<T>(
    m: Map<u64, SlotState<T>>,
    k: u64,
    wait_index: Option<usize>,
    current: ThreadOrWaker,
) -> Option<usize> {
    if poll_kind(m, k, current) is Pending {
        Some(registered_index(waiters_of_key(m, k), wait_index) as usize)
    } else {
        wait_index
    }
}

/// The waiters recorded for `k` (none unless it is a placeholder).
pub open spec fn waiters_of_key<T>(m: Map<u64, SlotState<T>>, k: u64) -> Seq<ThreadOrWaker> {
    if m.contains_key(k) {
        crate::slot::waiters_of(m[k])
    } else {
        Seq::empty()
    }
}

/// Every slot that is filled in `before` is filled, with the same value, in `after`.
pub open spec fn keeps_filled<T>(before: Map<u64, SlotState<T>>, after: Map<u64, SlotState<T>>) -> bool {
    forall|k: u64| #[trigger] is_filled(before, k) ==> after.contains_key(k) && after[k] == before[k]
}

pub(crate) proof fn lemma_required_kept<T>(
    before: Map<u64, SlotState<T>>,
    after: Map<u64, SlotState<T>>,
    required: Seq<u64>,
)
    requires
        required_filled(before, required),
        keeps_filled(before, after),
    ensures
        required_filled(after, required),
{
    assert forall|i: int| 0 <= i < required.len() implies #[trigger] is_filled(after, required[i]) by {
        assert(is_filled(before, required[i]));
    }
}

/// Whether `w` is among the waiters of some slot.
pub open spec fn waits_on_some_key<T>(m: Map<u64, SlotState<T>>, w: ThreadOrWaker) -> bool {
    exists|k: u64| #[trigger] waiters_of_key(m, k).contains(w)
}

/// Whether `keys` holds `k`.
pub(crate) fn contains_key(keys: &Vec<u64>, k: u64) -> (r: bool)
    ensures
        r == keys@.contains(k),
{
    let mut i: usize = 0;
    while i < keys.len()
        invariant
            0 <= i <= keys.len(),
            forall|j: int| 0 <= j < i ==> keys@[j] != k,
        decreases keys.len() - i,
    {
        if keys[i] == k {
            return true;
        }
        i = i + 1;
    }
    false
}

/// Adds `key` to `keys` unless it is there.
fn note_key(keys: &mut Vec<u64>, key: u64)
    ensures
        final(keys)@.contains(key),
        forall|k: u64| old(keys)@.contains(k) ==> #[trigger] final(keys)@.contains(k),
{
    if !contains_key(keys, key) {
        let ghost before = keys@;
        keys.push(key);
        assert(keys@[keys@.len() - 1] == key);
        assert forall|k: u64| before.contains(k) implies #[trigger] keys@.contains(k) by {
            let j = choose|j: int| 0 <= j < before.len() && before[j] == k;
            assert(keys@[j] == k);
        }
    }
}

/// The result of one step of the poll core.
pub enum SlotPoll<T> {
    /// Done: the value, or `None` when there is no slot.
    Ready(Option<T>),
    /// Registered as a waiter; try again once woken.
    Pending,
    /// The caller waits on a construction it owns itself.
    Cycle,
}

/// Whether `r` reports observation `kind` of the slots `m` at `k`.
pub open spec fn poll_reports<T: Clone>(r: SlotPoll<T>, m: Map<u64, SlotState<T>>, k: u64, kind: PollKind) -> bool {
    match kind {
        PollKind::Value => r matches SlotPoll::Ready(Some(y)) && cloned(filled_value(m, k), y),
        PollKind::Absent => r matches SlotPoll::Ready(None),
        PollKind::Pending => r is Pending,
        PollKind::Cycle => r is Cycle,
    }
}

/// A store of resources keyed by resource key, together with the list of
/// keys that this handle guarantees to be filled.
pub struct Aero<T> {
    items: HashMap<u64, Slot<T>>,
    /// Every key that has a slot, and possibly keys whose slot was removed.
    keys: Vec<u64>,
    required: Vec<u64>,
}

/// The handle, under the name its reading operations are grouped by.
pub type Aerosol<T> = Aero<T>;

impl<T> Aero<T> {
    /// The slots of the store, by key.
    pub closed spec fn slots(&self) -> Map<u64, SlotState<T>> {
        Map::new(|k: u64| self.items@.contains_key(k), |k: u64| self.items@[k]@)
    }

    /// The keys this handle guarantees to be filled.
    pub closed spec fn required(&self) -> Seq<u64> {
        self.required@
    }

    /// Well-formedness: every required key names a filled slot, and the
    /// store's key list names every slot.
    pub open spec fn wf(&self) -> bool {
        required_filled(self.slots(), self.required()) && self.keys_cover()
    }

    /// The store's key list names every slot.
    pub closed spec fn keys_cover(&self) -> bool {
        forall|k: u64| self.items@.contains_key(k) ==> #[trigger] self.keys@.contains(k)
    }

    /// The keys this handle requires.
    pub fn required_list(&self) -> (r: Vec<u64>)
        ensures
            r@ == self.required(),
    {
        self.required.clone()
    }

    /// An empty store; nothing is required.
    pub fn new() -> (r: Aero<T>)
        ensures
            r.wf(),
            r.slots() == Map::<u64, SlotState<T>>::empty(),
            r.required() == Seq::<u64>::empty(),
    {
        let r = Aero { items: HashMap::new(), keys: Vec::new(), required: Vec::new() };
        assert(r.slots() =~= Map::<u64, SlotState<T>>::empty());
        r
    }

    /// Whether the slot for `key` is filled.
    pub fn has(&self, key: u64) -> (r: bool)
        ensures
            r == is_filled(self.slots(), key),
    {
        match self.items.get(&key) {
            Some(Slot::Filled(_)) => true,
            _ => false,
        }
    }

    /// Whether any slot, filled or under construction, exists for `key`.
    pub fn is_occupied(&self, key: u64) -> (r: bool)
        ensures
            r == self.slots().contains_key(key),
    {
        self.items.contains_key(&key)
    }

    /// Puts `value` into the vacant slot for `key`.
    pub fn insert(&mut self, key: u64, value: T)
        requires
            old(self).wf(),
            !old(self).slots().contains_key(key),
        ensures
            final(self).wf(),
            final(self).slots() == old(self).slots().insert(key, SlotState::Filled(value)),
            final(self).required() == old(self).required(),
    {
        let ghost before = self.slots();
        self.items.insert(key, Slot::Filled(value));
        note_key(&mut self.keys, key);
        assert(self.slots() =~= before.insert(key, SlotState::Filled(value)));
        assert forall|j: int| 0 <= j < self.required@.len() implies #[trigger] is_filled(
            self.slots(),
            self.required@[j],
        ) by {
            assert(is_filled(before, self.required@[j]));
        }
    }

    /// Inserts `value` for `key` and returns the handle, now also requiring `key`.
    pub fn with(self, key: u64, value: T) -> (r: Aero<T>)
        requires
            self.wf(),
            !self.slots().contains_key(key),
        ensures
            r.wf(),
            r.slots() == self.slots().insert(key, SlotState::Filled(value)),
            r.required() == seq![key] + self.required(),
    {
        let ghost before = self.slots();
        let Aero { mut items, mut keys, required } = self;
        items.insert(key, Slot::Filled(value));
        note_key(&mut keys, key);
        let mut req: Vec<u64> = Vec::new();
        req.push(key);
        let mut i: usize = 0;
        while i < required.len()
            invariant
                0 <= i <= required.len(),
                req@ == seq![key] + required@.subrange(0, i as int),
            decreases required.len() - i,
        {
            req.push(required[i]);
            i = i + 1;
            assert(req@ =~= seq![key] + required@.subrange(0, i as int));
        }
        assert(required@.subrange(0, required@.len() as int) =~= required@);
        let r = Aero { items, keys, required: req };
        proof {
            assert(r.slots() =~= before.insert(key, SlotState::Filled(value)));
            assert forall|j: int| 0 <= j < r.required@.len() implies #[trigger] is_filled(
                r.slots(),
                r.required@[j],
            ) by {
                if j > 0 {
                    assert(r.required@[j] == required@[j - 1]);
                    assert(is_filled(before, required@[j - 1]));
                }
            }
        }
        r
    }
}


impl<T> Aero<T> {
    /// Marks the slot for `key`, which is under construction, as filled with
    /// `value`. Returns the waiters of the placeholder, in registration
    /// order: each must be woken.
    pub fn fill_placeholder(&mut self, key: u64, value: T) -> (r: Vec<ThreadOrWaker>)
        requires
            old(self).wf(),
            is_placeholder(old(self).slots(), key),
        ensures
            final(self).wf(),
            final(self).required() == old(self).required(),
            final(self).slots() == old(self).slots().insert(key, SlotState::Filled(value)),
            r@ == waiters_of_key(old(self).slots(), key),
            keeps_filled(old(self).slots(), final(self).slots()),
    {
        let ghost before = self.slots();
        let old_slot = self.items.insert(key, Slot::Filled(value));
        proof {
            assert(self.slots() =~= before.insert(key, SlotState::Filled(value)));
            lemma_required_kept(before, self.slots(), self.required@);
        }
        match old_slot {
            Some(slot) => slot.into_waiters(),
            None => Vec::new(),
        }
    }

    /// Removes the slot for `key`, which is not filled: a construction that
    /// failed is rolled back. Returns the waiters of the removed placeholder,
    /// in registration order: each must be woken.
    pub fn clear_placeholder(&mut self, key: u64) -> (r: Vec<ThreadOrWaker>)
        requires
            old(self).wf(),
            !is_filled(old(self).slots(), key),
        ensures
            final(self).wf(),
            final(self).required() == old(self).required(),
            final(self).slots() == old(self).slots().remove(key),
            r@ == waiters_of_key(old(self).slots(), key),
            keeps_filled(old(self).slots(), final(self).slots()),
    {
        let ghost before = self.slots();
        let old_slot = self.items.remove(&key);
        proof {
            assert(self.slots() =~= before.remove(key));
            lemma_required_kept(before, self.slots(), self.required@);
        }
        match old_slot {
            Some(slot) => slot.into_waiters(),
            None => Vec::new(),
        }
    }

    /// Reinterprets the handle as one that requires `target`, every key of
    /// which this handle already requires. The store is untouched.
    pub fn into(self, target: Vec<u64>) -> (r: Aero<T>)
        requires
            self.wf(),
            covers(self.required(), target@),
        ensures
            r.wf(),
            r.slots() == self.slots(),
            r.required() == target@,
    {
        let r = Aero { items: self.items, keys: self.keys, required: target };
        proof {
            assert forall|i: int| 0 <= i < target@.len() implies #[trigger] is_filled(
                r.slots(),
                target@[i],
            ) by {
                let j = choose|j: int| 0 <= j < self.required@.len() && self.required@[j] == target@[i];
                assert(is_filled(self.slots(), self.required@[j]));
            }
        }
        r
    }

    /// Whether every key of `keys` names a filled slot.
    pub fn has_all(&self, keys: &Vec<u64>) -> (r: bool)
        ensures
            r == required_filled(self.slots(), keys@),
    {
        let mut i: usize = 0;
        while i < keys.len()
            invariant
                0 <= i <= keys.len(),
                required_filled(self.slots(), keys@.subrange(0, i as int)),
            decreases keys.len() - i,
        {
            if !self.has(keys[i]) {
                assert(!is_filled(self.slots(), keys@[i as int]));
                return false;
            }
            assert forall|j: int| 0 <= j < i + 1 implies #[trigger] is_filled(
                self.slots(),
                keys@.subrange(0, i + 1)[j],
            ) by {
                if j < i {
                    assert(keys@.subrange(0, i + 1)[j] == keys@.subrange(0, i as int)[j]);
                }
            }
            i = i + 1;
        }
        assert(keys@.subrange(0, keys@.len() as int) =~= keys@);
        true
    }

    /// Converts to a handle that requires `target` when every key of it names
    /// a filled slot; otherwise hands back the handle unchanged.
    pub fn try_into(self, target: Vec<u64>) -> (r: Result<Aero<T>, Aero<T>>)
        requires
            self.wf(),
        ensures
            match r {
                Ok(h) => h.wf() && h.slots() == self.slots() && h.required() == target@,
                Err(h) => h.wf() && h.slots() == self.slots() && h.required() == self.required(),
            },
            r is Ok <==> required_filled(self.slots(), target@),
    {
        if self.has_all(&target) {
            Ok(Aero { items: self.items, keys: self.keys, required: target })
        } else {
            Err(self)
        }
    }

    /// Adds `key` to the required list when its slot is filled; otherwise
    /// hands back the handle unchanged.
    pub fn try_assert(self, key: u64) -> (r: Result<Aero<T>, Aero<T>>)
        requires
            self.wf(),
        ensures
            match r {
                Ok(h) => h.wf() && h.slots() == self.slots() && h.required() == seq![key]
                    + self.required(),
                Err(h) => h.wf() && h.slots() == self.slots() && h.required() == self.required(),
            },
            r is Ok <==> is_filled(self.slots(), key),
    {
        if self.has(key) {
            Ok(self.assert_has(key))
        } else {
            Err(self)
        }
    }

    /// Adds `key`, whose slot is filled, to the required list.
    pub fn assert_has(self, key: u64) -> (r: Aero<T>)
        requires
            self.wf(),
            is_filled(self.slots(), key),
        ensures
            r.wf(),
            r.slots() == self.slots(),
            r.required() == seq![key] + self.required(),
    {
        let Aero { items, keys, required } = self;
        let mut req: Vec<u64> = Vec::new();
        req.push(key);
        let mut i: usize = 0;
        while i < required.len()
            invariant
                0 <= i <= required.len(),
                req@ == seq![key] + required@.subrange(0, i as int),
            decreases required.len() - i,
        {
            req.push(required[i]);
            i = i + 1;
            assert(req@ =~= seq![key] + required@.subrange(0, i as int));
        }
        assert(required@.subrange(0, required@.len() as int) =~= required@);
        let r = Aero { items, keys, required: req };
        proof {
            assert forall|j: int| 0 <= j < r.required@.len() implies #[trigger] is_filled(
                r.slots(),
                r.required@[j],
            ) by {
                if j > 0 {
                    assert(r.required@[j] == required@[j - 1]);
                }
            }
        }
        r
    }
}

impl<T: Resource> Aero<T> {
    /// Describes the slot for `key` without waiting: `None` when absent.
    pub fn try_get_slot(&self, key: u64) -> (r: Option<SlotDesc<T>>)
        ensures
            !self.slots().contains_key(key) ==> r is None,
            is_placeholder(self.slots(), key) ==> r matches Some(SlotDesc::Placeholder),
            is_filled(self.slots(), key) ==> (r matches Some(SlotDesc::Filled(y)) && cloned(
                filled_value(self.slots(), key),
                y,
            )),
    {
        match self.items.get(&key) {
            Some(slot) => Some(slot.desc()),
            None => None,
        }
    }

    /// The poll core: one observation of the slot for `key` by `current`.
    ///
    /// A filled slot yields its value. A placeholder owned by `current`
    /// yields `Cycle`. A placeholder owned by another party registers
    /// `current` among its waiters, at the index `wait_index` holds when that
    /// names an entry (a party re-registers with its newest identity), else
    /// at the end, records the index and yields `Pending`. A missing slot
    /// yields `Ready(None)`, and with `insert_placeholder` first installs a
    /// placeholder owned by `current`, which then must construct.
    pub fn poll_for_slot(
        &mut self,
        key: u64,
        wait_index: &mut Option<usize>,
        current: ThreadOrWaker,
        insert_placeholder: bool,
    ) -> (r: SlotPoll<T>)
        requires
            old(self).wf(),
        ensures
            final(self).wf(),
            final(self).required() == old(self).required(),
            final(self).slots() == poll_next(
                old(self).slots(),
                key,
                *old(wait_index),
                current,
                insert_placeholder,
            ),
            *final(wait_index) == poll_index(old(self).slots(), key, *old(wait_index), current),
            poll_reports(r, old(self).slots(), key, poll_kind(old(self).slots(), key, current)),
            keeps_filled(old(self).slots(), final(self).slots()),
    {
        let ghost before = self.slots();
        match self.items.get(&key) {
            Some(Slot::Filled(x)) => {
                return SlotPoll::Ready(Some(x.clone()));
            },
            Some(Slot::Placeholder { owner, .. }) => {
                if owner.same_party(&current) {
                    return SlotPoll::Cycle;
                }
            },
            None => {
                if insert_placeholder {
                    self.items.insert(
                        key,
                        Slot::Placeholder { owner: current, waiting: Vec::new() },
                    );
                    note_key(&mut self.keys, key);
                    proof {
                        assert(self.slots() =~= poll_next(
                            before,
                            key,
                            *old(wait_index),
                            current,
                            insert_placeholder,
                        ));
                        lemma_required_kept(before, self.slots(), self.required@);
                    }
                }
                return SlotPoll::Ready(None);
            },
        }
        let removed = self.items.remove(&key);
        match removed {
            Some(Slot::Placeholder { owner, mut waiting }) => {
                let ghost w0 = waiting@;
                let idx: usize = match *wait_index {
                    Some(i) => {
                        if i < waiting.len() {
                            waiting[i] = current;
                            i
                        } else {
                            waiting.push(current);
                            waiting.len() - 1
                        }
                    },
                    None => {
                        waiting.push(current);
                        waiting.len() - 1
                    },
                };
                assert(waiting@ =~= registered(w0, *old(wait_index), current));
                *wait_index = Some(idx);
                self.items.insert(key, Slot::Placeholder { owner, waiting });
                proof {
                    assert(self.slots() =~= poll_next(
                        before,
                        key,
                        *old(wait_index),
                        current,
                        insert_placeholder,
                    ));
                    lemma_required_kept(before, self.slots(), self.required@);
                }
                SlotPoll::Pending
            },
            Some(other) => {
                self.items.insert(key, other);
                SlotPoll::Pending
            },
            None => SlotPoll::Ready(None),
        }
    }

    /// Reads a resource this handle requires; it is always there.
    pub fn get(&self, key: u64) -> (r: T)
        requires
            self.wf(),
            self.required().contains(key),
        ensures
            is_filled(self.slots(), key),
            cloned(filled_value(self.slots(), key), r),
    {
        let ghost j = choose|j: int| 0 <= j < self.required@.len() && self.required@[j] == key;
        assert(is_filled(self.slots(), self.required@[j]));
        match self.items.get(&key) {
            Some(Slot::Filled(x)) => x.clone(),
            _ => vstd::pervasive::unreached(),
        }
    }
}


impl<T: Resource> Aerosol<T> {
    /// Reads the resource for `key`: the value when filled, nothing when
    /// absent; under construction, registers `current` as a waiter exactly
    /// as the poll core does, without installing anything.
    pub fn try_get(
        &mut self,
        key: u64,
        wait_index: &mut Option<usize>,
        current: ThreadOrWaker,
    ) -> (r: SlotPoll<T>)
        requires
            old(self).wf(),
        ensures
            final(self).wf(),
            final(self).required() == old(self).required(),
            final(self).slots() == poll_next(old(self).slots(), key, *old(wait_index), current, false),
            *final(wait_index) == poll_index(old(self).slots(), key, *old(wait_index), current),
            poll_reports(r, old(self).slots(), key, poll_kind(old(self).slots(), key, current)),
    {
        match self.try_get_slot(key) {
            None => SlotPoll::Ready(None),
            Some(SlotDesc::Filled(x)) => SlotPoll::Ready(Some(x)),
            Some(SlotDesc::Placeholder) => self.poll_for_slot(key, wait_index, current, false),
        }
    }
}

impl<T> Aero<T> {
    /// Tears the store down. Hands back every party that waits on a
    /// construction still running, so that none of them stays blocked.
    pub fn close(self) -> (r: Vec<ThreadOrWaker>)
        requires
            self.wf(),
        ensures
            forall|k: u64, w: ThreadOrWaker|
                #![trigger waiters_of_key(self.slots(), k).contains(w)]
                waiters_of_key(self.slots(), k).contains(w) ==> r@.contains(w),
            forall|x: int| 0 <= x < r@.len() ==> waits_on_some_key(self.slots(), #[trigger] r@[x]),
    {
        let ghost orig = self.slots();
        let Aero { mut items, keys, .. } = self;
        let mut r: Vec<ThreadOrWaker> = Vec::new();
        let mut i: usize = 0;
        while i < keys.len()
            invariant
                0 <= i <= keys.len(),
                forall|k: u64| orig.contains_key(k) ==> #[trigger] keys@.contains(k),
                forall|k: u64| #[trigger] items@.contains_key(k) ==> orig.contains_key(k)
                    && items@[k]@ == orig[k],
                forall|j: int| 0 <= j < i ==> !(#[trigger] items@.contains_key(keys@[j])),
                forall|k: u64, w: ThreadOrWaker|
                    #![trigger waiters_of_key(orig, k).contains(w)]
                    orig.contains_key(k) && !items@.contains_key(k) && waiters_of_key(
                        orig,
                        k,
                    ).contains(w) ==> r@.contains(w),
                forall|x: int| 0 <= x < r@.len() ==> waits_on_some_key(orig, #[trigger] r@[x]),
            decreases keys.len() - i,
        {
            let key = keys[i];
            let ghost before_items = items@;
            let ghost before_r = r@;
            match items.remove(&key) {
                Some(slot) => {
                    let waiting = slot.into_waiters();
                    let mut q: usize = 0;
                    while q < waiting.len()
                        invariant
                            0 <= q <= waiting.len(),
                            r@.len() == before_r.len() + q,
                            forall|x: int| 0 <= x < before_r.len() ==> r@[x] == before_r[x],
                            forall|x: int| 0 <= x < q ==> r@[before_r.len() + x] == waiting@[x],
                            waiting@ == waiters_of_key(orig, key),
                            forall|x: int|
                                0 <= x < r@.len() ==> waits_on_some_key(orig, #[trigger] r@[x]),
                        decreases waiting.len() - q,
                    {
                        r.push(waiting[q]);
                        proof {
                            assert(waiters_of_key(orig, key).contains(waiting@[q as int]));
                        }
                        q = q + 1;
                    }
                    assert forall|w: ThreadOrWaker| before_r.contains(w) implies #[trigger] r@.contains(w) by {
                        let x = choose|x: int| 0 <= x < before_r.len() && before_r[x] == w;
                        assert(r@[x] == w);
                    }
                    assert forall|w: ThreadOrWaker| waiting@.contains(w) implies #[trigger] r@.contains(w) by {
                        let x = choose|x: int| 0 <= x < waiting@.len() && waiting@[x] == w;
                        assert(r@[before_r.len() + x] == w);
                    }
                },
                None => {},
            }
            assert forall|k: u64, w: ThreadOrWaker|
                #![trigger waiters_of_key(orig, k).contains(w)]
                orig.contains_key(k) && !items@.contains_key(k) && waiters_of_key(
                    orig,
                    k,
                ).contains(w) implies r@.contains(w) by {
                if k != key {
                    assert(!before_items.contains_key(k));
                }
            }
            i = i + 1;
        }
        assert forall|k: u64, w: ThreadOrWaker|
            #![trigger waiters_of_key(orig, k).contains(w)]
            waiters_of_key(orig, k).contains(w) implies r@.contains(w) by {
            if orig.contains_key(k) {
                assert(keys@.contains(k));
                let j = choose|j: int| 0 <= j < keys@.len() && keys@[j] == k;
                assert(!items@.contains_key(keys@[j]));
            }
        }
        r
    }
}

} // verus!
