//! Per-key compute cache with read coalescing.
//!
//! Callers that ask for the same key at the same time share one computation:
//! the first runs it, the others wait for its result. The result stays for
//! later callers until the key is invalidated. A failed computation is not
//! kept.
//!
//! Running a computation and waiting for one is left to the caller. The cache
//! decides: [`ReadCache::begin`] opens a call, [`ReadCache::step`] says whether
//! to run, to wait or to go on, [`ReadCache::complete`] hands in what a run
//! gave, and [`ReadCache::finish`] or [`ReadCache::abandon`] closes the call.

use crate::error::{Error, ErrorView};
use crate::keys::ComputeKey;
use crate::outside::{
    index_contents, index_get, index_insert, index_len, index_new, index_remove,
};
use dashmap::DashMap;
use std::sync::Arc;
use vstd::prelude::*;
use vstd::string::*;

verus! {

/// How a call came by its value.
#[derive(Clone, Copy, Debug, PartialEq, Eq, Structural)]
pub enum CacheOutcome {
    /// The call ran the computation.
    Miss,
    /// The value was there when the call began.
    Hit,
    /// The call waited for another call's computation.
    Coalesced,
}

/// What a caller has to do next.
#[derive(Clone, Copy, Debug, PartialEq, Eq, Structural)]
pub enum Step {
    /// Run the computation and hand in its result.
    Run,
    /// Another call is running it: ask again when something has changed.
    Wait,
    /// The result is there.
    Ready,
}

/// What is known about a call while it is open.
#[derive(Clone, Copy)]
pub struct Call {
    /// The value was there when the call began.
    pub was_initialized: bool,
    /// The call has run the computation.
    pub ran: bool,
}

/// The state of a computation.
pub enum Cell<S: ?Sized> {
    /// Nobody is running it.
    Empty,
    /// The call at this place is running it.
    Running(usize),
    /// It gave a value, or failed with a message.
    Done(Result<Arc<S>, String>),
}

struct Slot<S: ?Sized> {
    key: Vec<u8>,
    /// New calls for `key` come here.
    live: bool,
    cell: Cell<S>,
    calls: Vec<Option<Call>>,
}

/// Computed values by key.
pub struct ReadCache<S: ?Sized> {
    index: DashMap<Vec<u8>, usize>,
    slots: Vec<Slot<S>>,
    free: Vec<usize>,
}

/// An open call. It is closed by [`ReadCache::finish`] or
/// [`ReadCache::abandon`].
pub struct Ticket {
    slot: usize,
    call: usize,
}

/// The place of an open call.
pub struct TicketView {
    pub slot: int,
    pub call: int,
}

impl View for Ticket {
    type V = TicketView;

    closed spec fn view(&self) -> TicketView {
        TicketView { slot: self.slot as int, call: self.call as int }
    }
}

/// The state of a computation, with its texts as character sequences.
pub enum CellView<S: ?Sized> {
    Empty,
    Running(int),
    Done(Result<Arc<S>, Seq<char>>),
}

impl<S: ?Sized> View for Cell<S> {
    type V = CellView<S>;

    open spec fn view(&self) -> CellView<S> {
        match self {
            Cell::Empty => CellView::Empty,
            Cell::Running(c) => CellView::Running(*c as int),
            Cell::Done(Ok(v)) => CellView::Done(Ok(*v)),
            Cell::Done(Err(m)) => CellView::Done(Err(m@)),
        }
    }
}

/// One computation and the calls that are open on it.
pub struct SlotView<S: ?Sized> {
    pub key: Seq<u8>,
    pub cell: CellView<S>,
    pub calls: Map<int, Call>,
}

/// The cache as its contracts speak of it: the slots that are in use, and the
/// slot that new calls for a key join.
pub struct CacheView<S: ?Sized> {
    pub live: Map<Seq<u8>, int>,
    pub slots: Map<int, SlotView<S>>,
}

impl<S: ?Sized> Slot<S> {
    spec fn in_use(self) -> bool {
        self.live || exists|c: int| 0 <= c < self.calls@.len() && #[trigger] self.calls@[c] is Some
    }

    spec fn calls_view(self) -> Map<int, Call> {
        Map::new(
            |c: int| 0 <= c < self.calls@.len() && self.calls@[c] is Some,
            |c: int| self.calls@[c]->0,
        )
    }

    spec fn view(self) -> SlotView<S> {
        SlotView { key: self.key@, cell: self.cell@, calls: self.calls_view() }
    }
}

impl<S: ?Sized> View for ReadCache<S> {
    type V = CacheView<S>;

    closed spec fn view(&self) -> CacheView<S> {
        CacheView {
            live: index_contents(self.index).map_values(|at: usize| at as int),
            slots: Map::new(
                |i: int| 0 <= i < self.slots@.len() && self.slots@[i].in_use(),
                |i: int| self.slots@[i].view(),
            ),
        }
    }
}

impl<S: ?Sized> CacheView<S> {
    /// The call is open.
    pub open spec fn holds(self, t: TicketView) -> bool {
        &&& self.slots.contains_key(t.slot)
        &&& self.slots[t.slot].calls.contains_key(t.call)
    }

    /// The computation that the call is about.
    pub open spec fn cell(self, t: TicketView) -> CellView<S> {
        self.slots[t.slot].cell
    }

    /// New calls for the slot's key join this slot.
    pub open spec fn is_live(self, slot: int) -> bool {
        &&& self.live.contains_key(self.slots[slot].key)
        &&& self.live[self.slots[slot].key] == slot
    }

    /// The value that is kept for `key`.
    pub open spec fn cached(self, key: Seq<u8>) -> Option<Arc<S>> {
        if self.live.contains_key(key) {
            match self.slots[self.live[key]].cell {
                CellView::Done(Ok(v)) => Some(v),
                _ => None,
            }
        } else {
            None
        }
    }

    /// A call is running the computation for `key`.
    pub open spec fn in_flight(self, key: Seq<u8>) -> bool {
        self.live.contains_key(key) && self.slots[self.live[key]].cell is Running
    }

    /// What holds of every state of the cache.
    pub open spec fn inv(self) -> bool {
        &&& forall|k: Seq<u8>| #[trigger]
            self.live.contains_key(k) ==> {
                &&& self.slots.contains_key(self.live[k])
                &&& self.slots[self.live[k]].key == k
                &&& !(self.slots[self.live[k]].cell matches CellView::Done(Err(_)))
            }
        &&& forall|i: int| #[trigger]
            self.slots.contains_key(i) ==> {
                &&& self.is_live(i) || self.slots[i].calls != Map::<int, Call>::empty()
                &&& self.slots[i].cell matches CellView::Running(c) ==> {
                    &&& self.slots[i].calls.contains_key(c)
                    &&& self.slots[i].calls[c].ran
                }
            }
    }

    /// The state without a slot that nothing can reach any more.
    pub open spec fn without_unused(self, slot: int) -> CacheView<S> {
        if self.is_live(slot) || self.slots[slot].calls != Map::<int, Call>::empty() {
            self
        } else {
            CacheView { slots: self.slots.remove(slot), ..self }
        }
    }

    /// The place that a new call for `key` may be given: in the slot that is
    /// live for `key`, or in a new one.
    pub open spec fn offers(self, key: Seq<u8>, t: TicketView) -> bool {
        if self.live.contains_key(key) {
            &&& t.slot == self.live[key]
            &&& !self.slots[t.slot].calls.contains_key(t.call)
        } else {
            !self.slots.contains_key(t.slot)
        }
    }

    /// After a call for `key` has begun.
    pub open spec fn begun(self, key: Seq<u8>, t: TicketView) -> CacheView<S> {
        if self.live.contains_key(key) {
            let slot = self.slots[t.slot];
            let call = Call { was_initialized: slot.cell is Done, ran: false };
            CacheView {
                slots: self.slots.insert(
                    t.slot,
                    SlotView { calls: slot.calls.insert(t.call, call), ..slot },
                ),
                ..self
            }
        } else {
            let call = Call { was_initialized: false, ran: false };
            CacheView {
                live: self.live.insert(key, t.slot),
                slots: self.slots.insert(
                    t.slot,
                    SlotView {
                        key,
                        cell: CellView::Empty,
                        calls: Map::<int, Call>::empty().insert(t.call, call),
                    },
                ),
            }
        }
    }

    /// What the call has to do next.
    pub open spec fn next_step(self, t: TicketView) -> Step {
        match self.cell(t) {
            CellView::Empty => Step::Run,
            CellView::Running(_) => Step::Wait,
            CellView::Done(_) => Step::Ready,
        }
    }

    /// After the call was told what to do: told to run, it is running.
    pub open spec fn stepped(self, t: TicketView) -> CacheView<S> {
        if self.cell(t) is Empty {
            let slot = self.slots[t.slot];
            let call = Call { ran: true, ..slot.calls[t.call] };
            CacheView {
                slots: self.slots.insert(
                    t.slot,
                    SlotView {
                        cell: CellView::Running(t.call),
                        calls: slot.calls.insert(t.call, call),
                        ..slot
                    },
                ),
                ..self
            }
        } else {
            self
        }
    }

    /// After the running call handed in a result. No call joins a failed
    /// computation.
    pub open spec fn completed(self, t: TicketView, result: Result<Arc<S>, Seq<char>>) -> CacheView<
        S,
    > {
        let slot = self.slots[t.slot];
        CacheView {
            live: if result is Err && self.is_live(t.slot) {
                self.live.remove(slot.key)
            } else {
                self.live
            },
            slots: self.slots.insert(t.slot, SlotView { cell: CellView::Done(result), ..slot }),
        }
    }

    /// After the call was closed. A computation that it was running is free to
    /// be run by another call.
    pub open spec fn ended(self, t: TicketView) -> CacheView<S> {
        let slot = self.slots[t.slot];
        let left = SlotView {
            cell: if slot.cell == CellView::<S>::Running(t.call) {
                CellView::Empty
            } else {
                slot.cell
            },
            calls: slot.calls.remove(t.call),
            ..slot
        };
        CacheView { slots: self.slots.insert(t.slot, left), ..self }.without_unused(t.slot)
    }

    /// After `key` was invalidated: open calls keep their slot, and new ones
    /// do not join it.
    pub open spec fn invalidated(self, key: Seq<u8>) -> CacheView<S> {
        if self.live.contains_key(key) {
            CacheView { live: self.live.remove(key), ..self }.without_unused(self.live[key])
        } else {
            self
        }
    }

    /// How a call whose result is there came by it.
    pub open spec fn outcome(self, t: TicketView) -> CacheOutcome {
        let call = self.slots[t.slot].calls[t.call];
        if call.was_initialized {
            CacheOutcome::Hit
        } else if call.ran {
            CacheOutcome::Miss
        } else {
            CacheOutcome::Coalesced
        }
    }
}

/// The message that is kept of a failed computation.
pub open spec fn kept<S: ?Sized>(result: Result<Arc<S>, Error>) -> Result<Arc<S>, Seq<char>> {
    match result {
        Ok(v) => Ok(v),
        Err(e) => Err(e@.message()),
    }
}

impl<S: ?Sized> Slot<S> {
    proof fn lemma_in_use(self)
        ensures
            self.in_use() == (self.live || self.calls_view() != Map::<int, Call>::empty()),
    {
        let none = Map::<int, Call>::empty();
        if exists|c: int| 0 <= c < self.calls@.len() && #[trigger] self.calls@[c] is Some {
            let c = choose|c: int| 0 <= c < self.calls@.len() && #[trigger] self.calls@[c] is Some;
            assert(self.calls_view().contains_key(c));
            assert(!none.contains_key(c));
        } else {
            assert(self.calls_view() =~= none);
        }
    }

    /// Notes a new call and returns its place.
    fn open_call(&mut self, call: Call) -> (c: usize)
        ensures
            !old(self).calls_view().contains_key(c as int),
            final(self).calls_view() == old(self).calls_view().insert(c as int, call),
            final(self).key == old(self).key,
            final(self).live == old(self).live,
            final(self).cell == old(self).cell,
    {
        let mut c: usize = 0;
        while c < self.calls.len() && self.calls[c].is_some()
            invariant
                c <= self.calls.len(),
            decreases self.calls.len() - c,
        {
            c += 1;
        }
        if c < self.calls.len() {
            self.calls[c] = Some(call);
        } else {
            self.calls.push(Some(call));
        }
        assert(self.calls_view() =~= old(self).calls_view().insert(c as int, call));
        c
    }

    fn has_calls(&self) -> (yes: bool)
        ensures
            yes == (self.calls_view() != Map::<int, Call>::empty()),
    {
        let mut c: usize = 0;
        while c < self.calls.len()
            invariant
                c <= self.calls.len(),
                forall|d: int| 0 <= d < c ==> #[trigger] self.calls@[d] is None,
            decreases self.calls.len() - c,
        {
            if self.calls[c].is_some() {
                assert(self.calls_view().contains_key(c as int));
                assert(!Map::<int, Call>::empty().contains_key(c as int));
                return true;
            }
            c += 1;
        }
        assert(self.calls_view() =~= Map::<int, Call>::empty());
        false
    }
}

impl<S: ?Sized> ReadCache<S> {
    /// The index, the slots and the list of free slots agree, and a running or
    /// failed computation is where it may be.
    pub closed spec fn wf(&self) -> bool {
        let index = index_contents(self.index);
        &&& forall|k: Seq<u8>| #[trigger]
            index.contains_key(k) ==> {
                &&& index[k] < self.slots@.len()
                &&& self.slots@[index[k] as int].live
                &&& self.slots@[index[k] as int].key@ == k
            }
        &&& forall|i: int| #![trigger self.slots@[i]]
            0 <= i < self.slots@.len() ==> {
                &&& self.slots@[i].live ==> {
                    &&& index.contains_key(self.slots@[i].key@)
                    &&& index[self.slots@[i].key@] == i
                    &&& !(self.slots@[i].cell@ matches CellView::Done(Err(_)))
                }
                &&& self.slots@[i].cell@ matches CellView::Running(c) ==> {
                    &&& self.slots@[i].calls_view().contains_key(c)
                    &&& self.slots@[i].calls_view()[c].ran
                }
            }
        &&& index.dom().finite()
        &&& self.free_wf()
    }

    spec fn free_wf(&self) -> bool {
        &&& self.free@.no_duplicates()
        &&& forall|j: int| #![trigger self.free@[j]]
            0 <= j < self.free@.len() ==> {
                &&& self.free@[j] < self.slots@.len()
                &&& !self.slots@[self.free@[j] as int].in_use()
            }
    }

    /// Every cache is in a state that satisfies the invariant.
    pub proof fn law_invariant(&self)
        requires
            self.wf(),
        ensures
            self@.inv(),
    {
        self.lemma_inv();
    }

    proof fn lemma_inv(&self)
        requires
            self.wf(),
        ensures
            self@.inv(),
            forall|i: int| #![trigger self.slots@[i]]
                0 <= i < self.slots@.len() && self.slots@[i].in_use() ==> self@.is_live(i)
                    == self.slots@[i].live,
    {
        let index = index_contents(self.index);
        assert forall|k: Seq<u8>| #[trigger] self@.live.contains_key(k) implies {
            &&& self@.slots.contains_key(self@.live[k])
            &&& self@.slots[self@.live[k]].key == k
            &&& !(self@.slots[self@.live[k]].cell matches CellView::Done(Err(_)))
        } by {
            assert(index.contains_key(k));
            let slot = self.slots@[index[k] as int];
            assert(slot.in_use());
        }
        assert forall|i: int| #[trigger] self@.slots.contains_key(i) implies {
            &&& self@.is_live(i) || self@.slots[i].calls != Map::<int, Call>::empty()
            &&& self@.slots[i].cell matches CellView::Running(c) ==> {
                &&& self@.slots[i].calls.contains_key(c)
                &&& self@.slots[i].calls[c].ran
            }
        } by {
            let slot = self.slots@[i];
            slot.lemma_in_use();
        }
    }

    /// Changing one slot changes the view in that place alone.
    proof fn lemma_update(before: Seq<Slot<S>>, after: Seq<Slot<S>>, i: int)
        requires
            0 <= i < before.len(),
            after.len() == before.len(),
            forall|j: int| 0 <= j < before.len() && j != i ==> after[j] == before[j],
        ensures
            after[i].in_use() ==> Self::in_use_slots(after) == Self::in_use_slots(before).insert(
                i,
                after[i].view(),
            ),
            !after[i].in_use() ==> Self::in_use_slots(after) == Self::in_use_slots(before).remove(
                i,
            ),
    {
        if after[i].in_use() {
            assert(Self::in_use_slots(after) =~= Self::in_use_slots(before).insert(
                i,
                after[i].view(),
            ));
        } else {
            assert(Self::in_use_slots(after) =~= Self::in_use_slots(before).remove(i));
        }
    }

    spec fn in_use_slots(slots: Seq<Slot<S>>) -> Map<int, SlotView<S>> {
        Map::new(|i: int| 0 <= i < slots.len() && slots[i].in_use(), |i: int| slots[i].view())
    }

    /// A cache that holds nothing.
    pub fn new() -> (cache: Self)
        ensures
            cache.wf(),
            cache@.live == Map::<Seq<u8>, int>::empty(),
            cache@.slots == Map::<int, SlotView<S>>::empty(),
    {
        let cache = ReadCache { index: index_new(), slots: Vec::new(), free: Vec::new() };
        assert(cache@.live =~= Map::<Seq<u8>, int>::empty());
        assert(cache@.slots =~= Map::<int, SlotView<S>>::empty());
        cache
    }

    /// Opens a call for `key`.
    pub fn begin(&mut self, key: &ComputeKey) -> (t: Ticket)
        requires
            old(self).wf(),
        ensures
            final(self).wf(),
            old(self)@.offers(key@, t@),
            final(self)@ == old(self)@.begun(key@, t@),
    {
        let ghost before = *self;
        match index_get(&self.index, key.0.as_slice()) {
            Some(i) => {
                let done = match &self.slots[i].cell {
                    Cell::Done(_) => true,
                    _ => false,
                };
                let c = self.slots[i].open_call(Call { was_initialized: done, ran: false });
                let t = Ticket { slot: i, call: c };
                proof {
                    Self::lemma_update(before.slots@, self.slots@, i as int);
                    assert(self@.slots =~= before@.begun(key@, t@).slots);
                    assert(self@.live =~= before@.begun(key@, t@).live);
                }
                t
            },
            None => {
                let bytes = key.clone().0;
                let i = self.take_slot();
                let ghost mid = *self;
                self.slots[i].live = true;
                self.slots[i].key = bytes;
                self.slots[i].cell = Cell::Empty;
                let c = self.slots[i].open_call(Call { was_initialized: false, ran: false });
                index_insert(&mut self.index, key.clone().0, i);
                let t = Ticket { slot: i, call: c };
                proof {
                    mid.slots@[i as int].lemma_in_use();
                    Self::lemma_update(mid.slots@, self.slots@, i as int);
                    assert(self@.slots =~= before@.begun(key@, t@).slots);
                    assert(self@.live =~= before@.begun(key@, t@).live);
                }
                t
            },
        }
    }

    /// A slot that is not in use.
    fn take_slot(&mut self) -> (i: usize)
        requires
            old(self).wf(),
        ensures
            final(self).wf(),
            final(self)@ == old(self)@,
            final(self).index == old(self).index,
            i < final(self).slots@.len(),
            !final(self).slots@[i as int].in_use(),
            !final(self).free@.contains(i),
    {
        match self.free.pop() {
            Some(i) => {
                assert(old(self).free@.last() == i);
                i
            },
            None => {
                let i: usize = self.slots.len();
                self.slots.push(
                    Slot { key: Vec::new(), live: false, cell: Cell::Empty, calls: Vec::new() },
                );
                assert(self@.slots =~= old(self)@.slots);
                i
            },
        }
    }

    /// Says what an open call has to do next.
    pub fn step(&mut self, t: &Ticket) -> (step: Step)
        requires
            old(self).wf(),
            old(self)@.holds(t@),
        ensures
            final(self).wf(),
            step == old(self)@.next_step(t@),
            final(self)@ == old(self)@.stepped(t@),
    {
        let ghost before = *self;
        let i = t.slot;
        match &self.slots[i].cell {
            Cell::Running(_) => Step::Wait,
            Cell::Done(_) => Step::Ready,
            Cell::Empty => {
                let was_initialized = match self.slots[i].calls[t.call] {
                    Some(call) => call.was_initialized,
                    None => false,
                };
                self.slots[i].calls[t.call] = Some(Call { was_initialized, ran: true });
                self.slots[i].cell = Cell::Running(t.call);
                proof {
                    let call = Call { was_initialized, ran: true };
                    assert(self.slots@[i as int].calls_view() =~= before.slots@[i as int].calls_view().insert(
                        t.call as int,
                        call,
                    ));
                    before.slots@[i as int].lemma_in_use();
                    self.slots@[i as int].lemma_in_use();
                    assert(self.slots@[i as int].calls_view().contains_key(t.call as int));
                    Self::lemma_update(before.slots@, self.slots@, i as int);
                    assert(self@.slots =~= before@.stepped(t@).slots);
                    assert(self@.live =~= before@.stepped(t@).live);
                }
                Step::Run
            },
        }
    }

    /// Takes the result of the computation that the call was told to run.
    pub fn complete(&mut self, t: &Ticket, result: Result<Arc<S>, Error>)
        requires
            old(self).wf(),
            old(self)@.holds(t@),
            old(self)@.cell(t@) == CellView::<S>::Running(t@.call),
        ensures
            final(self).wf(),
            final(self)@ == old(self)@.completed(t@, kept(result)),
    {
        let ghost before = *self;
        let i = t.slot;
        proof {
            before.lemma_inv();
        }
        match result {
            Ok(v) => {
                self.slots[i].cell = Cell::Done(Ok(v));
            },
            Err(e) => {
                if self.slots[i].live {
                    index_remove(&mut self.index, self.slots[i].key.as_slice());
                    self.slots[i].live = false;
                }
                self.slots[i].cell = Cell::Done(Err(e.message()));
            },
        }
        proof {
            self.slots@[i as int].lemma_in_use();
            assert(self.slots@[i as int].calls_view().contains_key(t.call as int));
            Self::lemma_update(before.slots@, self.slots@, i as int);
            assert(self@.slots =~= before@.completed(t@, kept(result)).slots);
            assert(self@.live =~= before@.completed(t@, kept(result)).live);
        }
    }

    /// Closes a call without an answer, as when the caller goes away. If it
    /// was running the computation, another call will be told to run it.
    pub fn abandon(&mut self, t: Ticket)
        requires
            old(self).wf(),
            old(self)@.holds(t@),
        ensures
            final(self).wf(),
            final(self)@ == old(self)@.ended(t@),
    {
        let ghost before = *self;
        let running = match &self.slots[t.slot].cell {
            Cell::Running(c) => *c == t.call,
            _ => false,
        };
        if running {
            self.slots[t.slot].cell = Cell::Empty;
            proof {
                let i = t@.slot;
                before.slots@[i].lemma_in_use();
                self.slots@[i].lemma_in_use();
                Self::lemma_update(before.slots@, self.slots@, i);
                assert(self@.slots.insert(i, before@.ended(t@).slots[i])
                    =~= before@.slots.insert(i, before@.ended(t@).slots[i]));
                assert(self@.ended(t@).slots =~= before@.ended(t@).slots);
                assert(self@.ended(t@).live =~= before@.ended(t@).live);
            }
        }
        self.end(t);
    }

    /// Takes the call out of its slot.
    fn end(&mut self, t: Ticket)
        requires
            old(self).wf(),
            old(self)@.holds(t@),
            old(self)@.cell(t@) != CellView::<S>::Running(t@.call),
        ensures
            final(self).wf(),
            final(self)@ == old(self)@.ended(t@),
    {
        let ghost before = *self;
        let i = t.slot;
        proof {
            before.lemma_inv();
        }
        self.slots[i].calls[t.call] = None;
        let ghost mid = *self;
        assert(mid.slots@[i as int].calls_view() =~= before.slots@[i as int].calls_view().remove(
            t.call as int,
        ));
        if !self.slots[i].live && !self.slots[i].has_calls() {
            self.slots[i].cell = Cell::Empty;
            self.free.push(i);
        }
        proof {
            mid.slots@[i as int].lemma_in_use();
            self.slots@[i as int].lemma_in_use();
            Self::lemma_update(before.slots@, self.slots@, i as int);
            assert(self@.slots =~= before@.ended(t@).slots);
            assert(self@.live =~= before@.ended(t@).live);
        }
    }

    /// Closes a call whose result is there, and returns the result.
    pub fn finish(&mut self, t: Ticket) -> (result: Result<(Arc<S>, CacheOutcome), Error>)
        requires
            old(self).wf(),
            old(self)@.holds(t@),
            old(self)@.cell(t@) is Done,
        ensures
            final(self).wf(),
            final(self)@ == old(self)@.ended(t@),
            match old(self)@.cell(t@)->Done_0 {
                Ok(v) => result == Ok::<(Arc<S>, CacheOutcome), Error>(
                    (v, old(self)@.outcome(t@)),
                ),
                Err(m) => result matches Err(e) && e@ == ErrorView::Compute(m),
            },
    {
        let outcome = match self.slots[t.slot].calls[t.call] {
            Some(call) if call.was_initialized => CacheOutcome::Hit,
            Some(call) if call.ran => CacheOutcome::Miss,
            _ => CacheOutcome::Coalesced,
        };
        let result = match &self.slots[t.slot].cell {
            Cell::Done(Ok(v)) => Ok((v.clone(), outcome)),
            Cell::Done(Err(m)) => Err(Error::Compute(m.clone())),
            _ => Err(Error::Compute(String::new())),
        };
        self.end(t);
        result
    }

    /// Evicts a key. Calls that are open go on undisturbed; later ones do not
    /// see their result.
    pub fn invalidate(&mut self, key: &ComputeKey)
        requires
            old(self).wf(),
        ensures
            final(self).wf(),
            final(self)@ == old(self)@.invalidated(key@),
    {
        let ghost before = *self;
        proof {
            before.lemma_inv();
        }
        match index_get(&self.index, key.0.as_slice()) {
            None => {},
            Some(i) => {
                index_remove(&mut self.index, key.0.as_slice());
                self.slots[i].live = false;
                let ghost mid = *self;
                if !self.slots[i].has_calls() {
                    self.slots[i].cell = Cell::Empty;
                    self.free.push(i);
                }
                proof {
                    mid.slots@[i as int].lemma_in_use();
                    self.slots@[i as int].lemma_in_use();
                    Self::lemma_update(before.slots@, self.slots@, i as int);
                    assert(self@.slots =~= before@.invalidated(key@).slots);
                    assert(self@.live =~= before@.invalidated(key@).live);
                }
            },
        }
    }

    /// The value for `key`: the one that is kept, or else the one that `f`
    /// computes. `f` runs at most once, and not at all where a value is kept:
    /// there it need not even be fit to run.
    pub fn get_or_compute<F: FnOnce() -> Result<Arc<S>, Error>>(
        &mut self,
        key: &ComputeKey,
        f: F,
    ) -> (result: Result<(Arc<S>, CacheOutcome), Error>)
        requires
            old(self).wf(),
            !old(self)@.in_flight(key@),
            old(self)@.cached(key@) is None ==> call_requires(f, ()),
        ensures
            final(self).wf(),
            match old(self)@.cached(key@) {
                Some(v) => {
                    &&& result == Ok::<(Arc<S>, CacheOutcome), Error>((v, CacheOutcome::Hit))
                    &&& final(self)@ == old(self)@
                },
                None => exists|t: TicketView, given: Result<Arc<S>, Error>|
                    #![trigger call_ensures(f, (), given), old(self)@.offers(key@, t)]
                    {
                        &&& call_ensures(f, (), given)
                        &&& old(self)@.offers(key@, t)
                        &&& final(self)@ == old(self)@.begun(key@, t).stepped(t).completed(
                            t,
                            kept(given),
                        ).ended(t)
                        &&& match given {
                            Ok(v) => {
                                &&& result == Ok::<(Arc<S>, CacheOutcome), Error>(
                                    (v, CacheOutcome::Miss),
                                )
                                &&& final(self)@.cached(key@) == Some(v)
                            },
                            Err(e) => {
                                &&& result matches Err(r) && r@ == ErrorView::Compute(e@.message())
                                &&& final(self)@.live == old(self)@.live.remove(key@)
                            },
                        }
                    },
            },
    {
        let ghost before = self@;
        proof {
            self.lemma_inv();
        }
        let t = self.begin(key);
        match self.step(&t) {
            Step::Run => {
                let given = f();
                proof {
                    assert(call_ensures(f, (), given) && before.offers(key@, t@));
                }
                self.complete(&t, given);
                self.finish(t)
            },
            _ => {
                let result = self.finish(t);
                proof {
                    let slot = before.slots[before.live[key@]];
                    assert(slot.calls.insert(t@.call, Call { was_initialized: true, ran: false })
                        .remove(t@.call) =~= slot.calls);
                    assert(self@.slots =~= before.slots);
                    assert(self@.live =~= before.live);
                }
                result
            },
        }
    }

    /// The number of keys that are cached or being computed.
    pub fn len(&self) -> (n: usize)
        requires
            self.wf(),
        ensures
            self@.live.dom().finite(),
            n == self@.live.dom().len(),
    {
        assert(self@.live.dom() =~= index_contents(self.index).dom());
        index_len(&self.index)
    }

    /// No key is cached or being computed.
    pub fn is_empty(&self) -> (yes: bool)
        requires
            self.wf(),
        ensures
            yes == (self@.live == Map::<Seq<u8>, int>::empty()),
    {
        let n: usize = self.len();
        proof {
            if n == 0 {
                assert(self@.live =~= Map::<Seq<u8>, int>::empty());
            }
        }
        n == 0
    }
}

impl<S: ?Sized> Default for ReadCache<S> {
    fn default() -> (cache: Self)
        ensures
            cache.wf(),
            cache@.live == Map::<Seq<u8>, int>::empty(),
            cache@.slots == Map::<int, SlotView<S>>::empty(),
    {
        ReadCache::new()
    }
}

/// Something that happens to the cache.
pub enum CacheEvent<S: ?Sized> {
    Begin(Seq<u8>, TicketView),
    Step(TicketView),
    Complete(TicketView, Result<Arc<S>, Seq<char>>),
    End(TicketView),
    Invalidate(Seq<u8>),
}

impl<S: ?Sized> CacheView<S> {
    /// The event can happen in this state.
    pub open spec fn allows(self, event: CacheEvent<S>) -> bool {
        match event {
            CacheEvent::Begin(key, t) => self.offers(key, t),
            CacheEvent::Step(t) => self.holds(t),
            CacheEvent::Complete(t, _) => self.holds(t) && self.cell(t) == CellView::<S>::Running(
                t.call,
            ),
            CacheEvent::End(t) => self.holds(t),
            CacheEvent::Invalidate(_) => true,
        }
    }

    /// The state after the event.
    pub open spec fn after(self, event: CacheEvent<S>) -> CacheView<S> {
        match event {
            CacheEvent::Begin(key, t) => self.begun(key, t),
            CacheEvent::Step(t) => self.stepped(t),
            CacheEvent::Complete(t, result) => self.completed(t, result),
            CacheEvent::End(t) => self.ended(t),
            CacheEvent::Invalidate(key) => self.invalidated(key),
        }
    }

    /// In this state the event makes a call run the slot's computation.
    pub open spec fn starts(self, event: CacheEvent<S>, slot: int) -> bool {
        event matches CacheEvent::Step(t) && t.slot == slot && self.next_step(t) == Step::Run
    }

    /// In this state the event takes away the call that was running the
    /// slot's computation.
    pub open spec fn gives_up(self, event: CacheEvent<S>, slot: int) -> bool {
        event matches CacheEvent::End(t) && t.slot == slot && self.cell(t)
            == CellView::<S>::Running(t.call)
    }
}

/// The states that the cache goes through, event by event.
pub open spec fn cache_history<S: ?Sized>(
    states: Seq<CacheView<S>>,
    events: Seq<CacheEvent<S>>,
) -> bool {
    &&& states.len() == events.len() + 1
    &&& forall|i: int| #![trigger events[i]]
        0 <= i < events.len() ==> states[i].allows(events[i]) && states[i + 1] == states[i].after(
            events[i],
        )
}

/// How often the slot's computation was started.
pub open spec fn starts_in<S: ?Sized>(
    states: Seq<CacheView<S>>,
    events: Seq<CacheEvent<S>>,
    slot: int,
) -> int
    decreases events.len(),
{
    if events.len() == 0 {
        0
    } else {
        starts_in(states, events.drop_last(), slot) + if states[events.len()
            - 1].starts(events.last(), slot) {
            1int
        } else {
            0
        }
    }
}

/// How often a call that was running the slot's computation went away.
pub open spec fn given_up_in<S: ?Sized>(
    states: Seq<CacheView<S>>,
    events: Seq<CacheEvent<S>>,
    slot: int,
) -> int
    decreases events.len(),
{
    if events.len() == 0 {
        0
    } else {
        given_up_in(states, events.drop_last(), slot) + if states[events.len()
            - 1].gives_up(events.last(), slot) {
            1int
        } else {
            0
        }
    }
}

/// One for a computation that has been started, else none.
pub open spec fn started<S: ?Sized>(cell: CellView<S>) -> int {
    if cell is Empty {
        0
    } else {
        1
    }
}

proof fn lemma_history_counts<S: ?Sized>(
    states: Seq<CacheView<S>>,
    events: Seq<CacheEvent<S>>,
    slot: int,
    n: int,
)
    requires
        cache_history(states, events),
        0 <= n <= events.len(),
        forall|i: int| #![trigger states[i]] 0 <= i <= n ==> states[i].slots.contains_key(slot),
    ensures
        starts_in(states, events.take(n), slot) == given_up_in(states, events.take(n), slot)
            + started(states[n].slots[slot].cell) - started(states[0].slots[slot].cell),
    decreases n,
{
    if n > 0 {
        lemma_history_counts(states, events, slot, n - 1);
        assert(events.take(n).drop_last() =~= events.take(n - 1));
        let event = events[n - 1];
        assert(events.take(n).last() == event);
        let s = states[n - 1];
        assert(states[n].slots.contains_key(slot));
        assert(s.slots.contains_key(slot));
        assert(s.allows(event));
        assert(states[n] == s.after(event));
    }
}

/// Calls that share a key share one computation. Over any stretch of time in
/// which a slot is live for a key, every new call for the key joins it, and
/// its computation is started at most once more often than a call went away
/// in the middle of running it.
pub proof fn law_one_computation_per_key<S: ?Sized>(
    states: Seq<CacheView<S>>,
    events: Seq<CacheEvent<S>>,
    key: Seq<u8>,
    slot: int,
)
    requires
        cache_history(states, events),
        states[0].inv(),
        forall|i: int| #![trigger states[i]]
            0 <= i < states.len() ==> states[i].live.contains_key(key) && states[i].live[key]
                == slot,
    ensures
        forall|i: int| #![trigger events[i]]
            0 <= i < events.len() ==> (events[i] matches CacheEvent::Begin(k, t) ==> k == key
                ==> t.slot == slot),
        starts_in(states, events, slot) == given_up_in(states, events, slot) + started(
            states.last().slots[slot].cell,
        ) - started(states[0].slots[slot].cell),
        starts_in(states, events, slot) <= given_up_in(states, events, slot) + 1,
{
    assert forall|i: int| #![trigger states[i]] 0 <= i <= events.len() implies states[i].slots.contains_key(
        slot,
    ) by {
        lemma_history_inv(states, events, i);
        assert(states[i].live.contains_key(key));
    }
    assert(events.take(events.len() as int) =~= events);
    lemma_history_counts(states, events, slot, events.len() as int);
    assert forall|i: int| #![trigger events[i]] 0 <= i < events.len() implies (events[i] matches CacheEvent::Begin(
        k,
        t,
    ) ==> k == key ==> t.slot == slot) by {
        assert(states[i].allows(events[i]));
        assert(states[i].live.contains_key(key));
    }
}

/// A result stands: as long as a slot stays in use, the result of its
/// computation does not change, so that all its calls get the same one, and
/// the computation is not started again.
pub proof fn law_result_stands<S: ?Sized>(
    states: Seq<CacheView<S>>,
    events: Seq<CacheEvent<S>>,
    slot: int,
)
    requires
        cache_history(states, events),
        forall|i: int| #![trigger states[i]]
            0 <= i < states.len() ==> states[i].slots.contains_key(slot),
        states[0].slots[slot].cell is Done,
    ensures
        states.last().slots[slot].cell == states[0].slots[slot].cell,
        starts_in(states, events, slot) == 0,
    decreases events.len(),
{
    if events.len() > 0 {
        let n = events.len() - 1;
        let earlier = events.drop_last();
        let before = states.drop_last();
        assert(cache_history(before, earlier)) by {
            assert forall|i: int| #![trigger earlier[i]] 0 <= i < earlier.len() implies before[i].allows(
                earlier[i],
            ) && before[i + 1] == before[i].after(earlier[i]) by {
                assert(earlier[i] == events[i]);
            }
        }
        assert forall|i: int| #![trigger before[i]] 0 <= i < before.len() implies before[i].slots.contains_key(
            slot,
        ) by {
            assert(before[i] == states[i]);
        }
        law_result_stands(before, earlier, slot);
        lemma_starts_local(before, states, earlier, slot);
        assert(before.last() == states[n]);
        assert(states[n].allows(events[n]));
        assert(states[n + 1] == states[n].after(events[n]));
        assert(states[n + 1].slots.contains_key(slot));
        assert(states[n].slots.contains_key(slot));
    }
}

/// Counting starts looks only at the states before the events.
proof fn lemma_starts_local<S: ?Sized>(
    a: Seq<CacheView<S>>,
    b: Seq<CacheView<S>>,
    events: Seq<CacheEvent<S>>,
    slot: int,
)
    requires
        events.len() < a.len(),
        events.len() < b.len(),
        forall|i: int| 0 <= i < events.len() ==> a[i] == b[i],
    ensures
        starts_in(a, events, slot) == starts_in(b, events, slot),
    decreases events.len(),
{
    if events.len() > 0 {
        lemma_starts_local(a, b, events.drop_last(), slot);
    }
}

/// What holds of one state of the cache holds of the next, whatever happens.
pub proof fn law_invariant_is_kept<S: ?Sized>(state: CacheView<S>, event: CacheEvent<S>)
    requires
        state.inv(),
        state.allows(event),
    ensures
        state.after(event).inv(),
{
    let next = state.after(event);
    let none = Map::<int, Call>::empty();
    assert forall|k: Seq<u8>| #[trigger] next.live.contains_key(k) implies {
        &&& next.slots.contains_key(next.live[k])
        &&& next.slots[next.live[k]].key == k
        &&& !(next.slots[next.live[k]].cell matches CellView::Done(Err(_)))
    } by {
        if state.live.contains_key(k) {
            assert(state.slots.contains_key(state.live[k]));
        }
    }
    assert forall|i: int| #[trigger] next.slots.contains_key(i) implies {
        &&& next.is_live(i) || next.slots[i].calls != none
        &&& next.slots[i].cell matches CellView::Running(c) ==> {
            &&& next.slots[i].calls.contains_key(c)
            &&& next.slots[i].calls[c].ran
        }
    } by {
        match event {
            CacheEvent::Begin(_, t) => {
                assert(next.slots[t.slot].calls.contains_key(t.call));
                assert(!none.contains_key(t.call));
            },
            CacheEvent::Step(t) => {
                assert(next.slots[t.slot].calls.contains_key(t.call));
                assert(!none.contains_key(t.call));
            },
            CacheEvent::Complete(t, _) => {
                assert(next.slots[t.slot].calls.contains_key(t.call));
                assert(!none.contains_key(t.call));
            },
            _ => {},
        }
        if state.slots.contains_key(i) {
            assert(state.is_live(i) || state.slots[i].calls != none);
        }
    }
}

/// A failed computation does not stick: nothing is kept for its key, and the
/// next call for the key is told to run the computation anew.
pub proof fn law_failure_does_not_stick<S: ?Sized>(
    state: CacheView<S>,
    t: TicketView,
    message: Seq<char>,
    retry: TicketView,
)
    requires
        state.inv(),
        state.holds(t),
        state.cell(t) == CellView::<S>::Running(t.call),
        state.is_live(t.slot),
        state.completed(t, Err(message)).offers(state.slots[t.slot].key, retry),
    ensures
        !state.completed(t, Err(message)).live.contains_key(state.slots[t.slot].key),
        state.completed(t, Err(message)).begun(state.slots[t.slot].key, retry).next_step(retry)
            == Step::Run,
        retry.slot != t.slot,
{
}

/// Whatever happens to a call for one key, or to the key itself, the value or
/// the computation that stands for another key stays as it is.
pub proof fn law_keys_are_independent<S: ?Sized>(
    state: CacheView<S>,
    event: CacheEvent<S>,
    other: Seq<u8>,
)
    requires
        state.inv(),
        state.allows(event),
        match event {
            CacheEvent::Begin(key, _) => key != other,
            CacheEvent::Step(t) => state.slots[t.slot].key != other,
            CacheEvent::Complete(t, _) => state.slots[t.slot].key != other,
            CacheEvent::End(t) => state.slots[t.slot].key != other,
            CacheEvent::Invalidate(key) => key != other,
        },
    ensures
        state.after(event).live.contains_key(other) == state.live.contains_key(other),
        state.live.contains_key(other) ==> {
            &&& state.after(event).live[other] == state.live[other]
            &&& state.after(event).slots[state.live[other]] == state.slots[state.live[other]]
        },
        state.after(event).cached(other) == state.cached(other),
{
    if state.live.contains_key(other) {
        assert(state.slots.contains_key(state.live[other]));
    }
    match event {
        CacheEvent::Invalidate(key) => {
            if state.live.contains_key(key) {
                assert(state.slots.contains_key(state.live[key]));
            }
        },
        _ => {},
    }
}

/// A kept value is served as it is: a new call for its key finds it ready.
pub proof fn law_kept_value_is_a_hit<S: ?Sized>(
    state: CacheView<S>,
    key: Seq<u8>,
    t: TicketView,
)
    requires
        state.inv(),
        state.cached(key) is Some,
        state.offers(key, t),
    ensures
        state.begun(key, t).next_step(t) == Step::Ready,
        state.begun(key, t).cell(t) == CellView::<S>::Done(Ok(state.cached(key)->0)),
        state.begun(key, t).outcome(t) == CacheOutcome::Hit,
{
}

/// A call that comes while the computation is running waits, and gets the
/// result of that run, without having run anything itself.
pub proof fn law_late_call_coalesces<S: ?Sized>(
    state: CacheView<S>,
    runner: TicketView,
    late: TicketView,
    result: Result<Arc<S>, Seq<char>>,
)
    requires
        state.inv(),
        state.holds(runner),
        state.is_live(runner.slot),
        state.cell(runner) == CellView::<S>::Running(runner.call),
        state.offers(state.slots[runner.slot].key, late),
    ensures
        ({
            let joined = state.begun(state.slots[runner.slot].key, late);
            &&& joined.next_step(late) == Step::Wait
            &&& joined.completed(runner, result).next_step(late) == Step::Ready
            &&& joined.completed(runner, result).cell(late) == CellView::<S>::Done(result)
            &&& joined.completed(runner, result).outcome(late) == CacheOutcome::Coalesced
        }),
{
}

/// After an invalidation nothing is kept for the key, while the calls that
/// were open stay open on the same computation.
pub proof fn law_invalidation<S: ?Sized>(state: CacheView<S>, key: Seq<u8>, t: TicketView)
    requires
        state.inv(),
        state.holds(t),
    ensures
        !state.invalidated(key).live.contains_key(key),
        state.invalidated(key).cached(key) is None,
        state.invalidated(key).holds(t),
        state.invalidated(key).slots[t.slot] == state.slots[t.slot],
{
    assert(state.slots[t.slot].calls.contains_key(t.call));
    assert(!Map::<int, Call>::empty().contains_key(t.call));
}

proof fn lemma_history_inv<S: ?Sized>(
    states: Seq<CacheView<S>>,
    events: Seq<CacheEvent<S>>,
    n: int,
)
    requires
        cache_history(states, events),
        states[0].inv(),
        0 <= n < states.len(),
    ensures
        states[n].inv(),
    decreases n,
{
    if n > 0 {
        lemma_history_inv(states, events, n - 1);
        let event = events[n - 1];
        assert(states[n - 1].allows(event) && states[n] == states[n - 1].after(event));
        law_invariant_is_kept(states[n - 1], event);
    }
}

/// The result was handed in, before step `n`, by a call on the slot when the
/// slot was for the key.
pub open spec fn handed_in<S: ?Sized>(
    states: Seq<CacheView<S>>,
    events: Seq<CacheEvent<S>>,
    n: int,
    slot: int,
    key: Seq<u8>,
    result: Result<Arc<S>, Seq<char>>,
) -> bool {
    exists|i: int|
        0 <= i < n && (#[trigger] events[i] matches CacheEvent::Complete(t, r) && t.slot == slot
            && r == result && states[i].slots[slot].key == key)
}

/// Every result is one that was computed for its key: in a cache that began
/// with nothing, what a slot holds was handed in by a call for the same key.
pub proof fn law_results_were_computed<S: ?Sized>(
    states: Seq<CacheView<S>>,
    events: Seq<CacheEvent<S>>,
    n: int,
    slot: int,
)
    requires
        cache_history(states, events),
        states[0].live == Map::<Seq<u8>, int>::empty(),
        states[0].slots == Map::<int, SlotView<S>>::empty(),
        0 <= n < states.len(),
        states[n].slots.contains_key(slot),
        states[n].slots[slot].cell is Done,
    ensures
        handed_in(
            states,
            events,
            n,
            slot,
            states[n].slots[slot].key,
            states[n].slots[slot].cell->Done_0,
        ),
    decreases n,
{
    if n > 0 {
        let event = events[n - 1];
        let before = states[n - 1];
        lemma_history_inv(states, events, n - 1);
        assert(before.allows(event) && states[n] == before.after(event));
        let result = states[n].slots[slot].cell->Done_0;
        let key = states[n].slots[slot].key;
        if event matches CacheEvent::Complete(t, r) && t.slot == slot {
            assert(events[n - 1] == event);
            assert(handed_in(states, events, n, slot, key, result));
        } else {
            law_results_were_computed(states, events, n - 1, slot);
            assert(before.slots[slot].cell->Done_0 == result);
            assert(before.slots[slot].key == key);
            assert(handed_in(states, events, n - 1, slot, key, result));
        }
    }
}

/// Callers that ask for the same key at the same time share one computation. Of
/// two that begin where nothing is known of the key, the first is told to run it
/// and the second to wait; what the first hands in is what both get, and what
/// every later caller finds, until the key is invalidated.
pub proof fn law_callers_share_one_computation<S: ?Sized>(
    c1: &mut ReadCache<S>,
    key: &ComputeKey,
    first: Ticket,
    c2: &mut ReadCache<S>,
    told: Step,
    c3: &mut ReadCache<S>,
    same: &ComputeKey,
    second: Ticket,
    c4: &mut ReadCache<S>,
    told_second: Step,
    c5: &mut ReadCache<S>,
    value: Arc<S>,
    c6: &mut ReadCache<S>,
    got_second: Result<(Arc<S>, CacheOutcome), Error>,
    c7: &mut ReadCache<S>,
    got: Result<(Arc<S>, CacheOutcome), Error>,
    c8: &mut ReadCache<S>,
    third: Ticket,
    c9: &mut ReadCache<S>,
    told_third: Step,
    c10: &mut ReadCache<S>,
    got_third: Result<(Arc<S>, CacheOutcome), Error>,
)
    requires
        !old(c1)@.live.contains_key(key.0@),
        same.0@ == key.0@,
        call_ensures(ReadCache::<S>::begin, (c1, key), first),
        call_ensures(ReadCache::<S>::step, (c2, &first), told),
        call_ensures(ReadCache::<S>::begin, (c3, same), second),
        call_ensures(ReadCache::<S>::step, (c4, &second), told_second),
        call_ensures(ReadCache::<S>::complete, (c5, &first, Ok(value)), ()),
        call_ensures(ReadCache::<S>::finish, (c6, second), got_second),
        call_ensures(ReadCache::<S>::finish, (c7, first), got),
        call_ensures(ReadCache::<S>::begin, (c8, same), third),
        call_ensures(ReadCache::<S>::step, (c9, &third), told_third),
        call_ensures(ReadCache::<S>::finish, (c10, third), got_third),
    ensures
        *old(c2) == *final(c1) && *old(c3) == *final(c2) && *old(c4) == *final(c3) && *old(c5)
            == *final(c4) && *old(c6) == *final(c5) && *old(c7) == *final(c6) && *old(c8) == *final(c7) && *old(c9) == *final(c8) && *old(c10) == *final(c9) ==> {
            &&& told == Step::Run
            &&& told_second == Step::Wait
            &&& got == Ok::<(Arc<S>, CacheOutcome), Error>((value, CacheOutcome::Miss))
            &&& got_second == Ok::<(Arc<S>, CacheOutcome), Error>(
                (value, CacheOutcome::Coalesced),
            )
            &&& told_third == Step::Ready
            &&& got_third == Ok::<(Arc<S>, CacheOutcome), Error>((value, CacheOutcome::Hit))
        },
{
    let none = Map::<int, Call>::empty();
    assert(!none.contains_key(second@.call));
}

/// A failed computation is what its callers get, as a failed computation with its
/// message, and it does not stick: the next caller is told to run it anew.
pub proof fn law_failed_computation_is_run_anew<S: ?Sized>(
    c1: &mut ReadCache<S>,
    key: &ComputeKey,
    first: Ticket,
    c2: &mut ReadCache<S>,
    told: Step,
    c3: &mut ReadCache<S>,
    e: Error,
    message: String,
    c4: &mut ReadCache<S>,
    next: Ticket,
    c5: &mut ReadCache<S>,
    told_next: Step,
    c6: &mut ReadCache<S>,
    got: Result<(Arc<S>, CacheOutcome), Error>,
)
    requires
        !old(c1)@.live.contains_key(key.0@),
        call_ensures(ReadCache::<S>::begin, (c1, key), first),
        call_ensures(ReadCache::<S>::step, (c2, &first), told),
        call_ensures(ReadCache::<S>::complete, (c3, &first, Err(e)), ()),
        call_ensures(Error::message, (&e,), message),
        call_ensures(ReadCache::<S>::begin, (c4, key), next),
        call_ensures(ReadCache::<S>::step, (c5, &next), told_next),
        call_ensures(ReadCache::<S>::finish, (c6, first), got),
    ensures
        *old(c2) == *final(c1) && *old(c3) == *final(c2) && *old(c4) == *final(c3) && *old(c5)
            == *final(c4) && *old(c6) == *final(c5) ==> {
            &&& told == Step::Run
            &&& told_next == Step::Run
            &&& got matches Err(Error::Compute(m)) && m@ == message@
        },
{
}

/// A caller that goes away in the middle of running leaves the computation to the
/// next one.
pub proof fn law_abandoned_run_is_taken_over<S: ?Sized>(
    c1: &mut ReadCache<S>,
    key: &ComputeKey,
    first: Ticket,
    c2: &mut ReadCache<S>,
    told: Step,
    c3: &mut ReadCache<S>,
    second: Ticket,
    c4: &mut ReadCache<S>,
    c5: &mut ReadCache<S>,
    told_second: Step,
)
    requires
        !old(c1)@.live.contains_key(key.0@),
        call_ensures(ReadCache::<S>::begin, (c1, key), first),
        call_ensures(ReadCache::<S>::step, (c2, &first), told),
        call_ensures(ReadCache::<S>::begin, (c3, key), second),
        call_ensures(ReadCache::<S>::abandon, (c4, first), ()),
        call_ensures(ReadCache::<S>::step, (c5, &second), told_second),
    ensures
        *old(c2) == *final(c1) && *old(c3) == *final(c2) && *old(c4) == *final(c3) && *old(c5)
            == *final(c4) ==> told == Step::Run && told_second == Step::Run,
{
    let none = Map::<int, Call>::empty();
    assert(!none.contains_key(second@.call));
}

/// After an invalidation the next caller for the key is told to run the
/// computation, and the one that was running goes on, with what it hands in
/// reaching only itself.
pub proof fn law_invalidated_key_is_run_anew<S: ?Sized>(
    c1: &mut ReadCache<S>,
    key: &ComputeKey,
    first: Ticket,
    c2: &mut ReadCache<S>,
    told: Step,
    c3: &mut ReadCache<S>,
    c4: &mut ReadCache<S>,
    next: Ticket,
    c5: &mut ReadCache<S>,
    told_next: Step,
    c6: &mut ReadCache<S>,
    value: Arc<S>,
    c7: &mut ReadCache<S>,
    other: Arc<S>,
    c8: &mut ReadCache<S>,
    got: Result<(Arc<S>, CacheOutcome), Error>,
    c9: &mut ReadCache<S>,
    got_next: Result<(Arc<S>, CacheOutcome), Error>,
)
    requires
        !old(c1)@.live.contains_key(key.0@),
        call_ensures(ReadCache::<S>::begin, (c1, key), first),
        call_ensures(ReadCache::<S>::step, (c2, &first), told),
        call_ensures(ReadCache::<S>::invalidate, (c3, key), ()),
        call_ensures(ReadCache::<S>::begin, (c4, key), next),
        call_ensures(ReadCache::<S>::step, (c5, &next), told_next),
        call_ensures(ReadCache::<S>::complete, (c6, &first, Ok(value)), ()),
        call_ensures(ReadCache::<S>::complete, (c7, &next, Ok(other)), ()),
        call_ensures(ReadCache::<S>::finish, (c8, first), got),
        call_ensures(ReadCache::<S>::finish, (c9, next), got_next),
    ensures
        *old(c2) == *final(c1) && *old(c3) == *final(c2) && *old(c4) == *final(c3) && *old(c5)
            == *final(c4) && *old(c6) == *final(c5) && *old(c7) == *final(c6) && *old(c8) == *final(c7) && *old(c9) == *final(c8) ==> {
            &&& told == Step::Run
            &&& told_next == Step::Run
            &&& got == Ok::<(Arc<S>, CacheOutcome), Error>((value, CacheOutcome::Miss))
            &&& got_next == Ok::<(Arc<S>, CacheOutcome), Error>((other, CacheOutcome::Miss))
        },
{
    let none = Map::<int, Call>::empty();
    assert(!none.contains_key(first@.call));
}

/// A value is computed once and kept: asked for again, it is given as it was, and
/// the second computation is not run; a failure is given as a failed computation
/// and is not kept.
pub proof fn law_value_is_computed_once<
    S: ?Sized,
    F: FnOnce() -> Result<Arc<S>, Error>,
    G: FnOnce() -> Result<Arc<S>, Error>,
>(
    c: &mut ReadCache<S>,
    key: &ComputeKey,
    f: F,
    first: Result<(Arc<S>, CacheOutcome), Error>,
    d: &mut ReadCache<S>,
    same: &ComputeKey,
    g: G,
    second: Result<(Arc<S>, CacheOutcome), Error>,
)
    requires
        same.0@ == key.0@,
        call_ensures(ReadCache::<S>::get_or_compute::<F>, (c, key, f), first),
        call_ensures(ReadCache::<S>::get_or_compute::<G>, (d, same, g), second),
    ensures
        first matches Ok(v) && *old(d) == *final(c) ==> second == Ok::<
            (Arc<S>, CacheOutcome),
            Error,
        >((first->Ok_0.0, CacheOutcome::Hit)),
        first matches Ok(v) ==> v.1 == CacheOutcome::Hit || v.1 == CacheOutcome::Miss,
        first matches Ok(v) ==> (v.1 == CacheOutcome::Miss ==> exists|given: Result<Arc<S>, Error>|
         #[trigger]
            call_ensures(f, (), given) && given == Ok::<Arc<S>, Error>(v.0)),
        first matches Err(e) ==> exists|given: Result<Arc<S>, Error>| #[trigger]
            call_ensures(f, (), given) && (given matches Err(reason) && (e matches Error::Compute(m)
                && m@ == reason@.message())),
        first is Err && *old(d) == *final(c) ==> !(second matches Ok(v) && v.1
            == CacheOutcome::Hit),
{
}

/// A new cache has no keys; a key counts from when it is asked for until it is
/// invalidated.
pub proof fn law_keys_are_counted<S: ?Sized>(
    fresh: ReadCache<S>,
    none: usize,
    empty: bool,
    c: &mut ReadCache<S>,
    key: &ComputeKey,
    t: Ticket,
    before: &ReadCache<S>,
    n: usize,
    after: &ReadCache<S>,
    m: usize,
    d: &mut ReadCache<S>,
    gone: &ReadCache<S>,
    p: usize,
)
    requires
        call_ensures(ReadCache::<S>::new, (), fresh),
        call_ensures(ReadCache::<S>::len, (&fresh,), none),
        call_ensures(ReadCache::<S>::is_empty, (&fresh,), empty),
        call_ensures(ReadCache::<S>::begin, (c, key), t),
        *before == *old(c),
        call_ensures(ReadCache::<S>::len, (before,), n),
        call_ensures(ReadCache::<S>::len, (after,), m),
        call_ensures(ReadCache::<S>::invalidate, (d, key), ()),
        call_ensures(ReadCache::<S>::len, (gone,), p),
    ensures
        none == 0,
        empty,
        *after == *final(c) ==> m == if old(c)@.live.contains_key(key.0@) {
            n as int
        } else {
            n + 1
        },
        *after == *final(c) && *old(d) == *final(c) && *gone == *final(d) ==> p == m - 1,
{
    if *after == *final(c) {
        if old(c)@.live.contains_key(key.0@) {
            assert(final(c)@.live =~= old(c)@.live);
        } else {
            assert(final(c)@.live.dom() =~= old(c)@.live.dom().insert(key.0@));
        }
        if *old(d) == *final(c) {
            assert(final(d)@.live.dom() =~= final(c)@.live.dom().remove(key.0@));
        }
    }
}

} // verus!
