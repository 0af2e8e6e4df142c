//! Per-key write serialization plus idempotency.
//!
//! A write passes two gates. If its request id was processed before, it gets
//! the recorded row and nothing runs. If another write holds its lock key, it
//! fails at once with a conflict. Otherwise it runs under the lock, its row is
//! recorded under the request id, and the lock is released.
//!
//! Running the write is left to the caller: [`WriteCoordinator::begin`] admits
//! it, and [`WriteCoordinator::finish`] or [`WriteCoordinator::abort`] ends it.

use crate::error::{Error, ErrorView};
use crate::keys::LockKey;
use crate::name_table::NameTable;
use crate::outside::utc_now;
use crate::row::{ColumnView, Row};
use vstd::prelude::*;
use vstd::string::*;

verus! {

/// The row of a write that succeeded.
struct IdempotentRecord {
    row: Row,
    /// When the row was recorded. Records are kept for ever as yet.
    #[allow(dead_code)]
    inserted_at: chrono::NaiveDateTime,
}

/// Which writes are running, and which have succeeded.
pub struct WriteCoordinator {
    held: NameTable<()>,
    records: NameTable<IdempotentRecord>,
}

/// The outcome of a write.
pub struct WriteResult {
    pub row: Row,
    /// The row is that of an earlier write with the same request id.
    pub was_idempotent_noop: bool,
}

/// A write that was admitted and holds its lock key. It is ended by
/// [`WriteCoordinator::finish`] or [`WriteCoordinator::abort`].
pub struct WriteTicket {
    lock_key: String,
    request_id: Option<String>,
}

/// What is to be done with a write.
pub enum Admission {
    /// It was done before, with this row.
    Replay(Row),
    /// It cannot be done now.
    Refused(Error),
    /// It has to be run.
    Run(WriteTicket),
}

/// The lock keys that are held, and the rows by request id.
pub struct CoordinatorView {
    pub held: Set<Seq<char>>,
    pub records: Map<Seq<char>, Seq<ColumnView>>,
}

/// The lock key and the request id of an admitted write.
pub struct WriteTicketView {
    pub lock_key: Seq<char>,
    pub request_id: Option<Seq<char>>,
}

/// A text that may be missing.
pub open spec fn opt_str(s: Option<&str>) -> Option<Seq<char>> {
    match s {
        Some(s) => Some(s@),
        None => None,
    }
}

/// A text that may be missing.
pub open spec fn opt_string(s: Option<String>) -> Option<Seq<char>> {
    match s {
        Some(s) => Some(s@),
        None => None,
    }
}

impl View for WriteTicket {
    type V = WriteTicketView;

    closed spec fn view(&self) -> WriteTicketView {
        WriteTicketView {
            lock_key: self.lock_key@,
            request_id: opt_string(self.request_id),
        }
    }
}

impl View for WriteCoordinator {
    type V = CoordinatorView;

    closed spec fn view(&self) -> CoordinatorView {
        CoordinatorView {
            held: self.held@.dom(),
            records: self.records@.map_values(|r: IdempotentRecord| r.row@),
        }
    }
}

impl CoordinatorView {
    /// The row that is recorded under the request id, if there is an id.
    pub open spec fn recorded(self, request_id: Option<Seq<char>>) -> Option<Seq<ColumnView>> {
        match request_id {
            Some(id) => if self.records.contains_key(id) {
                Some(self.records[id])
            } else {
                None
            },
            None => None,
        }
    }

    /// A write that was not done before may run: nobody holds its lock key.
    pub open spec fn admits(self, w: WriteTicketView) -> bool {
        self.recorded(w.request_id) is None && !self.held.contains(w.lock_key)
    }

    /// After the write was admitted.
    pub open spec fn admitted(self, w: WriteTicketView) -> CoordinatorView {
        CoordinatorView { held: self.held.insert(w.lock_key), ..self }
    }

    /// After the write ended, with a row or without one.
    pub open spec fn ended(self, w: WriteTicketView, row: Option<Seq<ColumnView>>) -> CoordinatorView {
        CoordinatorView {
            held: self.held.remove(w.lock_key),
            records: match (w.request_id, row) {
                (Some(id), Some(row)) => self.records.insert(id, row),
                _ => self.records,
            },
        }
    }
}

/// The row of a write that gave one.
pub open spec fn given_row(result: Result<Row, Error>) -> Option<Seq<ColumnView>> {
    match result {
        Ok(row) => Some(row@),
        Err(_) => None,
    }
}

/// What an ended write is answered: its own row, or its own error.
pub open spec fn answers(
    result: Result<WriteResult, Error>,
    given: Result<Row, Error>,
) -> bool {
    match given {
        Ok(row) => result matches Ok(r) && r.row@ == row@ && !r.was_idempotent_noop,
        Err(e) => result == Err::<WriteResult, Error>(e),
    }
}

impl WriteCoordinator {
    /// The tables are well formed.
    pub closed spec fn wf(&self) -> bool {
        self.held.wf() && self.records.wf()
    }

    /// No write is running and none is recorded.
    pub fn new() -> (c: Self)
        ensures
            c.wf(),
            c@.held == Set::<Seq<char>>::empty(),
            c@.records == Map::<Seq<char>, Seq<ColumnView>>::empty(),
    {
        let c = WriteCoordinator { held: NameTable::new(), records: NameTable::new() };
        assert(c@.held =~= Set::<Seq<char>>::empty());
        assert(c@.records =~= Map::<Seq<char>, Seq<ColumnView>>::empty());
        c
    }

    /// Decides what is to be done with a write, and takes its lock key if it
    /// has to be run.
    pub fn begin(&mut self, lock_key: &LockKey, request_id: Option<&str>) -> (admission: Admission)
        requires
            old(self).wf(),
        ensures
            final(self).wf(),
            match old(self)@.recorded(opt_str(request_id)) {
                Some(row) => {
                    &&& admission matches Admission::Replay(r) && r@ == row
                    &&& final(self)@ == old(self)@
                },
                None => if old(self)@.held.contains(lock_key@) {
                    &&& admission matches Admission::Refused(e) && e@ == ErrorView::WriteConflict(
                        lock_key@,
                    )
                    &&& final(self)@ == old(self)@
                } else {
                    &&& admission matches Admission::Run(t) && t@ == (WriteTicketView {
                        lock_key: lock_key@,
                        request_id: opt_str(request_id),
                    }) && old(self)@.admits(t@) && final(self)@ == old(self)@.admitted(t@)
                },
            },
    {
        if let Some(id) = request_id {
            if let Some(record) = self.records.get(id) {
                return Admission::Replay(record.row.clone());
            }
        }
        if self.held.get(lock_key.0.as_str()).is_some() {
            return Admission::Refused(Error::WriteConflict(lock_key.display()));
        }
        self.held.insert(lock_key.0.clone(), ());
        let request_id = match request_id {
            Some(id) => Some(id.to_string()),
            None => None,
        };
        let t = WriteTicket { lock_key: lock_key.0.clone(), request_id };
        assert(self@.held =~= old(self)@.admitted(t@).held);
        Admission::Run(t)
    }

    /// Ends an admitted write with what it gave. A row is recorded under the
    /// request id; a failure leaves no record.
    pub fn finish(&mut self, t: WriteTicket, given: Result<Row, Error>) -> (result: Result<
        WriteResult,
        Error,
    >)
        requires
            old(self).wf(),
            old(self)@.held.contains(t@.lock_key),
        ensures
            final(self).wf(),
            final(self)@ == old(self)@.ended(t@, given_row(given)),
            answers(result, given),
    {
        let ghost before = self@;
        let ghost ticket = t@;
        let WriteTicket { lock_key, request_id } = t;
        let result = match given {
            Err(e) => Err(e),
            Ok(row) => {
                if let Some(id) = request_id {
                    let record = IdempotentRecord { row: row.clone(), inserted_at: utc_now() };
                    self.records.insert(id, record);
                }
                Ok(WriteResult { row, was_idempotent_noop: false })
            },
        };
        self.held.remove(lock_key.as_str());
        assert(self@.held =~= before.ended(ticket, given_row(given)).held);
        assert(self@.records =~= before.ended(ticket, given_row(given)).records);
        result
    }

    /// Ends an admitted write that never gave anything, as when its caller
    /// went away.
    pub fn abort(&mut self, t: WriteTicket)
        requires
            old(self).wf(),
            old(self)@.held.contains(t@.lock_key),
        ensures
            final(self).wf(),
            final(self)@ == old(self)@.ended(t@, None),
    {
        let ghost before = self@;
        self.held.remove(t.lock_key.as_str());
        assert(self@.held =~= before.ended(t@, None).held);
        assert(self@.records =~= before.ended(t@, None).records);
    }

    /// Runs `f` under the lock key with idempotency protection. `f` does not
    /// run where the request id has a recorded row, nor where the lock key is
    /// held: there it need not even be fit to run.
    pub fn execute<F: FnOnce() -> Result<Row, Error>>(
        &mut self,
        lock_key: &LockKey,
        request_id: Option<&str>,
        f: F,
    ) -> (result: Result<WriteResult, Error>)
        requires
            old(self).wf(),
            old(self)@.recorded(opt_str(request_id)) is None && !old(self)@.held.contains(
                lock_key@,
            ) ==> call_requires(f, ()),
        ensures
            final(self).wf(),
            match old(self)@.recorded(opt_str(request_id)) {
                Some(row) => {
                    &&& result matches Ok(r) && r.row@ == row && r.was_idempotent_noop
                    &&& final(self)@ == old(self)@
                },
                None => if old(self)@.held.contains(lock_key@) {
                    &&& result matches Err(e) && e@ == ErrorView::WriteConflict(lock_key@)
                    &&& final(self)@ == old(self)@
                } else {
                    exists|given: Result<Row, Error>| #[trigger]
                        call_ensures(f, (), given) && answers(result, given) && final(self)@.held
                            == old(self)@.held && final(self)@.records == match (
                            opt_str(request_id),
                            given,
                        ) {
                            (Some(id), Ok(row)) => old(self)@.records.insert(id, row@),
                            _ => old(self)@.records,
                        }
                },
            },
    {
        let ghost before = self@;
        match self.begin(lock_key, request_id) {
            Admission::Replay(row) => Ok(WriteResult { row, was_idempotent_noop: true }),
            Admission::Refused(e) => Err(e),
            Admission::Run(t) => {
                let given = f();
                assert(call_ensures(f, (), given));
                let result = self.finish(t, given);
                assert(self@.held =~= before.held);
                result
            },
        }
    }

    /// The number of recorded writes.
    pub fn idempotency_len(&self) -> (n: usize)
        requires
            self.wf(),
        ensures
            self@.records.dom().finite(),
            n == self@.records.dom().len(),
    {
        assert(self@.records.dom() =~= self.records@.dom());
        self.records.len()
    }
}

impl Default for WriteCoordinator {
    fn default() -> (c: Self)
        ensures
            c.wf(),
            c@.held == Set::<Seq<char>>::empty(),
            c@.records == Map::<Seq<char>, Seq<ColumnView>>::empty(),
    {
        WriteCoordinator::new()
    }
}

/// Something that changes the coordinator: a write is admitted, or an admitted
/// write ends, with a row or without one.
pub enum WriteEvent {
    Admit(WriteTicketView),
    End(WriteTicketView, Option<Seq<ColumnView>>),
}

impl CoordinatorView {
    /// The event can happen in this state.
    pub open spec fn allows(self, event: WriteEvent) -> bool {
        match event {
            WriteEvent::Admit(w) => self.admits(w),
            WriteEvent::End(w, _) => self.held.contains(w.lock_key),
        }
    }

    /// The state after the event.
    pub open spec fn after(self, event: WriteEvent) -> CoordinatorView {
        match event {
            WriteEvent::Admit(w) => self.admitted(w),
            WriteEvent::End(w, row) => self.ended(w, row),
        }
    }
}

/// The states that the coordinator goes through, event by event.
pub open spec fn write_history(states: Seq<CoordinatorView>, events: Seq<WriteEvent>) -> bool {
    &&& states.len() == events.len() + 1
    &&& forall|i: int| #![trigger events[i]]
        0 <= i < events.len() ==> states[i].allows(events[i]) && states[i + 1] == states[i].after(
            events[i],
        )
}

/// The number of writes with the lock key that were admitted, less the number
/// of those that ended.
pub open spec fn running(events: Seq<WriteEvent>, lock_key: Seq<char>) -> int
    decreases events.len(),
{
    if events.len() == 0 {
        0
    } else {
        running(events.drop_last(), lock_key) + match events.last() {
            WriteEvent::Admit(w) => if w.lock_key == lock_key {
                1int
            } else {
                0
            },
            WriteEvent::End(w, _) => if w.lock_key == lock_key {
                -1
            } else {
                0
            },
        }
    }
}

proof fn lemma_running(
    states: Seq<CoordinatorView>,
    events: Seq<WriteEvent>,
    lock_key: Seq<char>,
    n: int,
)
    requires
        write_history(states, events),
        0 <= n <= events.len(),
        !states[0].held.contains(lock_key),
    ensures
        running(events.take(n), lock_key) == if states[n].held.contains(lock_key) {
            1int
        } else {
            0
        },
    decreases n,
{
    if n > 0 {
        lemma_running(states, events, lock_key, n - 1);
        assert(events.take(n).drop_last() =~= events.take(n - 1));
        let event = events[n - 1];
        assert(events.take(n).last() == event);
        assert(states[n - 1].allows(event));
        assert(states[n] == states[n - 1].after(event));
    }
}

/// Writes with the same lock key never run at the same time: however the
/// writes come and go, one is running where the key is held, and none where it
/// is not.
pub proof fn law_one_writer_per_lock_key(
    states: Seq<CoordinatorView>,
    events: Seq<WriteEvent>,
    lock_key: Seq<char>,
)
    requires
        write_history(states, events),
        !states[0].held.contains(lock_key),
    ensures
        running(events, lock_key) == if states.last().held.contains(lock_key) {
            1int
        } else {
            0
        },
{
    assert(events.take(events.len() as int) =~= events);
    lemma_running(states, events, lock_key, events.len() as int);
}

/// A write that succeeded is not run again: once a row is recorded under a
/// request id, a row stays recorded under it, and no write with that id is
/// admitted any more.
pub proof fn law_recorded_write_is_not_run_again(
    states: Seq<CoordinatorView>,
    events: Seq<WriteEvent>,
    id: Seq<char>,
)
    requires
        write_history(states, events),
        states[0].records.contains_key(id),
    ensures
        states.last().recorded(Some(id)) is Some,
        forall|i: int| #![trigger events[i]]
            0 <= i < events.len() ==> !(events[i] matches WriteEvent::Admit(w) && w.request_id
                == Some(id)),
{
    assert forall|n: int| 0 <= n <= events.len() implies #[trigger] states[n].records.contains_key(
        id,
    ) by {
        lemma_record_stays(states, events, id, n);
    }
    assert forall|i: int| #![trigger events[i]] 0 <= i < events.len() implies !(events[i] matches WriteEvent::Admit(
        w,
    ) && w.request_id == Some(id)) by {
        assert(states[i].allows(events[i]));
        assert(states[i].records.contains_key(id));
    }
}

proof fn lemma_record_stays(
    states: Seq<CoordinatorView>,
    events: Seq<WriteEvent>,
    id: Seq<char>,
    n: int,
)
    requires
        write_history(states, events),
        states[0].records.contains_key(id),
        0 <= n <= events.len(),
    ensures
        states[n].records.contains_key(id),
    decreases n,
{
    if n > 0 {
        lemma_record_stays(states, events, id, n - 1);
        let event = events[n - 1];
        assert(states[n] == states[n - 1].after(event));
    }
}

/// A write with the request id ended with the row before step `n`.
pub open spec fn wrote(
    events: Seq<WriteEvent>,
    n: int,
    id: Seq<char>,
    row: Seq<ColumnView>,
) -> bool {
    exists|i: int|
        0 <= i < n && (#[trigger] events[i] matches WriteEvent::End(w, Some(r)) && w.request_id
            == Some(id) && r == row)
}

/// Every recorded row is that of a write: where the coordinator began with no
/// records, the row under a request id was given by a write with that id.
pub proof fn law_recorded_rows_were_written(
    states: Seq<CoordinatorView>,
    events: Seq<WriteEvent>,
    n: int,
    id: Seq<char>,
)
    requires
        write_history(states, events),
        states[0].records == Map::<Seq<char>, Seq<ColumnView>>::empty(),
        0 <= n < states.len(),
        states[n].records.contains_key(id),
    ensures
        wrote(events, n, id, states[n].records[id]),
    decreases n,
{
    if n > 0 {
        let event = events[n - 1];
        let row = states[n].records[id];
        assert(states[n] == states[n - 1].after(event));
        if event matches WriteEvent::End(w, Some(_)) && w.request_id == Some(id) {
            assert(events[n - 1] == event);
            assert(wrote(events, n, id, row));
        } else {
            law_recorded_rows_were_written(states, events, n - 1, id);
            assert(wrote(events, n - 1, id, row));
        }
    }
}

/// A row stays as it was recorded while no other write with the same request
/// id is still running.
pub proof fn law_recorded_row_stands(
    state: CoordinatorView,
    event: WriteEvent,
    id: Seq<char>,
)
    requires
        state.records.contains_key(id),
        !(event matches WriteEvent::End(w, Some(_)) && w.request_id == Some(id)),
    ensures
        state.after(event).recorded(Some(id)) == state.recorded(Some(id)),
{
}

/// A retry gets the row of the first attempt, whatever its lock key.
pub proof fn law_retry_gets_recorded_row(
    state: CoordinatorView,
    first: WriteTicketView,
    row: Seq<ColumnView>,
    retry: WriteTicketView,
)
    requires
        state.held.contains(first.lock_key),
        first.request_id is Some,
        retry.request_id == first.request_id,
    ensures
        state.ended(first, Some(row)).recorded(retry.request_id) == Some(row),
        !state.ended(first, Some(row)).admits(retry),
{
}

/// Writes with different lock keys do not conflict: whether a write is
/// admitted does not depend on another lock key being held.
pub proof fn law_other_lock_keys_do_not_conflict(
    state: CoordinatorView,
    running: WriteTicketView,
    other: WriteTicketView,
)
    requires
        state.admits(running),
        running.lock_key != other.lock_key,
    ensures
        state.admitted(running).admits(other) == state.admits(other),
{
}

/// A write that fails leaves no trace: everything is as before it was
/// admitted, and a retry is admitted.
pub proof fn law_failure_leaves_no_trace(state: CoordinatorView, w: WriteTicketView)
    requires
        state.admits(w),
    ensures
        state.admitted(w).ended(w, None) == state,
        state.admitted(w).ended(w, None).admits(w),
{
    assert(state.admitted(w).ended(w, None).held =~= state.held);
}

/// A write is run once: after it was admitted and gave its row, every write with
/// its request id, whatever the lock key, gets that row and is not run.
pub proof fn law_write_is_run_once(
    c: &mut WriteCoordinator,
    lock_key: &LockKey,
    id: &str,
    admission: Admission,
    t: WriteTicket,
    d: &mut WriteCoordinator,
    row: Row,
    result: Result<WriteResult, Error>,
    e: &mut WriteCoordinator,
    other_key: &LockKey,
    again: &str,
    retry: Admission,
)
    requires
        call_ensures(WriteCoordinator::begin, (c, lock_key, Some(id)), admission),
        admission == Admission::Run(t),
        call_ensures(WriteCoordinator::finish, (d, t, Ok(row)), result),
        call_ensures(WriteCoordinator::begin, (e, other_key, Some(again)), retry),
        again@ == id@,
    ensures
        result matches Ok(r) && r.row@ == row@ && !r.was_idempotent_noop,
        *old(e) == *final(d) ==> (retry matches Admission::Replay(r) && r@ == row@) && final(e)@
            == old(e)@,
{
}

/// While a write holds its lock key, no other write with that key is run: it is
/// refused with a conflict that names the key, unless it was done before.
pub proof fn law_held_lock_key_refuses(
    c: &mut WriteCoordinator,
    lock_key: &LockKey,
    id: Option<&str>,
    admission: Admission,
    d: &mut WriteCoordinator,
    same_key: &LockKey,
    other_id: Option<&str>,
    second: Admission,
)
    requires
        call_ensures(WriteCoordinator::begin, (c, lock_key, id), admission),
        admission is Run,
        call_ensures(WriteCoordinator::begin, (d, same_key, other_id), second),
        same_key.0@ == lock_key.0@,
    ensures
        *old(d) == *final(c) ==> {
            &&& second is Refused || second is Replay
            &&& second matches Admission::Refused(e) ==> (e matches Error::WriteConflict(k) && k@
                == lock_key.0@)
            &&& other_id is None ==> second is Refused
            &&& other_id matches Some(o) ==> (id matches Some(i) && o@ == i@ ==> second is Refused)
            &&& final(d)@ == old(d)@
        },
{
}

/// A write that is running does not stand in the way of one with another lock key.
pub proof fn law_other_lock_key_runs(
    c: &mut WriteCoordinator,
    lock_key: &LockKey,
    id: Option<&str>,
    admission: Admission,
    d: &mut WriteCoordinator,
    other_key: &LockKey,
    second: Admission,
    e: &mut WriteCoordinator,
    alone: Admission,
)
    requires
        call_ensures(WriteCoordinator::begin, (c, lock_key, id), admission),
        admission is Run,
        call_ensures(WriteCoordinator::begin, (d, other_key, None), second),
        call_ensures(WriteCoordinator::begin, (e, other_key, None), alone),
        other_key.0@ != lock_key.0@,
    ensures
        *old(d) == *final(c) && *old(e) == *old(c) ==> (second is Run <==> alone is Run),
{
}

/// A write that failed or was given up leaves no trace: its error is what it is
/// answered, its lock key is free, and a retry is run.
pub proof fn law_failed_write_can_be_retried(
    c: &mut WriteCoordinator,
    lock_key: &LockKey,
    id: Option<&str>,
    admission: Admission,
    t: WriteTicket,
    d: &mut WriteCoordinator,
    e: Error,
    result: Result<WriteResult, Error>,
    after: &mut WriteCoordinator,
    retry: Admission,
    f: &mut WriteCoordinator,
    abandoned: &mut WriteCoordinator,
    next: Admission,
)
    requires
        call_ensures(WriteCoordinator::begin, (c, lock_key, id), admission),
        admission == Admission::Run(t),
        call_ensures(WriteCoordinator::finish, (d, t, Err(e)), result),
        call_ensures(WriteCoordinator::begin, (after, lock_key, id), retry),
        call_ensures(WriteCoordinator::abort, (f, t), ()),
        call_ensures(WriteCoordinator::begin, (abandoned, lock_key, id), next),
    ensures
        result == Err::<WriteResult, Error>(e),
        *old(d) == *final(c) && *old(after) == *final(d) ==> retry is Run,
        *old(f) == *final(c) && *old(abandoned) == *final(f) ==> next is Run,
{
}

/// A write that succeeded frees its lock key.
pub proof fn law_finished_write_frees_its_lock_key(
    c: &mut WriteCoordinator,
    lock_key: &LockKey,
    id: Option<&str>,
    admission: Admission,
    t: WriteTicket,
    d: &mut WriteCoordinator,
    row: Row,
    result: Result<WriteResult, Error>,
    e: &mut WriteCoordinator,
    next: Admission,
)
    requires
        call_ensures(WriteCoordinator::begin, (c, lock_key, id), admission),
        admission == Admission::Run(t),
        call_ensures(WriteCoordinator::finish, (d, t, Ok(row)), result),
        call_ensures(WriteCoordinator::begin, (e, lock_key, None), next),
    ensures
        *old(e) == *final(d) ==> next is Run,
{
}

/// A write without a request id is never taken for one that was done before.
pub proof fn law_write_without_id_is_not_replayed(
    c: &mut WriteCoordinator,
    lock_key: &LockKey,
    admission: Admission,
)
    requires
        call_ensures(WriteCoordinator::begin, (c, lock_key, None), admission),
    ensures
        !(admission is Replay),
{
}

/// Executing a write under a request id gives its row, and executing another
/// under the same id gives that row again, marked as done before, whatever the
/// second would have given.
pub proof fn law_executed_write_is_not_executed_again<
    F: FnOnce() -> Result<Row, Error>,
    G: FnOnce() -> Result<Row, Error>,
>(
    c: &mut WriteCoordinator,
    lock_key: &LockKey,
    id: &str,
    f: F,
    first: Result<WriteResult, Error>,
    d: &mut WriteCoordinator,
    other_key: &LockKey,
    again: &str,
    g: G,
    second: Result<WriteResult, Error>,
)
    requires
        call_ensures(WriteCoordinator::execute::<F>, (c, lock_key, Some(id), f), first),
        call_ensures(WriteCoordinator::execute::<G>, (d, other_key, Some(again), g), second),
        again@ == id@,
    ensures
        first matches Ok(r) ==> (!r.was_idempotent_noop ==> exists|given: Result<Row, Error>| #[trigger]
            call_ensures(f, (), given) && (given matches Ok(row) && row@ == r.row@)),
        first is Ok && *old(d) == *final(c) ==> (second matches Ok(s) && s.row@
            == first->Ok_0.row@ && s.was_idempotent_noop) && final(d)@ == old(d)@,
{
}

/// Executing a write either replays it, refuses it or gives exactly what it gave.
pub proof fn law_executed_write_gives_what_it_gave<F: FnOnce() -> Result<Row, Error>>(
    c: &mut WriteCoordinator,
    lock_key: &LockKey,
    id: Option<&str>,
    f: F,
    result: Result<WriteResult, Error>,
    d: &mut WriteCoordinator,
    admission: Admission,
)
    requires
        call_ensures(WriteCoordinator::execute::<F>, (c, lock_key, id, f), result),
        call_ensures(WriteCoordinator::begin, (d, lock_key, id), admission),
    ensures
        *old(d) == *old(c) ==> match admission {
            Admission::Replay(row) => result matches Ok(r) && r.row@ == row@
                && r.was_idempotent_noop,
            Admission::Refused(_) => result matches Err(Error::WriteConflict(k)) && k@
                == lock_key.0@,
            Admission::Run(_) => exists|given: Result<Row, Error>| #[trigger]
                call_ensures(f, (), given) && match given {
                    Ok(row) => result matches Ok(r) && r.row@ == row@ && !r.was_idempotent_noop,
                    Err(e) => result == Err::<WriteResult, Error>(e),
                } && final(c)@.held == old(c)@.held,
        },
{
}

/// The number of recorded writes begins with none, and grows by one with every
/// write that succeeds under a new request id.
pub proof fn law_recorded_writes_are_counted(
    fresh: WriteCoordinator,
    none: usize,
    c: &mut WriteCoordinator,
    t: WriteTicket,
    row: Row,
    result: Result<WriteResult, Error>,
    before: &WriteCoordinator,
    n: usize,
    after: &WriteCoordinator,
    m: usize,
)
    requires
        call_ensures(WriteCoordinator::new, (), fresh),
        call_ensures(WriteCoordinator::idempotency_len, (&fresh,), none),
        call_ensures(WriteCoordinator::finish, (c, t, Ok(row)), result),
        *before == *old(c),
        call_ensures(WriteCoordinator::idempotency_len, (before,), n),
        call_ensures(WriteCoordinator::idempotency_len, (after,), m),
    ensures
        none == 0,
        *after == *final(c) ==> m == match t@.request_id {
            Some(id) => if old(c)@.records.contains_key(id) {
                n as int
            } else {
                n + 1
            },
            None => n as int,
        },
{
    if let Some(id) = t@.request_id {
        assert(old(c)@.records.insert(id, row@).dom() =~= old(c)@.records.dom().insert(id));
        if old(c)@.records.contains_key(id) {
            assert(old(c)@.records.dom().insert(id) =~= old(c)@.records.dom());
        }
    }
}

} // verus!
