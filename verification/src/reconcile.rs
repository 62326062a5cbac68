//! The reconciliation of one zone, as a machine that asks and is answered.
//!
//! A reconciliation starts from the zone's cached snapshot and the freshly
//! fetched logs. It then asks, one request at a time, for what it cannot
//! compute itself: the distance between two positions, the current log of a
//! vehicle that dropped out of the listing, or the most recent log that the
//! store holds for a vehicle. Each answer moves it one step on. When nothing is
//! left to ask it yields the logs worth persisting and the refreshed snapshot.
//!
//! The first part of this module is the mathematical model; the second is the
//! executable machine, whose every operation is specified by the model.

use vstd::prelude::*;
use crate::models::{clone_logs, logs_view, Log, LogView};
use crate::significance::{is_significant, significant};

verus! {

// ---------------------------------------------------------------------------
// Model
// ---------------------------------------------------------------------------

/// The index of the first log at or after `from` that belongs to the vehicle
/// `uuid`, or `logs.len()` when there is none.
pub open spec fn scan(logs: Seq<LogView>, uuid: Seq<char>, from: int) -> int
    decreases logs.len() - from,
{
    if from < 0 || from >= logs.len() {
        logs.len() as int
    } else if logs[from].vehicle_uuid == uuid {
        from
    } else {
        scan(logs, uuid, from + 1)
    }
}

/// The index of the first log of the vehicle `uuid`, if it has any.
pub open spec fn position(logs: Seq<LogView>, uuid: Seq<char>) -> Option<int> {
    let i = scan(logs, uuid, 0);
    if i < logs.len() {
        Some(i)
    } else {
        None
    }
}

/// What is left of a list once the element at `i` has been taken out by moving
/// the last element into its place.
pub open spec fn swap_removed(logs: Seq<LogView>, i: int) -> Seq<LogView> {
    logs.update(i, logs.last()).drop_last()
}

/// The state of a reconciliation in progress.
pub struct State {
    /// The snapshot that the zone had before this reconciliation.
    pub cached: Seq<LogView>,
    /// How many cached logs have been dealt with.
    pub cursor: int,
    /// The fresh logs that no cached log has consumed yet.
    pub pending: Seq<LogView>,
    /// How many of the pending logs have been checked against the store.
    pub drained: int,
    /// The logs judged worth persisting so far.
    pub new_logs: Seq<LogView>,
    /// The snapshot that will replace the cached one.
    pub new_cache: Seq<LogView>,
}

/// What a reconciliation needs to be told next.
pub enum RequestView {
    /// The distance between a cached log and the fresh log of the same vehicle.
    Measure { reference: LogView, candidate: LogView },
    /// The current log of a vehicle that is cached but absent from the fresh
    /// listing, and its distance from the cached log.
    Lookup { cached: LogView },
    /// The most recent log that the store holds for the vehicle of a fresh log
    /// that no cached log matched, and its distance from that fresh log.
    Latest { fresh: LogView },
    /// Nothing: the reconciliation is complete.
    Finished,
}

/// An answer to a request.
pub enum EventView {
    /// Answers `Measure`.
    Distance { distance_mm: int },
    /// Answers `Lookup`.
    Current { log: LogView, distance_mm: int },
    /// Answers `Latest`: the store holds no log of the vehicle.
    NeverLogged,
    /// Answers `Latest`: the most recent stored log of the vehicle.
    LastStored { log: LogView, distance_mm: int },
}

/// The state in which a reconciliation starts: nothing dealt with, every fresh
/// log pending, and the fresh logs as the beginning of the new snapshot.
pub open spec fn initial(cached: Seq<LogView>, fresh: Seq<LogView>) -> State {
    State {
        cached,
        cursor: 0,
        pending: fresh,
        drained: 0,
        new_logs: Seq::empty(),
        new_cache: fresh,
    }
}

/// The states that a reconciliation can be in: the cursors are within their
/// lists, and the store is consulted only once every cached log is dealt with.
pub open spec fn well_formed(s: State) -> bool {
    &&& 0 <= s.cursor <= s.cached.len()
    &&& 0 <= s.drained <= s.pending.len()
    &&& s.drained == 0 || s.cursor == s.cached.len()
}

/// The request that a state puts.
///
/// While cached logs remain, the next one is compared with the first pending
/// log of its vehicle, or, where there is none, its vehicle is looked up. After
/// that each remaining pending log is checked against the store, in order.
pub open spec fn request(s: State) -> RequestView {
    if 0 <= s.cursor < s.cached.len() {
        let cached = s.cached[s.cursor];
        match position(s.pending, cached.vehicle_uuid) {
            Some(i) => RequestView::Measure { reference: cached, candidate: s.pending[i] },
            None => RequestView::Lookup { cached },
        }
    } else if 0 <= s.drained < s.pending.len() {
        RequestView::Latest { fresh: s.pending[s.drained] }
    } else {
        RequestView::Finished
    }
}

/// Whether an event is an answer to a request.
pub open spec fn answers(req: RequestView, event: EventView) -> bool {
    match req {
        RequestView::Measure { .. } => event is Distance,
        RequestView::Lookup { .. } => event is Current,
        RequestView::Latest { .. } => event is NeverLogged || event is LastStored,
        RequestView::Finished => false,
    }
}

/// `logs` with `log` appended if `keep` holds, and unchanged otherwise.
pub open spec fn push_if(logs: Seq<LogView>, keep: bool, log: LogView) -> Seq<LogView> {
    if keep {
        logs.push(log)
    } else {
        logs
    }
}

/// The state after an event. An event that does not answer the state's request
/// leaves the state as it is.
///
/// - A measured pair: the fresh log is consumed, and persisted if significant
///   against the cached one.
/// - A looked-up vehicle: its current log joins the new snapshot, and is
///   persisted if significant against the cached one.
/// - A store lookup: the fresh log is persisted if the store has nothing for
///   its vehicle, or if it is significant against the stored log.
pub open spec fn step(s: State, event: EventView) -> State {
    match (request(s), event) {
        (RequestView::Measure { reference, candidate }, EventView::Distance { distance_mm }) => State {
            cursor: s.cursor + 1,
            pending: swap_removed(s.pending, scan(s.pending, reference.vehicle_uuid, 0)),
            new_logs: push_if(s.new_logs, significant(reference, candidate, distance_mm), candidate),
            ..s
        },
        (RequestView::Lookup { cached }, EventView::Current { log, distance_mm }) => State {
            cursor: s.cursor + 1,
            new_logs: push_if(s.new_logs, significant(cached, log, distance_mm), log),
            new_cache: s.new_cache.push(log),
            ..s
        },
        (RequestView::Latest { fresh }, EventView::NeverLogged) => State {
            drained: s.drained + 1,
            new_logs: s.new_logs.push(fresh),
            ..s
        },
        (RequestView::Latest { fresh }, EventView::LastStored { log, distance_mm }) => State {
            drained: s.drained + 1,
            new_logs: push_if(s.new_logs, significant(log, fresh, distance_mm), fresh),
            ..s
        },
        _ => s,
    }
}

/// The surroundings of a reconciliation, as functions: what the telemetry
/// source reports for a vehicle, what the store holds for it, and how far apart
/// two logs lie.
pub struct World {
    /// The current log of a vehicle, by its uuid.
    pub current: spec_fn(Seq<char>) -> LogView,
    /// The most recent stored log of a vehicle, by its uuid.
    pub latest: spec_fn(Seq<char>) -> Option<LogView>,
    /// The distance in millimetres between two logs.
    pub distance_mm: spec_fn(LogView, LogView) -> int,
}

/// The answer that a world gives to a request.
pub open spec fn reply(w: World, req: RequestView) -> EventView {
    match req {
        RequestView::Measure { reference, candidate } => EventView::Distance {
            distance_mm: (w.distance_mm)(reference, candidate),
        },
        RequestView::Lookup { cached } => {
            let log = (w.current)(cached.vehicle_uuid);
            EventView::Current { log, distance_mm: (w.distance_mm)(cached, log) }
        },
        RequestView::Latest { fresh } => match (w.latest)(fresh.vehicle_uuid) {
            None => EventView::NeverLogged,
            Some(log) => EventView::LastStored { log, distance_mm: (w.distance_mm)(log, fresh) },
        },
        RequestView::Finished => EventView::NeverLogged,
    }
}

/// The state in which a reconciliation ends when every request is answered by
/// the world `w`.
pub open spec fn run(s: State, w: World) -> State
    decreases s.cached.len() - s.cursor, s.pending.len() - s.drained,
{
    if request(s) is Finished {
        s
    } else {
        run(step(s, reply(w, request(s))), w)
    }
}

/// The requests that a reconciliation puts, in order, when every request is
/// answered by the world `w`.
pub open spec fn requests(s: State, w: World) -> Seq<RequestView>
    decreases s.cached.len() - s.cursor, s.pending.len() - s.drained,
{
    if request(s) is Finished {
        Seq::empty()
    } else {
        seq![request(s)] + requests(step(s, reply(w, request(s))), w)
    }
}

/// What a reconciliation yields: the logs to persist and the snapshot that
/// replaces the cached one.
pub struct OutcomeView {
    pub new_logs: Seq<LogView>,
    pub new_cache: Seq<LogView>,
}

/// The outcome of reconciling the fresh logs of a zone against its cached
/// snapshot in the world `w`.
pub open spec fn reconcile(cached: Seq<LogView>, fresh: Seq<LogView>, w: World) -> OutcomeView {
    let end = run(initial(cached, fresh), w);
    OutcomeView { new_logs: end.new_logs, new_cache: end.new_cache }
}

// ---------------------------------------------------------------------------
// Machine
// ---------------------------------------------------------------------------

/// What a [`Reconciliation`] needs to be told next.
#[derive(Debug, PartialEq, Eq)]
pub enum Request {
    /// The distance between `reference` and `candidate`. Answered by
    /// [`Event::Distance`].
    Measure { reference: Log, candidate: Log },
    /// The current log of the vehicle of `cached`, and the distance between
    /// the two. Answered by [`Event::Current`].
    Lookup { cached: Log },
    /// The most recent stored log of the vehicle of `fresh`, and the distance
    /// between the two. Answered by [`Event::NeverLogged`] or
    /// [`Event::LastStored`].
    Latest { fresh: Log },
    /// Nothing: the reconciliation is complete.
    Finished,
}

impl View for Request {
    type V = RequestView;

    open spec fn view(&self) -> RequestView {
        match self {
            Request::Measure { reference, candidate } => RequestView::Measure {
                reference: reference@,
                candidate: candidate@,
            },
            Request::Lookup { cached } => RequestView::Lookup { cached: cached@ },
            Request::Latest { fresh } => RequestView::Latest { fresh: fresh@ },
            Request::Finished => RequestView::Finished,
        }
    }
}

/// An answer to a [`Request`]. Distances are in millimetres.
#[derive(Debug, PartialEq, Eq)]
pub enum Event {
    Distance { distance_mm: u64 },
    Current { log: Log, distance_mm: u64 },
    NeverLogged,
    LastStored { log: Log, distance_mm: u64 },
}

impl View for Event {
    type V = EventView;

    open spec fn view(&self) -> EventView {
        match self {
            Event::Distance { distance_mm } => EventView::Distance {
                distance_mm: *distance_mm as int,
            },
            Event::Current { log, distance_mm } => EventView::Current {
                log: log@,
                distance_mm: *distance_mm as int,
            },
            Event::NeverLogged => EventView::NeverLogged,
            Event::LastStored { log, distance_mm } => EventView::LastStored {
                log: log@,
                distance_mm: *distance_mm as int,
            },
        }
    }
}

/// What a completed reconciliation yields.
#[derive(Debug, PartialEq, Eq)]
pub struct Outcome {
    /// The logs to persist, in the order in which they were judged.
    pub new_logs: Vec<Log>,
    /// The snapshot that replaces the zone's cached one.
    pub new_cache: Vec<Log>,
}

impl View for Outcome {
    type V = OutcomeView;

    open spec fn view(&self) -> OutcomeView {
        OutcomeView { new_logs: logs_view(self.new_logs@), new_cache: logs_view(self.new_cache@) }
    }
}

/// The snapshot to reconcile against: the cached one, or none at all for a zone
/// that was never reconciled.
pub open spec fn snapshot_view(cached: Option<Vec<Log>>) -> Seq<LogView> {
    match cached {
        Some(logs) => logs_view(logs@),
        None => Seq::empty(),
    }
}

proof fn lemma_view_push(logs: Seq<Log>, log: Log)
    ensures
        logs_view(logs.push(log)) == logs_view(logs).push(log@),
{
    assert(logs_view(logs.push(log)) =~= logs_view(logs).push(log@));
}

proof fn lemma_view_swap_remove(logs: Seq<Log>, i: int)
    requires
        0 <= i < logs.len(),
    ensures
        logs_view(logs.update(i, logs.last()).drop_last()) == swap_removed(logs_view(logs), i),
{
    assert(logs_view(logs.update(i, logs.last()).drop_last()) =~= swap_removed(
        logs_view(logs),
        i,
    ));
}

/// Finds the first log of the vehicle `uuid`.
pub fn find_vehicle(logs: &Vec<Log>, uuid: &String) -> (found: Option<usize>)
    ensures
        match found {
            Some(i) => position(logs_view(logs@), uuid@) == Some(i as int),
            None => position(logs_view(logs@), uuid@) is None,
        },
{
    let ghost views = logs_view(logs@);
    let mut i: usize = 0;
    while i < logs.len()
        invariant
            i <= logs.len(),
            views == logs_view(logs@),
            scan(views, uuid@, 0) == scan(views, uuid@, i as int),
        decreases logs.len() - i,
    {
        if logs[i].vehicle_uuid == *uuid {
            return Some(i);
        }
        i += 1;
    }
    None
}

/// A reconciliation of one zone in progress.
pub struct Reconciliation {
    cached: Vec<Log>,
    cursor: usize,
    pending: Vec<Log>,
    drained: usize,
    new_logs: Vec<Log>,
    new_cache: Vec<Log>,
}

impl View for Reconciliation {
    type V = State;

    closed spec fn view(&self) -> State {
        State {
            cached: logs_view(self.cached@),
            cursor: self.cursor as int,
            pending: logs_view(self.pending@),
            drained: self.drained as int,
            new_logs: logs_view(self.new_logs@),
            new_cache: logs_view(self.new_cache@),
        }
    }
}

impl Reconciliation {
    #[verifier::type_invariant]
    spec fn inv(self) -> bool {
        well_formed(self@)
    }

    /// Starts the reconciliation of the fresh logs of a zone against its cached
    /// snapshot. A zone without a snapshot is reconciled against an empty one.
    pub fn begin(cached: Option<Vec<Log>>, fresh: Vec<Log>) -> (started: Self)
        ensures
            started@ == initial(snapshot_view(cached), logs_view(fresh@)),
    {
        let new_cache = clone_logs(&fresh);
        let ghost snapshot = snapshot_view(cached);
        let cached = match cached {
            Some(logs) => logs,
            None => Vec::new(),
        };
        let new_logs: Vec<Log> = Vec::new();
        assert(logs_view(cached@) =~= snapshot);
        assert(logs_view(new_logs@) =~= Seq::<LogView>::empty());
        Reconciliation {
            cached,
            cursor: 0,
            pending: fresh,
            drained: 0,
            new_logs,
            new_cache,
        }
    }

    /// The request that the reconciliation puts in its present state.
    pub fn request(&self) -> (req: Request)
        ensures
            req@ == request(self@),
    {
        proof {
            use_type_invariant(self);
        }
        if self.cursor < self.cached.len() {
            let cached = self.cached[self.cursor].clone();
            match find_vehicle(&self.pending, &cached.vehicle_uuid) {
                Some(i) => Request::Measure { reference: cached, candidate: self.pending[i].clone() },
                None => Request::Lookup { cached },
            }
        } else if self.drained < self.pending.len() {
            Request::Latest { fresh: self.pending[self.drained].clone() }
        } else {
            Request::Finished
        }
    }

    /// Whether nothing is left to ask.
    pub fn is_finished(&self) -> (done: bool)
        ensures
            done == (request(self@) is Finished),
    {
        proof {
            use_type_invariant(self);
        }
        self.cursor >= self.cached.len() && self.drained >= self.pending.len()
    }

    /// Takes an answer and moves on. An event that does not answer the present
    /// request changes nothing.
    pub fn step(self, event: Event) -> (next: Self)
        ensures
            next@ == step(self@, event@),
    {
        proof {
            use_type_invariant(&self);
        }
        let Reconciliation { cached, cursor, mut pending, drained, mut new_logs, mut new_cache } =
            self;
        if cursor < cached.len() {
            match find_vehicle(&pending, &cached[cursor].vehicle_uuid) {
                Some(i) => match event {
                    Event::Distance { distance_mm } => {
                        proof {
                            lemma_view_swap_remove(pending@, i as int);
                        }
                        let candidate = pending.swap_remove(i);
                        if is_significant(&cached[cursor], &candidate, distance_mm) {
                            proof {
                                lemma_view_push(new_logs@, candidate);
                            }
                            new_logs.push(candidate);
                        }
                        Reconciliation {
                            cached,
                            cursor: cursor + 1,
                            pending,
                            drained,
                            new_logs,
                            new_cache,
                        }
                    },
                    _ => Reconciliation { cached, cursor, pending, drained, new_logs, new_cache },
                },
                None => match event {
                    Event::Current { log, distance_mm } => {
                        proof {
                            lemma_view_push(new_cache@, log);
                        }
                        if is_significant(&cached[cursor], &log, distance_mm) {
                            let copy = log.clone();
                            proof {
                                lemma_view_push(new_logs@, copy);
                            }
                            new_logs.push(copy);
                        }
                        new_cache.push(log);
                        Reconciliation {
                            cached,
                            cursor: cursor + 1,
                            pending,
                            drained,
                            new_logs,
                            new_cache,
                        }
                    },
                    _ => Reconciliation { cached, cursor, pending, drained, new_logs, new_cache },
                },
            }
        } else if drained < pending.len() {
            let fresh = pending[drained].clone();
            let keep = match event {
                Event::NeverLogged => Some(true),
                Event::LastStored { log, distance_mm } => Some(
                    is_significant(&log, &fresh, distance_mm),
                ),
                _ => None,
            };
            match keep {
                Some(keep) => {
                    if keep {
                        proof {
                            lemma_view_push(new_logs@, fresh);
                        }
                        new_logs.push(fresh);
                    }
                    Reconciliation {
                        cached,
                        cursor,
                        pending,
                        drained: drained + 1,
                        new_logs,
                        new_cache,
                    }
                },
                None => Reconciliation { cached, cursor, pending, drained, new_logs, new_cache },
            }
        } else {
            Reconciliation { cached, cursor, pending, drained, new_logs, new_cache }
        }
    }

    /// Yields the outcome of a reconciliation that has nothing left to ask, and
    /// nothing of one that has.
    pub fn finish(self) -> (outcome: Option<Outcome>)
        ensures
            outcome is Some <==> request(self@) is Finished,
            outcome matches Some(o) ==> o@ == (OutcomeView {
                new_logs: self@.new_logs,
                new_cache: self@.new_cache,
            }),
    {
        if self.is_finished() {
            Some(Outcome { new_logs: self.new_logs, new_cache: self.new_cache })
        } else {
            None
        }
    }
}

} // verus!
