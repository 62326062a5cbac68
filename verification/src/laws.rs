//! What holds of every reconciliation: laws of the model in
//! [`crate::reconcile`], each proved for all inputs.

use vstd::prelude::*;
use crate::models::LogView;
use crate::reconcile::{
    initial, position, reconcile, reply, request, requests, run, scan, step, swap_removed,
    well_formed, answers, EventView, OutcomeView, RequestView, State, World,
};

verus! {

/// Whether some log in `logs` belongs to the vehicle `uuid`.
pub open spec fn has_vehicle(logs: Seq<LogView>, uuid: Seq<char>) -> bool {
    exists|i: int| 0 <= i < logs.len() && (#[trigger] logs[i]).vehicle_uuid == uuid
}

/// Whether no two logs in `logs` belong to the same vehicle.
pub open spec fn distinct_vehicles(logs: Seq<LogView>) -> bool {
    forall|i: int, j: int|
        0 <= i < j < logs.len() ==> (#[trigger] logs[i]).vehicle_uuid != (#[trigger] logs[j]).vehicle_uuid
}

/// A scan stops at the first log of the vehicle at or after its start, and at
/// the end of the list when there is none.
pub proof fn lemma_scan(logs: Seq<LogView>, uuid: Seq<char>, from: int)
    requires
        0 <= from <= logs.len(),
    ensures
        from <= scan(logs, uuid, from) <= logs.len(),
        scan(logs, uuid, from) < logs.len() ==> logs[scan(logs, uuid, from)].vehicle_uuid == uuid,
        forall|k: int| from <= k < scan(logs, uuid, from) ==> (#[trigger] logs[k]).vehicle_uuid != uuid,
    decreases logs.len() - from,
{
    if from < logs.len() && logs[from].vehicle_uuid != uuid {
        lemma_scan(logs, uuid, from + 1);
    }
}

/// A vehicle has a position in a list exactly when the list holds a log of it,
/// and the position is that of its first log.
pub proof fn lemma_position(logs: Seq<LogView>, uuid: Seq<char>)
    ensures
        position(logs, uuid) is Some <==> has_vehicle(logs, uuid),
        position(logs, uuid) matches Some(i) ==> {
            &&& 0 <= i < logs.len()
            &&& logs[i].vehicle_uuid == uuid
            &&& forall|k: int| 0 <= k < i ==> (#[trigger] logs[k]).vehicle_uuid != uuid
        },
{
    lemma_scan(logs, uuid, 0);
}

/// Every request but `Finished` is answered by the reply of any world.
pub proof fn lemma_reply_answers(w: World, req: RequestView)
    requires
        !(req is Finished),
    ensures
        answers(req, reply(w, req)),
{
}

/// An event that does not answer the request of a state leaves the state as it
/// is.
pub proof fn lemma_unanswered_changes_nothing(s: State, event: EventView)
    requires
        !answers(request(s), event),
    ensures
        step(s, event) == s,
{
}

/// A step keeps a state well formed.
pub proof fn lemma_step_keeps_well_formed(s: State, event: EventView)
    requires
        well_formed(s),
    ensures
        well_formed(step(s, event)),
{
    if 0 <= s.cursor < s.cached.len() {
        lemma_position(s.pending, s.cached[s.cursor].vehicle_uuid);
    }
}

/// Feeding a reconciliation the reply of the world to its present request
/// leads to the same end as the whole run does.
pub proof fn lemma_run_unfolds(s: State, w: World, event: EventView)
    requires
        !(request(s) is Finished),
        event == reply(w, request(s)),
    ensures
        run(s, w) == run(step(s, event), w),
        requests(s, w) == seq![request(s)] + requests(step(s, event), w),
{
}

/// A run ends in a state that has nothing left to ask, and a well-formed
/// start leads to a well-formed end.
pub proof fn lemma_run_finishes(s: State, w: World)
    ensures
        request(run(s, w)) is Finished,
        well_formed(s) ==> well_formed(run(s, w)),
        run(s, w).cached == s.cached,
    decreases s.cached.len() - s.cursor, s.pending.len() - s.drained,
{
    if !(request(s) is Finished) {
        let next = step(s, reply(w, request(s)));
        if well_formed(s) {
            lemma_step_keeps_well_formed(s, reply(w, request(s)));
        }
        lemma_run_finishes(next, w);
    }
}

/// Whatever the new snapshot holds at some point of a run, it still holds, at
/// the same place, when the run ends.
pub proof fn lemma_snapshot_grows(s: State, w: World)
    ensures
        s.new_cache.len() <= run(s, w).new_cache.len(),
        run(s, w).new_cache.take(s.new_cache.len() as int) == s.new_cache,
    decreases s.cached.len() - s.cursor, s.pending.len() - s.drained,
{
    if request(s) is Finished {
        assert(s.new_cache.take(s.new_cache.len() as int) =~= s.new_cache);
    } else {
        let next = step(s, reply(w, request(s)));
        lemma_snapshot_grows(next, w);
        let end = run(s, w).new_cache;
        assert(end.take(s.new_cache.len() as int) =~= end.take(next.new_cache.len() as int).take(
            s.new_cache.len() as int,
        ));
        assert(next.new_cache.take(s.new_cache.len() as int) =~= s.new_cache);
    }
}

/// The refreshed snapshot begins with the fresh logs, all of them and in their
/// order, whether or not any of them was persisted.
pub proof fn lemma_snapshot_begins_with_fresh_logs(
    cached: Seq<LogView>,
    fresh: Seq<LogView>,
    w: World,
)
    ensures
        fresh.len() <= reconcile(cached, fresh, w).new_cache.len(),
        reconcile(cached, fresh, w).new_cache.take(fresh.len() as int) == fresh,
{
    lemma_snapshot_grows(initial(cached, fresh), w);
}

proof fn lemma_drain(s: State, w: World)
    requires
        s.cursor >= s.cached.len(),
        0 <= s.drained <= s.pending.len(),
        forall|i: int|
            0 <= i < s.pending.len() ==> (w.latest)((#[trigger] s.pending[i]).vehicle_uuid) is None,
    ensures
        run(s, w).new_logs == s.new_logs + s.pending.subrange(s.drained, s.pending.len() as int),
        run(s, w).new_cache == s.new_cache,
    decreases s.pending.len() - s.drained,
{
    if s.drained < s.pending.len() {
        let fresh = s.pending[s.drained];
        assert((w.latest)(fresh.vehicle_uuid) is None);
        let next = step(s, reply(w, request(s)));
        lemma_drain(next, w);
        assert(next.new_logs + next.pending.subrange(next.drained, next.pending.len() as int)
            =~= s.new_logs + s.pending.subrange(s.drained, s.pending.len() as int));
    } else {
        assert(s.new_logs + s.pending.subrange(s.drained, s.pending.len() as int) =~= s.new_logs);
    }
}

/// Cold start: a zone without a cached snapshot, of whose vehicles the store
/// holds no log, has every fresh log persisted, in order, and the fresh logs as
/// its new snapshot.
pub proof fn lemma_cold_start(fresh: Seq<LogView>, w: World)
    requires
        forall|i: int|
            0 <= i < fresh.len() ==> (w.latest)((#[trigger] fresh[i]).vehicle_uuid) is None,
    ensures
        reconcile(Seq::empty(), fresh, w) == (OutcomeView { new_logs: fresh, new_cache: fresh }),
{
    let start = initial(Seq::empty(), fresh);
    lemma_drain(start, w);
    assert(start.new_logs + fresh.subrange(0, fresh.len() as int) =~= fresh);
}

/// Taking a log out of a list brings no vehicle into it.
pub proof fn lemma_swap_removed_brings_no_vehicle(logs: Seq<LogView>, i: int, uuid: Seq<char>)
    requires
        0 <= i < logs.len(),
        !has_vehicle(logs, uuid),
    ensures
        !has_vehicle(swap_removed(logs, i), uuid),
{
    let rest = swap_removed(logs, i);
    if has_vehicle(rest, uuid) {
        let m = choose|m: int| 0 <= m < rest.len() && (#[trigger] rest[m]).vehicle_uuid == uuid;
        if m == i {
            assert(logs[logs.len() - 1].vehicle_uuid == uuid);
        } else {
            assert(logs[m].vehicle_uuid == uuid);
        }
    }
}

proof fn lemma_hidden(s: State, w: World, k: int)
    requires
        well_formed(s),
        s.cursor <= k < s.cached.len(),
        !has_vehicle(s.pending, s.cached[k].vehicle_uuid),
    ensures
        requests(s, w).contains(RequestView::Lookup { cached: s.cached[k] }),
        run(s, w).new_cache.contains((w.current)(s.cached[k].vehicle_uuid)),
    decreases k - s.cursor,
{
    let hidden = s.cached[k];
    let lookup = RequestView::Lookup { cached: hidden };
    let next = step(s, reply(w, request(s)));
    let rest = requests(next, w);
    lemma_position(s.pending, s.cached[s.cursor].vehicle_uuid);
    assert(requests(s, w) == seq![request(s)] + rest);
    if s.cursor == k {
        assert(requests(s, w)[0] == lookup);
        lemma_snapshot_grows(next, w);
        let end = run(next, w).new_cache;
        let last = next.new_cache.len() - 1;
        assert(end.take(next.new_cache.len() as int)[last] == next.new_cache[last]);
        assert(end[last] == (w.current)(hidden.vehicle_uuid));
    } else {
        lemma_step_keeps_well_formed(s, reply(w, request(s)));
        if request(s) is Measure {
            lemma_swap_removed_brings_no_vehicle(
                s.pending,
                scan(s.pending, s.cached[s.cursor].vehicle_uuid, 0),
                hidden.vehicle_uuid,
            );
        }
        lemma_hidden(next, w, k);
        let i = choose|i: int| 0 <= i < rest.len() && rest[i] == lookup;
        assert(requests(s, w)[i + 1] == lookup);
    }
}

/// Hidden-vehicle fallback: a vehicle that the cached snapshot holds and that
/// the fresh listing lacks is looked up, and what the lookup reports for it is
/// part of the refreshed snapshot.
pub proof fn lemma_hidden_vehicle_is_looked_up(
    cached: Seq<LogView>,
    fresh: Seq<LogView>,
    w: World,
    k: int,
)
    requires
        0 <= k < cached.len(),
        !has_vehicle(fresh, cached[k].vehicle_uuid),
    ensures
        requests(initial(cached, fresh), w).contains(RequestView::Lookup { cached: cached[k] }),
        reconcile(cached, fresh, w).new_cache.contains((w.current)(cached[k].vehicle_uuid)),
{
    lemma_hidden(initial(cached, fresh), w, k);
}

/// A log is settled in a world when looking its vehicle up reports that very
/// log: the snapshot already holds what the telemetry source has.
pub open spec fn settled(log: LogView, w: World) -> bool {
    (w.current)(log.vehicle_uuid) == log
}

/// Whether every lookup in a world reports a log of the vehicle asked for.
pub open spec fn reports_vehicle_asked(w: World) -> bool {
    forall|uuid: Seq<char>| (#[trigger] (w.current)(uuid)).vehicle_uuid == uuid
}

/// In a world that reports the vehicle asked for, whatever a run adds to the
/// new snapshot is settled.
pub proof fn lemma_added_logs_are_settled(s: State, w: World)
    requires
        reports_vehicle_asked(w),
    ensures
        forall|m: int|
            s.new_cache.len() <= m < run(s, w).new_cache.len() ==> settled(
                #[trigger] run(s, w).new_cache[m],
                w,
            ),
    decreases s.cached.len() - s.cursor, s.pending.len() - s.drained,
{
    if !(request(s) is Finished) {
        let next = step(s, reply(w, request(s)));
        lemma_added_logs_are_settled(next, w);
        lemma_snapshot_grows(next, w);
        let end = run(s, w).new_cache;
        assert forall|m: int| s.new_cache.len() <= m < end.len() implies settled(
            #[trigger] end[m],
            w,
        ) by {
            if m < next.new_cache.len() {
                assert(end.take(next.new_cache.len() as int)[m] == next.new_cache[m]);
                let asked = s.cached[s.cursor].vehicle_uuid;
                assert(end[m] == (w.current)(asked));
                assert((w.current)(asked).vehicle_uuid == asked);
            }
        }
    }
}

/// Whether `log` is one of the logs of `fresh` from index `k` on.
spec fn in_rest(fresh: Seq<LogView>, k: int, log: LogView) -> bool {
    exists|j: int| k <= j < fresh.len() && fresh[j] == log
}

/// Whether `log` is one of the logs of `pending`.
spec fn held(pending: Seq<LogView>, log: LogView) -> bool {
    exists|m: int| 0 <= m < pending.len() && pending[m] == log
}

/// `pending` holds exactly the logs of `fresh` from index `k` on, each once,
/// in any order.
spec fn holds_rest(pending: Seq<LogView>, fresh: Seq<LogView>, k: int) -> bool {
    &&& forall|m: int| 0 <= m < pending.len() ==> #[trigger] in_rest(fresh, k, pending[m])
    &&& forall|j: int| k <= j < fresh.len() ==> #[trigger] held(pending, fresh[j])
    &&& distinct_vehicles(pending)
}

proof fn lemma_holds_rest_after_removal(
    pending: Seq<LogView>,
    fresh: Seq<LogView>,
    k: int,
    i: int,
)
    requires
        0 <= k < fresh.len(),
        0 <= i < pending.len(),
        pending[i] == fresh[k],
        holds_rest(pending, fresh, k),
        distinct_vehicles(fresh),
    ensures
        holds_rest(swap_removed(pending, i), fresh, k + 1),
{
    let rest = swap_removed(pending, i);
    let last = pending.len() - 1;
    assert forall|m: int| 0 <= m < rest.len() implies #[trigger] in_rest(fresh, k + 1, rest[m]) by {
        let from = if m == i { last } else { m };
        assert(rest[m] == pending[from]);
        assert(in_rest(fresh, k, pending[from]));
        let j = choose|j: int| k <= j < fresh.len() && fresh[j] == pending[from];
        if j == k {
            if from < i {
                assert(pending[from].vehicle_uuid != pending[i].vehicle_uuid);
            } else {
                assert(pending[i].vehicle_uuid != pending[from].vehicle_uuid);
            }
        }
        assert(k + 1 <= j < fresh.len() && fresh[j] == rest[m]);
    }
    assert forall|j: int| k + 1 <= j < fresh.len() implies #[trigger] held(rest, fresh[j]) by {
        assert(held(pending, fresh[j]));
        let from = choose|m: int| 0 <= m < pending.len() && pending[m] == fresh[j];
        assert(fresh[k].vehicle_uuid != fresh[j].vehicle_uuid);
        let m = if from == last { i } else { from };
        assert(0 <= m < rest.len() && rest[m] == fresh[j]);
    }
    assert forall|a: int, b: int| 0 <= a < b < rest.len() implies (#[trigger] rest[a]).vehicle_uuid
        != (#[trigger] rest[b]).vehicle_uuid by {
        let from_a = if a == i { last } else { a };
        let from_b = if b == i { last } else { b };
        assert(rest[a] == pending[from_a] && rest[b] == pending[from_b]);
        if from_a < from_b {
            assert(pending[from_a].vehicle_uuid != pending[from_b].vehicle_uuid);
        } else {
            assert(pending[from_b].vehicle_uuid != pending[from_a].vehicle_uuid);
        }
    }
}

proof fn lemma_rerun_tail(s: State, w: World, tail: Seq<LogView>, t: int)
    requires
        0 <= t <= tail.len(),
        s.cached.len() >= tail.len(),
        s.cursor == s.cached.len() - tail.len() + t,
        forall|j: int|
            0 <= j < tail.len() ==> s.cached[s.cached.len() - tail.len() + j] == #[trigger] tail[j],
        forall|j: int| 0 <= j < tail.len() ==> settled(#[trigger] tail[j], w),
        s.pending.len() == 0,
    ensures
        run(s, w).new_logs == s.new_logs,
        run(s, w).new_cache == s.new_cache + tail.subrange(t, tail.len() as int),
    decreases tail.len() - t,
{
    if t < tail.len() {
        let cached = s.cached[s.cursor];
        assert(cached == tail[t]);
        assert(settled(tail[t], w));
        lemma_position(s.pending, cached.vehicle_uuid);
        let next = step(s, reply(w, request(s)));
        assert(next.new_logs == s.new_logs);
        assert(next.new_cache == s.new_cache.push(cached));
        lemma_rerun_tail(next, w, tail, t + 1);
        assert(next.new_cache + tail.subrange(t + 1, tail.len() as int) =~= s.new_cache
            + tail.subrange(t, tail.len() as int));
    } else {
        assert(s.new_cache + tail.subrange(t, tail.len() as int) =~= s.new_cache);
    }
}

proof fn lemma_rerun_front(s: State, w: World, fresh: Seq<LogView>, tail: Seq<LogView>, k: int)
    requires
        0 <= k <= fresh.len(),
        s.cached == fresh + tail,
        s.cursor == k,
        s.drained == 0,
        holds_rest(s.pending, fresh, k),
        distinct_vehicles(fresh),
        forall|j: int| 0 <= j < tail.len() ==> settled(#[trigger] tail[j], w),
    ensures
        run(s, w).new_logs == s.new_logs,
        run(s, w).new_cache == s.new_cache + tail,
    decreases fresh.len() - k,
{
    if k < fresh.len() {
        let cached = s.cached[k];
        assert(cached == fresh[k]);
        assert(held(s.pending, fresh[k]));
        let m = choose|m: int| 0 <= m < s.pending.len() && s.pending[m] == fresh[k];
        assert(s.pending[m].vehicle_uuid == cached.vehicle_uuid);
        lemma_position(s.pending, cached.vehicle_uuid);
        let i = scan(s.pending, cached.vehicle_uuid, 0);
        assert(in_rest(fresh, k, s.pending[i]));
        let j = choose|j: int| k <= j < fresh.len() && fresh[j] == s.pending[i];
        if j != k {
            assert(fresh[k].vehicle_uuid != fresh[j].vehicle_uuid);
        }
        assert(s.pending[i] == cached);
        let next = step(s, reply(w, request(s)));
        assert(next.new_logs == s.new_logs);
        lemma_holds_rest_after_removal(s.pending, fresh, k, i);
        lemma_rerun_front(next, w, fresh, tail, k + 1);
    } else {
        if s.pending.len() > 0 {
            assert(in_rest(fresh, k, s.pending[0]));
        }
        assert forall|j: int| 0 <= j < tail.len() implies s.cached[s.cached.len() - tail.len()
            + j] == #[trigger] tail[j] by {}
        lemma_rerun_tail(s, w, tail, 0);
        assert(tail.subrange(0, tail.len() as int) =~= tail);
    }
}

/// Idempotence: when the fresh listing holds at most one log per vehicle and
/// the telemetry source reports the vehicle asked for, reconciling the same
/// listing a second time, against the snapshot that the first reconciliation
/// left and with the source unchanged, persists nothing and leaves the
/// snapshot as it is. Neither the distances nor the store matter.
pub proof fn lemma_second_run_persists_nothing(
    cached: Seq<LogView>,
    fresh: Seq<LogView>,
    first: World,
    second: World,
)
    requires
        distinct_vehicles(fresh),
        reports_vehicle_asked(first),
        forall|uuid: Seq<char>| (#[trigger] (second.current)(uuid)) == (first.current)(uuid),
    ensures
        reconcile(reconcile(cached, fresh, first).new_cache, fresh, second) == (OutcomeView {
            new_logs: Seq::empty(),
            new_cache: reconcile(cached, fresh, first).new_cache,
        }),
{
    let snapshot = reconcile(cached, fresh, first).new_cache;
    lemma_snapshot_grows(initial(cached, fresh), first);
    lemma_added_logs_are_settled(initial(cached, fresh), first);
    let tail = snapshot.subrange(fresh.len() as int, snapshot.len() as int);
    assert(snapshot.take(fresh.len() as int) == fresh);
    assert(snapshot =~= fresh + tail);
    assert forall|j: int| 0 <= j < tail.len() implies settled(#[trigger] tail[j], second) by {
        assert(settled(snapshot[fresh.len() + j], first));
    }
    let start = initial(snapshot, fresh);
    assert(holds_rest(fresh, fresh, 0)) by {
        assert forall|m: int| 0 <= m < fresh.len() implies #[trigger] in_rest(
            fresh,
            0,
            fresh[m],
        ) && #[trigger] held(fresh, fresh[m]) by {
            assert(0 <= m < fresh.len() && fresh[m] == fresh[m]);
        }
    }
    lemma_rerun_front(start, second, fresh, tail, 0);
}

/// What the telemetry source reports for the vehicles that a list of requests
/// looks up, in the order of the requests.
pub open spec fn looked_up(asked: Seq<RequestView>, w: World) -> Seq<LogView>
    decreases asked.len(),
{
    if asked.len() == 0 {
        Seq::empty()
    } else {
        let later = looked_up(asked.drop_first(), w);
        match asked[0] {
            RequestView::Lookup { cached } => seq![(w.current)(cached.vehicle_uuid)] + later,
            _ => later,
        }
    }
}

proof fn lemma_snapshot_of_run(s: State, w: World)
    ensures
        run(s, w).new_cache == s.new_cache + looked_up(requests(s, w), w),
    decreases s.cached.len() - s.cursor, s.pending.len() - s.drained,
{
    let asked = requests(s, w);
    if request(s) is Finished {
        assert(s.new_cache + looked_up(asked, w) =~= s.new_cache);
    } else {
        let next = step(s, reply(w, request(s)));
        lemma_snapshot_of_run(next, w);
        assert(asked.drop_first() =~= requests(next, w));
        assert(asked[0] == request(s));
        assert(next.new_cache + looked_up(requests(next, w), w) =~= s.new_cache + looked_up(
            asked,
            w,
        ));
    }
}

/// The refreshed snapshot is the fresh logs followed by what the lookups of
/// the hidden vehicles reported, in the order in which they were looked up,
/// and nothing else.
pub proof fn lemma_snapshot_is_fresh_then_looked_up(
    cached: Seq<LogView>,
    fresh: Seq<LogView>,
    w: World,
)
    ensures
        reconcile(cached, fresh, w).new_cache == fresh + looked_up(
            requests(initial(cached, fresh), w),
            w,
        ),
{
    lemma_snapshot_of_run(initial(cached, fresh), w);
}

/// The snapshot that a zone is reconciled against: the one that the cache
/// holds for it, or an empty one where it holds none.
pub open spec fn snapshot(cache: Map<Seq<char>, Seq<LogView>>, zone: Seq<char>) -> Seq<LogView> {
    if cache.contains_key(zone) {
        cache[zone]
    } else {
        Seq::empty()
    }
}

/// The cache after one zone has been reconciled: the zone has its refreshed
/// snapshot, and nothing else has changed.
pub open spec fn reconciled(
    cache: Map<Seq<char>, Seq<LogView>>,
    zone: Seq<char>,
    fresh: Seq<LogView>,
    w: World,
) -> Map<Seq<char>, Seq<LogView>> {
    cache.insert(zone, reconcile(snapshot(cache, zone), fresh, w).new_cache)
}

/// Two different zones reconcile independently: in either order the cache ends
/// the same, and each zone ends with the snapshot that its own cached
/// snapshot, its own fresh logs and its own surroundings give, whatever the
/// other zone's are.
pub proof fn lemma_zones_reconcile_independently(
    cache: Map<Seq<char>, Seq<LogView>>,
    a: Seq<char>,
    fresh_a: Seq<LogView>,
    world_a: World,
    b: Seq<char>,
    fresh_b: Seq<LogView>,
    world_b: World,
)
    requires
        a != b,
    ensures
        reconciled(reconciled(cache, a, fresh_a, world_a), b, fresh_b, world_b) == reconciled(
            reconciled(cache, b, fresh_b, world_b),
            a,
            fresh_a,
            world_a,
        ),
        reconciled(reconciled(cache, a, fresh_a, world_a), b, fresh_b, world_b)[a] == reconcile(
            snapshot(cache, a),
            fresh_a,
            world_a,
        ).new_cache,
        reconciled(reconciled(cache, a, fresh_a, world_a), b, fresh_b, world_b)[b] == reconcile(
            snapshot(cache, b),
            fresh_b,
            world_b,
        ).new_cache,
{
    let first_a = reconciled(cache, a, fresh_a, world_a);
    let first_b = reconciled(cache, b, fresh_b, world_b);
    assert(snapshot(first_a, b) == snapshot(cache, b));
    assert(snapshot(first_b, a) == snapshot(cache, a));
    assert(reconciled(first_a, b, fresh_b, world_b) =~= reconciled(first_b, a, fresh_a, world_a));
}

/// Whether every log of `part` is also a log of `whole`.
pub open spec fn all_in(part: Seq<LogView>, whole: Seq<LogView>) -> bool {
    forall|i: int| 0 <= i < part.len() ==> whole.contains(#[trigger] part[i])
}

proof fn lemma_all_in_longer(part: Seq<LogView>, whole: Seq<LogView>, log: LogView)
    requires
        all_in(part, whole),
    ensures
        all_in(part, whole.push(log)),
        all_in(part.push(log), whole.push(log)),
{
    let longer = whole.push(log);
    assert forall|i: int| 0 <= i < part.len() implies longer.contains(#[trigger] part[i]) by {
        let at = choose|at: int| 0 <= at < whole.len() && whole[at] == part[i];
        assert(longer[at] == part[i]);
    }
    assert forall|i: int| 0 <= i < part.len() + 1 implies longer.contains(
        #[trigger] part.push(log)[i],
    ) by {
        if i < part.len() {
            assert(part.push(log)[i] == part[i]);
        } else {
            assert(longer[whole.len() as int] == log);
        }
    }
}

proof fn lemma_persisted_in_snapshot(s: State, w: World)
    requires
        well_formed(s),
        all_in(s.pending, s.new_cache),
        all_in(s.new_logs, s.new_cache),
    ensures
        all_in(run(s, w).new_logs, run(s, w).new_cache),
    decreases s.cached.len() - s.cursor, s.pending.len() - s.drained,
{
    if !(request(s) is Finished) {
        let event = reply(w, request(s));
        let next = step(s, event);
        lemma_step_keeps_well_formed(s, event);
        match request(s) {
            RequestView::Measure { reference, candidate } => {
                lemma_position(s.pending, reference.vehicle_uuid);
                let i = scan(s.pending, reference.vehicle_uuid, 0);
                assert(s.new_cache.contains(s.pending[i]));
                assert forall|m: int| 0 <= m < next.pending.len() implies s.new_cache.contains(
                    #[trigger] next.pending[m],
                ) by {
                    let from = if m == i {
                        s.pending.len() - 1
                    } else {
                        m
                    };
                    assert(next.pending[m] == s.pending[from]);
                }
                assert forall|m: int| 0 <= m < next.new_logs.len() implies s.new_cache.contains(
                    #[trigger] next.new_logs[m],
                ) by {
                    if m < s.new_logs.len() {
                        assert(next.new_logs[m] == s.new_logs[m]);
                    }
                }
            },
            RequestView::Lookup { cached } => {
                let log = (w.current)(cached.vehicle_uuid);
                lemma_all_in_longer(s.pending, s.new_cache, log);
                lemma_all_in_longer(s.new_logs, s.new_cache, log);
            },
            RequestView::Latest { fresh } => {
                assert(s.new_cache.contains(s.pending[s.drained]));
                assert forall|m: int| 0 <= m < next.new_logs.len() implies s.new_cache.contains(
                    #[trigger] next.new_logs[m],
                ) by {
                    if m < s.new_logs.len() {
                        assert(next.new_logs[m] == s.new_logs[m]);
                    }
                }
            },
            RequestView::Finished => {},
        }
        lemma_persisted_in_snapshot(next, w);
    }
}

/// Nothing is persisted that the refreshed snapshot does not hold: every log
/// worth persisting is the current state of its vehicle.
pub proof fn lemma_persisted_logs_are_in_snapshot(
    cached: Seq<LogView>,
    fresh: Seq<LogView>,
    w: World,
)
    ensures
        all_in(reconcile(cached, fresh, w).new_logs, reconcile(cached, fresh, w).new_cache),
{
    let start = initial(cached, fresh);
    assert forall|i: int| 0 <= i < fresh.len() implies start.new_cache.contains(
        #[trigger] start.pending[i],
    ) by {
        assert(start.new_cache[i] == fresh[i]);
    }
    lemma_persisted_in_snapshot(start, w);
}

} // verus!
