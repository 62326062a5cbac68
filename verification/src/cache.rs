//! The per-zone snapshots of last-known logs.
//!
//! A zone that was never reconciled has no snapshot at all, which is not the
//! same as having an empty one. A snapshot is only ever replaced whole.

use vstd::prelude::*;
use crate::models::{clone_logs, logs_view, Log, LogView};

verus! {

struct Entry {
    zone: String,
    logs: Vec<Log>,
}

/// The snapshots of all zones, by zone id.
pub struct Cache {
    entries: Vec<Entry>,
}

spec fn has_zone(entries: Seq<Entry>, zone: Seq<char>) -> bool {
    exists|i: int| 0 <= i < entries.len() && (#[trigger] entries[i]).zone@ == zone
}

spec fn slot(entries: Seq<Entry>, zone: Seq<char>) -> int {
    choose|i: int| 0 <= i < entries.len() && (#[trigger] entries[i]).zone@ == zone
}

spec fn distinct_zones(entries: Seq<Entry>) -> bool {
    forall|i: int, j: int|
        0 <= i < j < entries.len() ==> (#[trigger] entries[i]).zone@ != (#[trigger] entries[j]).zone@
}

proof fn lemma_slot(entries: Seq<Entry>, i: int)
    requires
        distinct_zones(entries),
        0 <= i < entries.len(),
    ensures
        has_zone(entries, entries[i].zone@),
        slot(entries, entries[i].zone@) == i,
{
    let j = slot(entries, entries[i].zone@);
    if j < i {
        assert(entries[j].zone@ != entries[i].zone@);
    } else if i < j {
        assert(entries[i].zone@ != entries[j].zone@);
    }
}

impl View for Cache {
    type V = Map<Seq<char>, Seq<LogView>>;

    closed spec fn view(&self) -> Map<Seq<char>, Seq<LogView>> {
        Map::new(
            |zone: Seq<char>| has_zone(self.entries@, zone),
            |zone: Seq<char>| logs_view(self.entries@[slot(self.entries@, zone)].logs@),
        )
    }
}

impl Cache {
    #[verifier::type_invariant]
    spec fn inv(self) -> bool {
        distinct_zones(self.entries@)
    }

    /// A cache in which no zone has a snapshot.
    pub fn new() -> (cache: Self)
        ensures
            cache@ == Map::<Seq<char>, Seq<LogView>>::empty(),
    {
        let cache = Cache { entries: Vec::new() };
        assert(cache@ =~= Map::<Seq<char>, Seq<LogView>>::empty());
        cache
    }

    fn find(&self, zone: &String) -> (found: Option<usize>)
        ensures
            match found {
                Some(i) => i < self.entries.len() && self.entries[i as int].zone@ == zone@,
                None => !has_zone(self.entries@, zone@),
            },
    {
        let mut i: usize = 0;
        while i < self.entries.len()
            invariant
                i <= self.entries.len(),
                forall|k: int| 0 <= k < i ==> (#[trigger] self.entries[k]).zone@ != zone@,
            decreases self.entries.len() - i,
        {
            if self.entries[i].zone == *zone {
                return Some(i);
            }
            i += 1;
        }
        None
    }

    /// A copy of the snapshot of `zone`, or `None` for a zone that has none.
    pub fn logs(&self, zone: &str) -> (snapshot: Option<Vec<Log>>)
        ensures
            match snapshot {
                Some(logs) => self@.contains_key(zone@) && logs_view(logs@) == self@[zone@],
                None => !self@.contains_key(zone@),
            },
    {
        proof {
            use_type_invariant(self);
        }
        let key = zone.to_owned();
        match self.find(&key) {
            Some(i) => {
                proof {
                    lemma_slot(self.entries@, i as int);
                }
                Some(clone_logs(&self.entries[i].logs))
            },
            None => None,
        }
    }

    /// Replaces the snapshot of `zone` by `logs`, whole, and leaves every other
    /// zone as it is.
    pub fn update_logs(&mut self, zone: String, logs: Vec<Log>)
        ensures
            final(self)@ == old(self)@.insert(zone@, logs_view(logs@)),
    {
        proof {
            use_type_invariant(&*self);
        }
        let ghost before = self.entries@;
        let found = self.find(&zone);
        let entry = Entry { zone, logs };
        let mut taken = Cache { entries: Vec::new() };
        core::mem::swap(self, &mut taken);
        let Cache { entries: mut entries } = taken;
        match found {
            Some(i) => {
                entries.set(i, entry);
            },
            None => {
                entries.push(entry);
            },
        }
        proof {
            let after = entries@;
            let at = match found {
                Some(i) => i as int,
                None => before.len() as int,
            };
            assert(after[at] == entry);
            assert forall|k: int| 0 <= k < after.len() && k != at implies after[k] == before[k] by {}
            assert(distinct_zones(after));
            assert forall|key: Seq<char>| has_zone(after, key) <==> (key == entry.zone@ || has_zone(
                before,
                key,
            )) by {
                if has_zone(after, key) {
                    let k = slot(after, key);
                    if k != at {
                        assert(before[k].zone@ == key);
                    }
                }
                if has_zone(before, key) {
                    let k = slot(before, key);
                    assert(after[k].zone@ == key);
                }
                if key == entry.zone@ {
                    assert(after[at].zone@ == key);
                }
            }
            assert forall|key: Seq<char>| has_zone(after, key) implies logs_view(
                after[slot(after, key)].logs@,
            ) == old(self)@.insert(entry.zone@, logs_view(entry.logs@))[key] by {
                let k = slot(after, key);
                lemma_slot(after, k);
                if key != entry.zone@ {
                    assert(k != at);
                    lemma_slot(before, k);
                } else {
                    lemma_slot(after, at);
                }
            }
        }
        *self = Cache { entries };
        assert(self@ =~= old(self)@.insert(entry.zone@, logs_view(entry.logs@)));
    }
}

impl Default for Cache {
    fn default() -> (cache: Self)
        ensures
            cache@ == Map::<Seq<char>, Seq<LogView>>::empty(),
    {
        Cache::new()
    }
}

/// Zones do not interfere: replacing the snapshots of two different zones gives
/// the same cache in either order, each zone ends with its own new snapshot,
/// and any third zone keeps what it had.
pub proof fn lemma_zones_do_not_interfere(
    cache: Map<Seq<char>, Seq<LogView>>,
    a: Seq<char>,
    snapshot_a: Seq<LogView>,
    b: Seq<char>,
    snapshot_b: Seq<LogView>,
    other: Seq<char>,
)
    requires
        a != b,
        other != a,
        other != b,
    ensures
        cache.insert(a, snapshot_a).insert(b, snapshot_b) == cache.insert(b, snapshot_b).insert(
            a,
            snapshot_a,
        ),
        cache.insert(a, snapshot_a).insert(b, snapshot_b)[a] == snapshot_a,
        cache.insert(a, snapshot_a).insert(b, snapshot_b)[b] == snapshot_b,
        cache.insert(a, snapshot_a).insert(b, snapshot_b).contains_key(other) == cache.contains_key(
            other,
        ),
        cache.insert(a, snapshot_a).insert(b, snapshot_b)[other] == cache[other],
{
    assert(cache.insert(a, snapshot_a).insert(b, snapshot_b) =~= cache.insert(b, snapshot_b).insert(
        a,
        snapshot_a,
    ));
}

} // verus!
