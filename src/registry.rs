use crate::decode::{bulk_len, collect_slowlogs, decoded_all, decodes, reads_entry};
use crate::entry::{kept, reportable, views, DecodeError, EntryView, SlowlogEntry};
use crate::laws::lemma_batch_reports_once;
use crate::version::{schema_arity, Schema};
use redis::Value;
use std::collections::HashMap;
use vstd::prelude::*;

verus! {

broadcast use vstd::std_specs::hash::group_hash_axioms;

/// Whether a count of Unix seconds names a calendar instant that chrono can
/// hold: from the start of January 1, 262143 BCE to the end of December 31,
/// 262142 CE.
pub open spec fn utc_instant_exists(secs: i64) -> bool {
    -8_334_601_228_800 <= secs && secs <= 8_210_266_876_799
}

/// Relies on chrono::DateTime::<Utc>::from_timestamp with zero nanoseconds:
/// it gives `None` exactly when the day falls outside `NaiveDate::MIN` to
/// `NaiveDate::MAX` (years -262143 to 262142), and never panics for a zero
/// nanosecond part.
#[verifier::external_body]
fn instant_exists(secs: i64) -> (r: bool)
    ensures
        r == utc_instant_exists(secs),
{
    chrono::DateTime::<chrono::Utc>::from_timestamp(secs, 0).is_some()
}

/// An entry's timestamp, read as signed seconds, names a calendar instant.
pub open spec fn stamp_valid(e: EntryView) -> bool {
    utc_instant_exists(e.timestamp as i64)
}

/// Whether an entry's timestamp names a calendar instant.
pub fn timestamp_is_valid(e: &SlowlogEntry) -> (r: bool)
    ensures
        r == stamp_valid(e@),
{
    instant_exists(e.timestamp as i64)
}

/// An entry is new to `seen` when its id is absent and its timestamp is valid.
pub open spec fn novel(seen: Map<u64, EntryView>, e: EntryView) -> bool {
    !seen.contains_key(e.id) && stamp_valid(e)
}

/// The registry after a batch has been processed in order.
pub open spec fn absorb(seen: Map<u64, EntryView>, batch: Seq<EntryView>) -> Map<u64, EntryView>
    decreases batch.len(),
{
    if batch.len() == 0 {
        seen
    } else {
        let prev = absorb(seen, batch.drop_last());
        if novel(prev, batch.last()) {
            prev.insert(batch.last().id, batch.last())
        } else {
            prev
        }
    }
}

/// The entries of a batch that are reported, in batch order.
pub open spec fn fresh(seen: Map<u64, EntryView>, batch: Seq<EntryView>) -> Seq<EntryView>
    decreases batch.len(),
{
    if batch.len() == 0 {
        Seq::empty()
    } else {
        let prev = absorb(seen, batch.drop_last());
        let out = fresh(seen, batch.drop_last());
        if novel(prev, batch.last()) {
            out.push(batch.last())
        } else {
            out
        }
    }
}

/// The registry after a series of polls.
pub open spec fn run(seen: Map<u64, EntryView>, polls: Seq<Seq<EntryView>>) -> Map<u64, EntryView>
    decreases polls.len(),
{
    if polls.len() == 0 {
        seen
    } else {
        absorb(run(seen, polls.drop_last()), polls.last())
    }
}

/// Everything reported over a series of polls, in order.
pub open spec fn reported(seen: Map<u64, EntryView>, polls: Seq<Seq<EntryView>>) -> Seq<EntryView>
    decreases polls.len(),
{
    if polls.len() == 0 {
        Seq::empty()
    } else {
        reported(seen, polls.drop_last()) + fresh(run(seen, polls.drop_last()), polls.last())
    }
}

/// The ids of a sequence of entries.
pub open spec fn ids(s: Seq<EntryView>) -> Seq<u64> {
    s.map_values(|e: EntryView| e.id)
}

/// The seen-registry: the ids of the entries that have been reported, each
/// mapped to its entry. It only grows.
pub struct SeenRegistry {
    entries: HashMap<u64, SlowlogEntry>,
}

impl View for SeenRegistry {
    type V = Map<u64, EntryView>;

    closed spec fn view(&self) -> Map<u64, EntryView> {
        self.entries@.map_values(|e: SlowlogEntry| e@)
    }
}

impl SeenRegistry {
    /// An empty registry.
    pub fn new() -> (r: SeenRegistry)
        ensures
            r@ == Map::<u64, EntryView>::empty(),
    {
        let r = SeenRegistry { entries: HashMap::new() };
        assert(r@ =~= Map::<u64, EntryView>::empty());
        r
    }

    /// The number of registered ids.
    pub fn len(&self) -> (r: usize)
        ensures
            r == self@.len(),
    {
        proof {
            assert(self@.dom() =~= self.entries@.dom());
        }
        self.entries.len()
    }

    /// Whether `id` has been registered.
    pub fn contains(&self, id: u64) -> (r: bool)
        ensures
            r == self@.contains_key(id),
    {
        self.entries.contains_key(&id)
    }

    /// Decides whether `e` is new, given whether its timestamp is valid, and
    /// registers it if so. An entry is new when its id is not registered and
    /// its timestamp is valid; nothing else changes the registry.
    pub fn register_if_new(&mut self, e: &SlowlogEntry, stamp_ok: bool) -> (r: bool)
        ensures
            r == (!old(self)@.contains_key(e.id) && stamp_ok),
            r ==> final(self)@ == old(self)@.insert(e.id, e@),
            !r ==> final(self)@ == old(self)@,
    {
        if self.entries.contains_key(&e.id) || !stamp_ok {
            return false;
        }
        self.entries.insert(e.id, e.duplicate());
        proof {
            assert(self@ =~= old(self)@.insert(e.id, e@));
        }
        true
    }

    /// Processes one batch in order: each entry whose id is not registered
    /// and whose timestamp is valid is registered and returned; the others
    /// are left out and change nothing.
    pub fn record_new(&mut self, batch: &Vec<SlowlogEntry>) -> (r: Vec<SlowlogEntry>)
        ensures
            final(self)@ == absorb(old(self)@, views(batch@)),
            views(r@) == fresh(old(self)@, views(batch@)),
    {
        let ghost start = self@;
        let mut out: Vec<SlowlogEntry> = Vec::new();
        let mut i: usize = 0;
        while i < batch.len()
            invariant
                i <= batch@.len(),
                self@ == absorb(start, views(batch@.take(i as int))),
                views(out@) == fresh(start, views(batch@.take(i as int))),
            decreases batch@.len() - i,
        {
            let ghost before = views(batch@.take(i as int));
            let ghost after = views(batch@.take(i + 1));
            proof {
                assert(after.drop_last() =~= before);
                assert(after.last() == batch@[i as int]@);
            }
            let e = &batch[i];
            let ok = timestamp_is_valid(e);
            if self.register_if_new(e, ok) {
                let d = e.duplicate();
                let ghost dv = d@;
                out.push(d);
                proof {
                    assert(views(out@) =~= fresh(start, before).push(dv));
                }
            }
            i = i + 1;
        }
        proof {
            assert(batch@.take(i as int) =~= batch@);
        }
        out
    }

    /// One poll: decodes the reply under the schema, drops the monitor's own
    /// commands, and records the new entries, which are returned.
    ///
    /// When every record decodes, the poll succeeds and works on exactly the
    /// entries the records stand for. A reply that does not decode leaves the
    /// registry as it was.
    pub fn poll_once(&mut self, raws: &Vec<Value>, schema: Schema) -> (r: Result<
        Vec<SlowlogEntry>,
        DecodeError,
    >)
        ensures
            (exists|k: int|
                0 <= k < raws@.len() && bulk_len(#[trigger] raws@[k]) != Some(schema_arity(schema)))
                ==> r is Err,
            r is Err ==> final(self)@ == old(self)@,
            (forall|k: int| 0 <= k < raws@.len() ==> decodes(#[trigger] raws@[k], schema)) ==> (
            r matches Ok(out) && final(self)@ == absorb(
                old(self)@,
                kept(decoded_all(raws@, schema)),
            ) && views(out@) == fresh(old(self)@, kept(decoded_all(raws@, schema)))),
            r matches Ok(out) ==> exists|ds: Seq<EntryView>|
                #![trigger kept(ds)]
                {
                    &&& ds.len() == raws@.len()
                    &&& forall|k: int|
                        0 <= k < ds.len() ==> (#[trigger] ds[k]).wf() && reads_entry(
                            raws@[k],
                            schema,
                            ds[k],
                        )
                    &&& final(self)@ == absorb(old(self)@, kept(ds))
                    &&& views(out@) == fresh(old(self)@, kept(ds))
                },
            r matches Ok(out) ==> forall|k: int|
                0 <= k < out@.len() ==> #[trigger] reportable(out@[k]@),
    {
        let entries = collect_slowlogs(raws, schema)?;
        let out = self.record_new(&entries);
        proof {
            let batch = views(entries@);
            assert forall|k: int| 0 <= k < batch.len() implies #[trigger] reportable(batch[k]) by {
                assert(batch[k] == entries@[k]@);
            };
            lemma_batch_reports_once(old(self)@, batch);
            assert forall|k: int| 0 <= k < out@.len() implies #[trigger] reportable(out@[k]@) by {
                assert(views(out@)[k] == out@[k]@);
                assert(batch.contains(fresh(old(self)@, batch)[k]));
            };
        }
        Ok(out)
    }
}

} // verus!
