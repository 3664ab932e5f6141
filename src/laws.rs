use crate::entry::{reportable, upper_of, EntryView};
use crate::registry::{absorb, fresh, ids, novel, reported, run, stamp_valid};
use vstd::prelude::*;

verus! {

/// Whether an entry is filtered depends on its command name only through
/// the name's upper-case form: names that differ only in case, such as
/// `slowlog`, `SLOWLOG` and `SlowLog`, are filtered alike.
pub proof fn lemma_filter_ignores_case(a: EntryView, b: EntryView)
    requires
        a.wf(),
        b.wf(),
        upper_of(a.command[0]) == upper_of(b.command[0]),
    ensures
        reportable(a) == reportable(b),
{
}

/// Within one batch: every reported entry comes from the batch, no id is
/// reported twice, no reported id was registered before, the registry
/// afterwards holds exactly the old ids and the reported ones, and what was
/// registered before is kept unchanged.
pub proof fn lemma_batch_reports_once(seen: Map<u64, EntryView>, batch: Seq<EntryView>)
    ensures
        forall|k: int|
            0 <= k < fresh(seen, batch).len() ==> batch.contains(#[trigger] fresh(seen, batch)[k]),
        ids(fresh(seen, batch)).no_duplicates(),
        forall|k: int|
            0 <= k < fresh(seen, batch).len() ==> !seen.contains_key(
                (#[trigger] fresh(seen, batch)[k]).id,
            ),
        forall|id: u64|
            #[trigger] absorb(seen, batch).contains_key(id) <==> seen.contains_key(id) || ids(
                fresh(seen, batch),
            ).contains(id),
        seen.submap_of(absorb(seen, batch)),
    decreases batch.len(),
{
    if batch.len() == 0 {
        assert(ids(fresh(seen, batch)) =~= Seq::<u64>::empty());
    } else {
        let pre = batch.drop_last();
        lemma_batch_reports_once(seen, pre);
        let prev = absorb(seen, pre);
        let f = fresh(seen, pre);
        let e = batch.last();
        assert forall|k: int| 0 <= k < f.len() implies batch.contains(#[trigger] f[k]) by {
            let j = choose|j: int| 0 <= j < pre.len() && pre[j] == f[k];
            assert(batch[j] == f[k]);
        };
        if novel(prev, e) {
            assert(batch[batch.len() - 1] == e);
            assert(ids(f.push(e)) =~= ids(f).push(e.id));
            assert(!ids(f).contains(e.id));
            let s = ids(f.push(e));
            assert forall|i: int, j: int| 0 <= i < s.len() && 0 <= j < s.len() && i != j implies s[i]
                != s[j] by {
                if i < ids(f).len() && j < ids(f).len() {
                } else if i < ids(f).len() {
                    assert(ids(f).contains(s[i]));
                } else {
                    assert(ids(f).contains(s[j]));
                }
            };
            assert forall|id: u64| ids(f).contains(id) || id == e.id implies #[trigger] ids(
                f.push(e),
            ).contains(id) by {
                if id == e.id {
                    assert(ids(f.push(e))[ids(f).len() as int] == id);
                } else {
                    let k = choose|k: int| 0 <= k < ids(f).len() && ids(f)[k] == id;
                    assert(ids(f.push(e))[k] == id);
                }
            };
            assert forall|id: u64| #[trigger] ids(f.push(e)).contains(id) implies ids(f).contains(
                id,
            ) || id == e.id by {
                let k = choose|k: int| 0 <= k < s.len() && s[k] == id;
                if k < ids(f).len() {
                    assert(ids(f)[k] == id);
                }
            };
        }
    }
}

/// Over any series of polls, no entry id is reported twice, none that was
/// registered at the start is reported, and the registry holds exactly the
/// starting ids and those reported.
pub proof fn lemma_reported_at_most_once(seen: Map<u64, EntryView>, polls: Seq<Seq<EntryView>>)
    ensures
        ids(reported(seen, polls)).no_duplicates(),
        forall|k: int|
            0 <= k < reported(seen, polls).len() ==> !seen.contains_key(
                (#[trigger] reported(seen, polls)[k]).id,
            ),
        forall|id: u64|
            #[trigger] run(seen, polls).contains_key(id) <==> seen.contains_key(id) || ids(
                reported(seen, polls),
            ).contains(id),
    decreases polls.len(),
{
    if polls.len() == 0 {
        assert(ids(reported(seen, polls)) =~= Seq::<u64>::empty());
    } else {
        let pre = polls.drop_last();
        lemma_reported_at_most_once(seen, pre);
        let big = run(seen, pre);
        let a = reported(seen, pre);
        let b = fresh(big, polls.last());
        lemma_batch_reports_once(big, polls.last());
        let s = ids(a + b);
        assert(s =~= ids(a) + ids(b));
        assert forall|k: int| 0 <= k < ids(a).len() implies big.contains_key(#[trigger] ids(a)[k]) by {
            assert(ids(a).contains(ids(a)[k]));
        };
        assert forall|k: int| 0 <= k < ids(b).len() implies !big.contains_key(#[trigger] ids(b)[k]) by {
            assert(ids(b)[k] == b[k].id);
        };
        assert forall|i: int, j: int| 0 <= i < s.len() && 0 <= j < s.len() && i != j implies s[i]
            != s[j] by {
            let n = ids(a).len() as int;
            if i < n && j >= n {
                assert(big.contains_key(ids(a)[i]));
                assert(!big.contains_key(ids(b)[j - n]));
            } else if i >= n && j < n {
                assert(big.contains_key(ids(a)[j]));
                assert(!big.contains_key(ids(b)[i - n]));
            }
        };
        assert forall|k: int| 0 <= k < (a + b).len() implies !seen.contains_key(
            (#[trigger] (a + b)[k]).id,
        ) by {
            if k >= a.len() {
                assert((a + b)[k] == b[k - a.len()]);
                assert(ids(b)[k - a.len()] == b[k - a.len()].id);
            } else {
                assert((a + b)[k] == a[k]);
            }
        };
        assert forall|id: u64| #[trigger] run(seen, polls).contains_key(id) <==> seen.contains_key(id)
            || s.contains(id) by {
            if s.contains(id) {
                let k = choose|k: int| 0 <= k < s.len() && s[k] == id;
                if k >= ids(a).len() {
                    assert(ids(b).contains(id)) by {
                        assert(ids(b)[k - ids(a).len()] == id);
                    };
                } else {
                    assert(ids(a).contains(id)) by {
                        assert(ids(a)[k] == id);
                    };
                }
            }
            if ids(a).contains(id) {
                let k = choose|k: int| 0 <= k < ids(a).len() && ids(a)[k] == id;
                assert(s[k] == id);
            }
            if ids(b).contains(id) {
                let k = choose|k: int| 0 <= k < ids(b).len() && ids(b)[k] == id;
                assert(s[ids(a).len() + k] == id);
            }
        };
    }
}

/// The registry only grows: after more polls it holds every id it held
/// after fewer, mapped to the same entry.
pub proof fn lemma_registry_only_grows(
    seen: Map<u64, EntryView>,
    polls: Seq<Seq<EntryView>>,
    i: int,
    j: int,
)
    requires
        0 <= i <= j <= polls.len(),
    ensures
        run(seen, polls.take(i)).submap_of(run(seen, polls.take(j))),
    decreases j - i,
{
    if i < j {
        lemma_registry_only_grows(seen, polls, i, j - 1);
        assert(polls.take(j).drop_last() =~= polls.take(j - 1));
        let mid = run(seen, polls.take(j - 1));
        lemma_batch_reports_once(mid, polls[j - 1]);
        assert(polls.take(j).last() == polls[j - 1]);
        let last = run(seen, polls.take(j));
        let first = run(seen, polls.take(i));
        assert forall|k: u64| #[trigger] first.contains_key(k) implies last.contains_key(k)
            && last[k] == first[k] by {
            assert(first.dom().contains(k));
            assert(mid.dom().contains(k));
            assert(last.dom().contains(k));
        };
    }
}

/// The entries of a batch whose timestamps name a calendar instant.
pub open spec fn valid_only(batch: Seq<EntryView>) -> Seq<EntryView> {
    batch.filter(|e: EntryView| stamp_valid(e))
}

/// Entries with an invalid timestamp are isolated: a batch gives the same
/// reports and the same registry as the batch without them, and every
/// reported entry has a valid timestamp.
pub proof fn lemma_invalid_stamps_isolated(seen: Map<u64, EntryView>, batch: Seq<EntryView>)
    ensures
        fresh(seen, batch) == fresh(seen, valid_only(batch)),
        absorb(seen, batch) == absorb(seen, valid_only(batch)),
        forall|k: int|
            0 <= k < fresh(seen, batch).len() ==> stamp_valid(#[trigger] fresh(seen, batch)[k]),
    decreases batch.len(),
{
    reveal(Seq::filter);
    if batch.len() > 0 {
        let pre = batch.drop_last();
        lemma_invalid_stamps_isolated(seen, pre);
        let e = batch.last();
        let fb = valid_only(batch);
        if stamp_valid(e) {
            assert(fb == valid_only(pre).push(e));
            assert(fb.drop_last() =~= valid_only(pre));
            assert(fb.last() == e);
        } else {
            assert(fb == valid_only(pre));
        }
    } else {
        assert(valid_only(batch) =~= batch);
    }
}

} // verus!
