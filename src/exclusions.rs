//! Consolidation of exclusion events into one list of merged intervals per group.
use vstd::prelude::*;
use crate::intervals::{
    Interval, merged, merge_intervals, well_formed, covered, disjoint_ascending,
    lemma_merged_properties, lemma_merged_order_independent, lemma_merged_min_width, within_union,
};

verus! {

broadcast use vstd::seq_lib::group_to_multiset_ensures, vstd::multiset::group_multiset_axioms;

/// The text of a group key: mast, sensor and reason.
pub type KeyView = (Seq<char>, Seq<char>, Seq<char>);

/// The data source (mast and sensor) and the reason under which exclusions are grouped.
pub struct GroupKey {
    pub mast: String,
    pub sensor: String,
    pub reason: String,
}

impl View for GroupKey {
    type V = KeyView;

    open spec fn view(&self) -> Self::V {
        (self.mast@, self.sensor@, self.reason@)
    }
}

impl GroupKey {
    pub fn new(mast: String, sensor: String, reason: String) -> (r: GroupKey)
        ensures
            r@ == (mast@, sensor@, reason@),
    {
        GroupKey { mast, sensor, reason }
    }

    /// A key with the same text.
    pub fn duplicate(&self) -> (r: GroupKey)
        ensures
            r@ == self@,
    {
        GroupKey { mast: self.mast.clone(), sensor: self.sensor.clone(), reason: self.reason.clone() }
    }

    pub fn same_as(&self, other: &GroupKey) -> (r: bool)
        ensures
            r == (self@ == other@),
    {
        self.mast == other.mast && self.sensor == other.sensor && self.reason == other.reason
    }
}

/// One excluded sample: its group and its time, in seconds.
pub struct ExclusionEvent {
    pub key: GroupKey,
    pub timestamp: i64,
}

/// One merged interval of a group, with the time the consolidation was made.
pub struct ExclusionRecord {
    pub key: GroupKey,
    pub start: i64,
    pub end: i64,
    pub generated: i64,
}

/// `t` widened by `b` seconds on both sides stays within `i64`.
pub open spec fn buffer_fits(t: i64, b: int) -> bool {
    i64::MIN + b <= t && t <= i64::MAX - b
}

pub open spec fn event_interval(e: ExclusionEvent, b: int) -> Interval {
    ((e.timestamp - b) as i64, (e.timestamp + b) as i64)
}

/// The widened intervals of the events of group `k`, in event order.
pub open spec fn group_intervals(events: Seq<ExclusionEvent>, k: KeyView, b: int) -> Seq<Interval>
    decreases events.len(),
{
    if events.len() == 0 {
        Seq::empty()
    } else {
        let rest = group_intervals(events.drop_last(), k, b);
        if events.last().key@ == k {
            rest.push(event_interval(events.last(), b))
        } else {
            rest
        }
    }
}

/// The intervals of the records of group `k`, in output order.
pub open spec fn record_intervals(records: Seq<ExclusionRecord>, k: KeyView) -> Seq<Interval>
    decreases records.len(),
{
    if records.len() == 0 {
        Seq::empty()
    } else {
        let rest = record_intervals(records.drop_last(), k);
        if records.last().key@ == k {
            rest.push((records.last().start, records.last().end))
        } else {
            rest
        }
    }
}

pub open spec fn has_key(keys: Seq<GroupKey>, k: KeyView) -> bool {
    exists|m: int| 0 <= m < keys.len() && (#[trigger] keys[m])@ == k
}

proof fn lemma_group_absent(events: Seq<ExclusionEvent>, k: KeyView, b: int)
    requires
        forall|j: int| 0 <= j < events.len() ==> (#[trigger] events[j]).key@ != k,
    ensures
        group_intervals(events, k, b).len() == 0,
    decreases events.len(),
{
    if events.len() > 0 {
        lemma_group_absent(events.drop_last(), k, b);
    }
}

/// The intervals of group `k`, widened by `b` seconds.
fn collect_group(events: &Vec<ExclusionEvent>, k: &GroupKey, b: i64) -> (r: Vec<Interval>)
    requires
        b >= 0,
        forall|j: int| 0 <= j < events@.len() ==> buffer_fits((#[trigger] events@[j]).timestamp, b as int),
    ensures
        r@ == group_intervals(events@, k@, b as int),
        well_formed(r@),
{
    let mut r: Vec<Interval> = Vec::new();
    let mut j: usize = 0;
    while j < events.len()
        invariant
            b >= 0,
            j <= events@.len(),
            forall|j: int| 0 <= j < events@.len() ==> buffer_fits((#[trigger] events@[j]).timestamp, b as int),
            r@ == group_intervals(events@.subrange(0, j as int), k@, b as int),
            well_formed(r@),
        decreases events@.len() - j,
    {
        let e = &events[j];
        proof {
            assert(events@.subrange(0, j + 1).drop_last() == events@.subrange(0, j as int));
        }
        if e.key.same_as(k) {
            r.push((e.timestamp - b, e.timestamp + b));
        }
        j += 1;
    }
    proof {
        assert(events@.subrange(0, events@.len() as int) == events@);
    }
    r
}

/// The text and times of a record: key, start, end, generation time.
pub type RecordView = (KeyView, i64, i64, i64);

pub open spec fn record_views(rs: Seq<ExclusionRecord>) -> Seq<RecordView> {
    rs.map_values(|r: ExclusionRecord| (r.key@, r.start, r.end, r.generated))
}

pub open spec fn key_views(ks: Seq<GroupKey>) -> Seq<KeyView> {
    ks.map_values(|k: GroupKey| k@)
}

/// The group keys of `events`, each once, in the order of their first event.
pub open spec fn group_order(events: Seq<ExclusionEvent>) -> Seq<KeyView>
    decreases events.len(),
{
    if events.len() == 0 {
        Seq::empty()
    } else {
        let rest = group_order(events.drop_last());
        if rest.contains(events.last().key@) {
            rest
        } else {
            rest.push(events.last().key@)
        }
    }
}

/// The records of group `k` for the intervals `ivs`.
pub open spec fn group_records(k: KeyView, ivs: Seq<Interval>, g: i64) -> Seq<RecordView> {
    ivs.map_values(|iv: Interval| (k, iv.0, iv.1, g))
}

/// The records of the groups `keys`, group after group, each group's merged
/// intervals in ascending order.
pub open spec fn records_for(events: Seq<ExclusionEvent>, keys: Seq<KeyView>, b: int, g: i64) -> Seq<RecordView>
    decreases keys.len(),
{
    if keys.len() == 0 {
        Seq::empty()
    } else {
        records_for(events, keys.drop_last(), b, g) + group_records(
            keys.last(),
            merged(group_intervals(events, keys.last(), b)),
            g,
        )
    }
}

/// The whole output of a consolidation of `events` with a buffer of `b` seconds.
pub open spec fn consolidation(events: Seq<ExclusionEvent>, b: int, g: i64) -> Seq<RecordView> {
    records_for(events, group_order(events), b, g)
}

/// Merges the events of each group into disjoint intervals `[t - buffer, t + buffer]`,
/// `buffer` in minutes; each record carries `generated` as its generation time.
/// The groups come in the order of their first event.
pub fn consolidate_exclusions(events: &Vec<ExclusionEvent>, buffer_minutes: u32, generated: i64) -> (r: Vec<ExclusionRecord>)
    requires
        forall|j: int| 0 <= j < events@.len() ==> buffer_fits((#[trigger] events@[j]).timestamp, buffer_minutes * 60),
    ensures
        record_views(r@) == consolidation(events@, buffer_minutes * 60, generated),
        forall|k: KeyView| #[trigger] record_intervals(r@, k) == merged(group_intervals(events@, k, buffer_minutes * 60)),
        forall|m: int| 0 <= m < r@.len() ==> (#[trigger] r@[m]).generated == generated,
{
    let b: i64 = buffer_minutes as i64 * 60;
    let ghost bi: int = buffer_minutes * 60;
    let mut r: Vec<ExclusionRecord> = Vec::new();
    let mut keys: Vec<GroupKey> = Vec::new();
    let mut i: usize = 0;
    while i < events.len()
        invariant
            b == bi,
            bi == buffer_minutes * 60,
            b >= 0,
            i <= events@.len(),
            forall|j: int| 0 <= j < events@.len() ==> buffer_fits((#[trigger] events@[j]).timestamp, bi),
            forall|j: int| 0 <= j < i ==> has_key(keys@, (#[trigger] events@[j]).key@),
            forall|k: KeyView| #[trigger] record_intervals(r@, k) == if has_key(keys@, k) {
                merged(group_intervals(events@, k, bi))
            } else {
                Seq::<Interval>::empty()
            },
            forall|m: int| 0 <= m < r@.len() ==> (#[trigger] r@[m]).generated == generated,
            key_views(keys@) == group_order(events@.subrange(0, i as int)),
            record_views(r@) == records_for(events@, key_views(keys@), bi, generated),
        decreases events@.len() - i,
    {
        let key = &events[i].key;
        let mut seen = false;
        let mut m: usize = 0;
        while m < keys.len()
            invariant
                m <= keys@.len(),
                seen == exists|x: int| 0 <= x < m && (#[trigger] keys@[x])@ == key@,
            decreases keys@.len() - m,
        {
            if keys[m].same_as(key) {
                seen = true;
            }
            m += 1;
        }
        proof {
            assert(events@.subrange(0, i + 1).drop_last() == events@.subrange(0, i as int));
            assert(events@.subrange(0, i + 1).last() == events@[i as int]);
            if seen {
                let x = choose|x: int| 0 <= x < keys@.len() && (#[trigger] keys@[x])@ == key@;
                assert(key_views(keys@)[x] == key@);
            }
            if key_views(keys@).contains(key@) {
                let x = choose|x: int| 0 <= x < key_views(keys@).len() && key_views(keys@)[x] == key@;
                assert(keys@[x]@ == key@);
            }
        }
        if !seen {
            let ivs = collect_group(events, key, b);
            let merged_ivs = merge_intervals(&ivs);
            let ghost before = r@;
            let mut n: usize = 0;
            while n < merged_ivs.len()
                invariant
                    n <= merged_ivs@.len(),
                    !has_key(keys@, key@),
                    forall|k: KeyView| #[trigger] record_intervals(r@, k) == if k == key@ {
                        merged_ivs@.subrange(0, n as int)
                    } else {
                        record_intervals(before, k)
                    },
                    forall|m: int| 0 <= m < r@.len() ==> (#[trigger] r@[m]).generated == generated,
                    record_views(r@) == record_views(before) + group_records(key@, merged_ivs@.subrange(0, n as int), generated),
                    forall|k: KeyView| #[trigger] record_intervals(before, k) == if has_key(keys@, k) {
                        merged(group_intervals(events@, k, bi))
                    } else {
                        Seq::<Interval>::empty()
                    },
                decreases merged_ivs@.len() - n,
            {
                let (s, e) = merged_ivs[n];
                let rec = ExclusionRecord { key: key.duplicate(), start: s, end: e, generated };
                let ghost old_r = r@;
                r.push(rec);
                proof {
                    assert(record_views(r@) =~= record_views(old_r).push((key@, s, e, generated)));
                    assert(group_records(key@, merged_ivs@.subrange(0, n + 1), generated) =~= group_records(
                        key@,
                        merged_ivs@.subrange(0, n as int),
                        generated,
                    ).push((key@, s, e, generated)));
                    assert(r@.drop_last() == old_r);
                    assert(merged_ivs@.subrange(0, n + 1) == merged_ivs@.subrange(0, n as int).push((s, e)));
                    assert forall|k: KeyView| #[trigger] record_intervals(r@, k) == if k == key@ {
                        merged_ivs@.subrange(0, n + 1)
                    } else {
                        record_intervals(before, k)
                    } by {
                        assert(record_intervals(r@, k) == (if r@.last().key@ == k {
                            record_intervals(old_r, k).push((r@.last().start, r@.last().end))
                        } else {
                            record_intervals(old_r, k)
                        }));
                    }
                }
                n += 1;
            }
            let ghost old_keys = keys@;
            keys.push(key.duplicate());
            proof {
                assert(merged_ivs@.subrange(0, merged_ivs@.len() as int) == merged_ivs@);
                assert(keys@[old_keys.len() as int]@ == key@);
                assert(key_views(keys@) =~= key_views(old_keys).push(key@));
                assert(key_views(keys@).drop_last() == key_views(old_keys));
                assert forall|k: KeyView| has_key(keys@, k) == (has_key(old_keys, k) || k == key@) by {
                    if has_key(old_keys, k) {
                        let x = choose|x: int| 0 <= x < old_keys.len() && (#[trigger] old_keys[x])@ == k;
                        assert(keys@[x] == old_keys[x]);
                    }
                    if has_key(keys@, k) && k != key@ {
                        let x = choose|x: int| 0 <= x < keys@.len() && (#[trigger] keys@[x])@ == k;
                        assert(old_keys[x] == keys@[x]);
                    }
                }
            }
        }
        i += 1;
    }
    proof {
        assert(events@.subrange(0, events@.len() as int) == events@);
        assert forall|k: KeyView| #[trigger] record_intervals(r@, k) == merged(group_intervals(events@, k, bi)) by {
            if !has_key(keys@, k) {
                lemma_group_absent(events@, k, bi);
                lemma_merged_properties(group_intervals(events@, k, bi));
                assert(group_intervals(events@, k, bi) =~= Seq::<Interval>::empty());
            }
        }
    }
    r
}

proof fn lemma_group_contains(events: Seq<ExclusionEvent>, b: int, j: int)
    requires
        0 <= j < events.len(),
    ensures
        group_intervals(events, events[j].key@, b).contains(event_interval(events[j], b)),
    decreases events.len(),
{
    let k = events[j].key@;
    let rest = group_intervals(events.drop_last(), k, b);
    if j == events.len() - 1 {
        assert(group_intervals(events, k, b).last() == event_interval(events[j], b));
    } else {
        lemma_group_contains(events.drop_last(), b, j);
        let x = choose|x: int| 0 <= x < rest.len() && rest[x] == event_interval(events[j], b);
        if events.last().key@ == k {
            assert(rest.push(event_interval(events.last(), b))[x] == rest[x]);
        }
    }
}

proof fn lemma_group_well_formed(events: Seq<ExclusionEvent>, k: KeyView, b: int)
    requires
        b >= 0,
        forall|j: int| 0 <= j < events.len() ==> buffer_fits((#[trigger] events[j]).timestamp, b),
    ensures
        well_formed(group_intervals(events, k, b)),
        forall|x: int| 0 <= x < group_intervals(events, k, b).len()
            ==> (#[trigger] group_intervals(events, k, b)[x]).1 - group_intervals(events, k, b)[x].0 == 2 * b,
    decreases events.len(),
{
    if events.len() > 0 {
        assert(forall|j: int| 0 <= j < events.len() - 1 ==> events.drop_last()[j] == events[j]);
        lemma_group_well_formed(events.drop_last(), k, b);
    }
}

/// For a buffer of `b >= 0` seconds, the merged intervals of a group are ordered and
/// pairwise disjoint, each spans at least `2 * b` and lies within the union of the
/// group's widened events, and the time of each event of the group lies in exactly
/// one of them.
pub proof fn lemma_each_event_in_one_interval(events: Seq<ExclusionEvent>, b: int, j: int)
    requires
        b >= 0,
        forall|i: int| 0 <= i < events.len() ==> buffer_fits((#[trigger] events[i]).timestamp, b),
        0 <= j < events.len(),
    ensures
        ({
            let g = group_intervals(events, events[j].key@, b);
            let out = merged(g);
            &&& disjoint_ascending(out)
            &&& forall|m: int| 0 <= m < out.len() ==> (#[trigger] out[m]).1 - out[m].0 >= 2 * b
            &&& forall|m: int| 0 <= m < out.len() ==> within_union(g, #[trigger] out[m])
            &&& exists|m: int|
                0 <= m < out.len() && (#[trigger] out[m]).0 <= events[j].timestamp <= out[m].1
            &&& forall|m: int, n: int|
                0 <= m < out.len() && 0 <= n < out.len() && (#[trigger] out[m]).0 <= events[j].timestamp
                    <= out[m].1 && (#[trigger] out[n]).0 <= events[j].timestamp <= out[n].1 ==> m == n
        }),
{
    let k = events[j].key@;
    let g = group_intervals(events, k, b);
    lemma_group_well_formed(events, k, b);
    lemma_merged_properties(g);
    lemma_merged_min_width(g, 2 * b);
    lemma_group_contains(events, b, j);
    let x = choose|x: int| 0 <= x < g.len() && g[x] == event_interval(events[j], b);
    assert(covered(merged(g), g[x]));
}

proof fn lemma_group_remove(events: Seq<ExclusionEvent>, k: KeyView, b: int, i: int)
    requires
        0 <= i < events.len(),
    ensures
        group_intervals(events, k, b).to_multiset() == if events[i].key@ == k {
            group_intervals(events.remove(i), k, b).to_multiset().insert(event_interval(events[i], b))
        } else {
            group_intervals(events.remove(i), k, b).to_multiset()
        },
    decreases events.len(),
{
    let n = events.len() as int;
    if i == n - 1 {
        assert(events.remove(i) == events.drop_last());
    } else {
        let y = events.last();
        lemma_group_remove(events.drop_last(), k, b, i);
        assert(events.remove(i).drop_last() == events.drop_last().remove(i));
        assert(events.remove(i).last() == y);
        assert(events.drop_last()[i] == events[i]);
    }
}

proof fn lemma_group_permutation(a: Seq<ExclusionEvent>, c: Seq<ExclusionEvent>, k: KeyView, b: int)
    requires
        a.to_multiset() == c.to_multiset(),
    ensures
        group_intervals(a, k, b).to_multiset() == group_intervals(c, k, b).to_multiset(),
    decreases a.len(),
{
    if a.len() == 0 {
        assert(c.to_multiset().len() == 0);
        assert(c.len() == 0);
    } else {
        let x = a.last();
        assert(a.drop_last().push(x) == a);
        assert(a.to_multiset().count(x) > 0);
        assert(c.contains(x));
        let i = choose|i: int| 0 <= i < c.len() && c[i] == x;
        assert(c.remove(i).to_multiset() == c.to_multiset().remove(x));
        assert(a.drop_last().to_multiset() == a.to_multiset().remove(x));
        lemma_group_permutation(a.drop_last(), c.remove(i), k, b);
        lemma_group_remove(c, k, b, i);
    }
}

/// Reordering the events does not change the merged intervals of any group.
pub proof fn lemma_consolidation_order_independent(
    a: Seq<ExclusionEvent>,
    c: Seq<ExclusionEvent>,
    k: KeyView,
    b: int,
)
    requires
        a.to_multiset() == c.to_multiset(),
    ensures
        merged(group_intervals(a, k, b)) == merged(group_intervals(c, k, b)),
{
    lemma_group_permutation(a, c, k, b);
    lemma_merged_order_independent(group_intervals(a, k, b), group_intervals(c, k, b));
}

} // verus!
