//! Merging closed time intervals into the fewest disjoint ones: sort by start,
//! then one sweep that joins each interval to the running one when they meet.
use vstd::prelude::*;
use vstd::relations::{sorted_by, total_ordering};
use vstd::seq_lib::lemma_sorted_unique;

verus! {

broadcast use vstd::seq_lib::group_to_multiset_ensures;

/// A closed interval `(start, end)` of seconds.
pub type Interval = (i64, i64);

/// Order by start, then by end.
pub open spec fn interval_leq(a: Interval, b: Interval) -> bool {
    a.0 < b.0 || (a.0 == b.0 && a.1 <= b.1)
}

pub open spec fn by_start() -> spec_fn(Interval, Interval) -> bool {
    |a: Interval, b: Interval| interval_leq(a, b)
}

pub open spec fn well_formed(ivs: Seq<Interval>) -> bool {
    forall|j: int| 0 <= j < ivs.len() ==> (#[trigger] ivs[j]).0 <= ivs[j].1
}

/// One pass over `v` from index i, with `cur` the running interval and `acc`
/// the intervals already finished.
pub open spec fn sweep(v: Seq<Interval>, i: int, cur: Interval, acc: Seq<Interval>) -> Seq<
    Interval,
>
    decreases v.len() - i,
{
    if i >= v.len() {
        acc.push(cur)
    } else if v[i].0 <= cur.1 {
        sweep(v, i + 1, (cur.0, if v[i].1 > cur.1 { v[i].1 } else { cur.1 }), acc)
    } else {
        sweep(v, i + 1, v[i], acc.push(cur))
    }
}

/// The merged form of a collection of intervals.
pub open spec fn merged(ivs: Seq<Interval>) -> Seq<Interval> {
    let v = ivs.sort_by(by_start());
    if v.len() == 0 {
        Seq::empty()
    } else {
        sweep(v, 1, v[0], Seq::empty())
    }
}

/// Some interval of `out` contains `iv`.
pub open spec fn covered(out: Seq<Interval>, iv: Interval) -> bool {
    exists|k: int| 0 <= k < out.len() && (#[trigger] out[k]).0 <= iv.0 && iv.1 <= out[k].1
}

/// Each interval is ordered, and each ends strictly before the next one starts.
pub open spec fn disjoint_ascending(out: Seq<Interval>) -> bool {
    &&& forall|k: int| 0 <= k < out.len() ==> (#[trigger] out[k]).0 <= out[k].1
    &&& forall|k: int, l: int| 0 <= k < l < out.len() ==> (#[trigger] out[k]).1 < (#[trigger] out[l]).0
}

/// Some interval of `ivs` contains the time `c`.
pub open spec fn point_in_union(ivs: Seq<Interval>, c: int) -> bool {
    exists|j: int| 0 <= j < ivs.len() && (#[trigger] ivs[j]).0 <= c <= ivs[j].1
}

/// Every time of `iv` lies in some interval of `ivs`.
pub open spec fn within_union(ivs: Seq<Interval>, iv: Interval) -> bool {
    forall|c: int| iv.0 <= c <= iv.1 ==> #[trigger] point_in_union(ivs, c)
}

proof fn lemma_by_start_total()
    ensures
        total_ordering(by_start()),
{
}


proof fn lemma_sweep(v: Seq<Interval>, i: int, cur: Interval, acc: Seq<Interval>, w: int)
    requires
        forall|j: int| 0 <= j < v.len() ==> (#[trigger] v[j]).1 - v[j].0 >= w,
        cur.1 - cur.0 >= w,
        forall|k: int| 0 <= k < acc.len() ==> (#[trigger] acc[k]).1 - acc[k].0 >= w,
        within_union(v, cur),
        forall|k: int| 0 <= k < acc.len() ==> within_union(v, #[trigger] acc[k]),
        sorted_by(v, by_start()),
        well_formed(v),
        1 <= i <= v.len(),
        cur.0 <= cur.1,
        disjoint_ascending(acc),
        forall|k: int| 0 <= k < acc.len() ==> (#[trigger] acc[k]).1 < cur.0,
        forall|j: int| i <= j < v.len() ==> cur.0 <= (#[trigger] v[j]).0,
        forall|j: int| 0 <= j < i ==> covered(acc.push(cur), #[trigger] v[j]),
    ensures
        disjoint_ascending(sweep(v, i, cur, acc)),
        forall|j: int| 0 <= j < v.len() ==> covered(sweep(v, i, cur, acc), #[trigger] v[j]),
        forall|k: int| 0 <= k < sweep(v, i, cur, acc).len() ==> within_union(v, #[trigger] sweep(v, i, cur, acc)[k])
            && sweep(v, i, cur, acc)[k].1 - sweep(v, i, cur, acc)[k].0 >= w,
    decreases v.len() - i,
{
    if i >= v.len() {
        let out = acc.push(cur);
        assert(forall|k: int| 0 <= k < acc.len() ==> out[k] == acc[k]);
    } else if v[i].0 <= cur.1 {
        let ncur = (cur.0, if v[i].1 > cur.1 { v[i].1 } else { cur.1 });
        assert forall|j: int| 0 <= j < i + 1 implies covered(acc.push(ncur), #[trigger] v[j]) by {
            if j < i {
                let k = choose|k: int|
                    0 <= k < acc.push(cur).len() && (#[trigger] acc.push(cur)[k]).0 <= v[j].0
                        && v[j].1 <= acc.push(cur)[k].1;
                assert(acc.push(ncur)[k].0 <= v[j].0 && v[j].1 <= acc.push(ncur)[k].1);
            } else {
                assert(acc.push(ncur)[acc.len() as int] == ncur);
            }
        }
        assert forall|c: int| ncur.0 <= c <= ncur.1 implies #[trigger] point_in_union(v, c) by {
            if c > cur.1 {
                assert(v[i].0 <= c <= v[i].1);
            }
        }
        lemma_sweep(v, i + 1, ncur, acc, w);
    } else {
        let nacc = acc.push(cur);
        assert(forall|j: int| i < j < v.len() ==> by_start()(v[i], #[trigger] v[j]));
        assert forall|j: int| 0 <= j < i + 1 implies covered(nacc.push(v[i]), #[trigger] v[j]) by {
            if j < i {
                let k = choose|k: int|
                    0 <= k < acc.push(cur).len() && (#[trigger] acc.push(cur)[k]).0 <= v[j].0
                        && v[j].1 <= acc.push(cur)[k].1;
                assert(nacc.push(v[i])[k] == nacc[k]);
            } else {
                assert(nacc.push(v[i])[nacc.len() as int] == v[i]);
            }
        }
        assert(forall|k: int| 0 <= k < acc.len() ==> nacc[k] == acc[k]);
        assert forall|c: int| v[i].0 <= c <= v[i].1 implies #[trigger] point_in_union(v, c) by {
            assert(v[i].0 <= c <= v[i].1);
        }
        lemma_sweep(v, i + 1, v[i], nacc, w);
    }
}

/// Merging gives ordered, pairwise disjoint intervals in ascending order, every
/// input interval lies within one of them, and every time of a merged interval
/// lies in some input interval.
pub proof fn lemma_merged_properties(ivs: Seq<Interval>)
    requires
        well_formed(ivs),
    ensures
        forall|k: int| 0 <= k < merged(ivs).len() ==> within_union(ivs, #[trigger] merged(ivs)[k]),
        disjoint_ascending(merged(ivs)),
        forall|j: int| 0 <= j < ivs.len() ==> covered(merged(ivs), #[trigger] ivs[j]),
        ivs.len() == 0 <==> merged(ivs).len() == 0,
{
    lemma_merged_min_width(ivs, 0);
}

/// Where every input interval spans at least `w`, so does every merged interval.
pub proof fn lemma_merged_min_width(ivs: Seq<Interval>, w: int)
    requires
        well_formed(ivs),
        forall|j: int| 0 <= j < ivs.len() ==> (#[trigger] ivs[j]).1 - ivs[j].0 >= w,
    ensures
        disjoint_ascending(merged(ivs)),
        forall|j: int| 0 <= j < ivs.len() ==> covered(merged(ivs), #[trigger] ivs[j]),
        ivs.len() == 0 <==> merged(ivs).len() == 0,
        forall|k: int| 0 <= k < merged(ivs).len() ==> within_union(ivs, #[trigger] merged(ivs)[k]),
        forall|k: int| 0 <= k < merged(ivs).len() ==> (#[trigger] merged(ivs)[k]).1 - merged(ivs)[k].0 >= w,
{
    lemma_by_start_total();
    let v = ivs.sort_by(by_start());
    ivs.lemma_sort_by_ensures(by_start());
    assert forall|j: int| 0 <= j < v.len() implies (#[trigger] v[j]).0 <= v[j].1 && v[j].1 - v[j].0 >= w by {
        assert(v.to_multiset().count(v[j]) > 0);
        assert(ivs.contains(v[j]));
    }
    assert(ivs.len() == v.len()) by {
        assert(ivs.to_multiset().len() == v.to_multiset().len());
    }
    if v.len() > 0 {
        assert(covered(Seq::<Interval>::empty().push(v[0]), v[0])) by {
            assert(Seq::<Interval>::empty().push(v[0])[0] == v[0]);
        }
        assert(forall|j: int| 1 <= j < v.len() ==> by_start()(v[0], #[trigger] v[j]));
        assert forall|c: int| v[0].0 <= c <= v[0].1 implies #[trigger] point_in_union(v, c) by {
            assert(v[0].0 <= c <= v[0].1);
        }
        lemma_sweep(v, 1, v[0], Seq::empty(), w);
        assert forall|j: int| 0 <= j < ivs.len() implies covered(merged(ivs), #[trigger] ivs[j]) by {
            assert(ivs.to_multiset().count(ivs[j]) > 0);
            assert(v.contains(ivs[j]));
        }
        let out = merged(ivs);
        assert forall|k: int| 0 <= k < out.len() implies within_union(ivs, #[trigger] out[k]) by {
            assert forall|c: int| out[k].0 <= c <= out[k].1 implies #[trigger] point_in_union(ivs, c) by {
                assert(point_in_union(v, c));
                let j = choose|j: int| 0 <= j < v.len() && (#[trigger] v[j]).0 <= c <= v[j].1;
                assert(v.to_multiset().count(v[j]) > 0);
                assert(ivs.contains(v[j]));
            }
        }
    }
}

/// Merging depends only on which intervals are given, not on their order.
pub proof fn lemma_merged_order_independent(a: Seq<Interval>, b: Seq<Interval>)
    requires
        a.to_multiset() == b.to_multiset(),
    ensures
        merged(a) == merged(b),
{
    lemma_by_start_total();
    a.lemma_sort_by_ensures(by_start());
    b.lemma_sort_by_ensures(by_start());
    lemma_sorted_unique(a.sort_by(by_start()), b.sort_by(by_start()), by_start());
}

/// Sorts intervals by start, then by end.
pub fn sort_intervals(ivs: &Vec<Interval>) -> (r: Vec<Interval>)
    ensures
        r@ == ivs@.sort_by(by_start()),
{
    let mut r: Vec<Interval> = Vec::new();
    let mut i: usize = 0;
    while i < ivs.len()
        invariant
            i <= ivs@.len(),
            sorted_by(r@, by_start()),
            r@.to_multiset() == ivs@.subrange(0, i as int).to_multiset(),
        decreases ivs@.len() - i,
    {
        let x = ivs[i];
        let mut p: usize = 0;
        while p < r.len() && (r[p].0 < x.0 || (r[p].0 == x.0 && r[p].1 <= x.1))
            invariant
                p <= r@.len(),
                forall|k: int| 0 <= k < p ==> interval_leq(#[trigger] r@[k], x),
            decreases r@.len() - p,
        {
            p += 1;
        }
        proof {
            assert forall|k: int| p <= k < r@.len() implies interval_leq(x, #[trigger] r@[k]) by {
                assert(by_start()(r@[p as int], r@[k]) || k == p);
            }
            r@.insert_ensures(p as int, x);
            assert(ivs@.subrange(0, i + 1) == ivs@.subrange(0, i as int).push(x));
        }
        r.insert(p, x);
        i += 1;
    }
    proof {
        lemma_by_start_total();
        assert(ivs@.subrange(0, ivs@.len() as int) == ivs@);
        ivs@.lemma_sort_by_ensures(by_start());
        lemma_sorted_unique(r@, ivs@.sort_by(by_start()), by_start());
    }
    r
}

/// Merges intervals into the fewest disjoint ones, in ascending order.
pub fn merge_intervals(ivs: &Vec<Interval>) -> (r: Vec<Interval>)
    requires
        well_formed(ivs@),
    ensures
        r@ == merged(ivs@),
        disjoint_ascending(r@),
        forall|j: int| 0 <= j < ivs@.len() ==> covered(r@, #[trigger] ivs@[j]),
{
    proof {
        lemma_merged_properties(ivs@);
    }
    let v = sort_intervals(ivs);
    let mut r: Vec<Interval> = Vec::new();
    if v.len() == 0 {
        return r;
    }
    let mut cur: Interval = v[0];
    let mut i: usize = 1;
    while i < v.len()
        invariant
            1 <= i <= v@.len(),
            v@ == ivs@.sort_by(by_start()),
            sweep(v@, i as int, cur, r@) == merged(ivs@),
        decreases v@.len() - i,
    {
        let (s, e) = v[i];
        if s <= cur.1 {
            if e > cur.1 {
                cur = (cur.0, e);
            }
        } else {
            r.push(cur);
            cur = (s, e);
        }
        i += 1;
    }
    r.push(cur);
    r
}

} // verus!
