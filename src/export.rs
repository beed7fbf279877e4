//! Collecting the exclusion events of a dataset: one per excluded sample, keyed by
//! the mast and sensor of its series and by the exclusion reason.
use vstd::prelude::*;
use crate::dataset::{Sample, Series};
use crate::exclusions::{ExclusionEvent, GroupKey, KeyView};
use crate::names::{split_pieces, unwrap_name};

verus! {

pub open spec fn name_ok(name: Seq<char>) -> bool {
    let pieces = split_pieces(name, '~');
    pieces.len() == 2 || pieces.len() == 3
}

pub open spec fn is_excluded(s: Sample) -> bool {
    s is Excluded
}

pub open spec fn has_excluded(data: Seq<Sample>) -> bool {
    exists|j: int| 0 <= j < data.len() && is_excluded(#[trigger] data[j])
}

/// The events of the first `n` samples of one series, keyed by `mast`, `sensor`
/// and each sample's reason, timed by the shared index.
pub open spec fn series_events(data: Seq<Sample>, times: Seq<i64>, mast: Seq<char>, sensor: Seq<char>, n: int) -> Seq<(KeyView, i64)>
    decreases n,
{
    if n <= 0 {
        Seq::empty()
    } else {
        let rest = series_events(data, times, mast, sensor, n - 1);
        match data[n - 1] {
            Sample::Excluded(_, reason) => rest.push(((mast, sensor, reason@), times[n - 1])),
            _ => rest,
        }
    }
}

/// The events of the first `m` series, series by series.
pub open spec fn dataset_events(series: Seq<Series>, times: Seq<i64>, m: int) -> Seq<(KeyView, i64)>
    decreases m,
{
    if m <= 0 {
        Seq::empty()
    } else {
        let s = series[m - 1];
        let pieces = split_pieces(s.name@, '~');
        dataset_events(series, times, m - 1) + series_events(s.data@, times, pieces[0], pieces[1], s.data@.len() as int)
    }
}

pub open spec fn event_views(v: Seq<ExclusionEvent>) -> Seq<(KeyView, i64)> {
    v.map_values(|e: ExclusionEvent| (e.key@, e.timestamp))
}

/// The exclusion events of all series, each timed by the shared index `times`.
/// Fails when a series that holds an excluded sample has a name that is not
/// `mast~sensor` or `mast~sensor~extra`.
pub fn exclusion_events(series: &Vec<Series>, times: &Vec<i64>) -> (r: Result<Vec<ExclusionEvent>, String>)
    requires
        forall|i: int| 0 <= i < series@.len() ==> (#[trigger] series@[i]).data@.len() == times@.len(),
    ensures
        r is Err <==> exists|i: int| 0 <= i < series@.len() && has_excluded((#[trigger] series@[i]).data@)
            && !name_ok(series@[i].name@),
        r matches Ok(v) ==> event_views(v@) == dataset_events(series@, times@, series@.len() as int),
{
    let mut out: Vec<ExclusionEvent> = Vec::new();
    let mut i: usize = 0;
    while i < series.len()
        invariant
            i <= series@.len(),
            forall|i: int| 0 <= i < series@.len() ==> (#[trigger] series@[i]).data@.len() == times@.len(),
            forall|k: int| 0 <= k < i ==> !(has_excluded((#[trigger] series@[k]).data@) && !name_ok(series@[k].name@)),
            event_views(out@) == dataset_events(series@, times@, i as int),
        decreases series@.len() - i,
    {
        let s = &series[i];
        let ghost base = out@;
        let mut names: Option<(String, String)> = None;
        let mut j: usize = 0;
        while j < s.data.len()
            invariant
                i < series@.len(),
                j <= s.data@.len(),
                s.data@.len() == times@.len(),
                s == series@[i as int],
                names is None ==> forall|x: int| 0 <= x < j ==> !is_excluded(#[trigger] s.data@[x]),
                names matches Some((m, n)) ==> name_ok(s.name@) && m@ == split_pieces(s.name@, '~')[0]
                    && n@ == split_pieces(s.name@, '~')[1],
                event_views(out@) == event_views(base) + series_events(s.data@, times@,
                    split_pieces(s.name@, '~')[0], split_pieces(s.name@, '~')[1], j as int),
            decreases s.data@.len() - j,
        {
            match &s.data[j] {
                Sample::Excluded(_, reason) => {
                    if names.is_none() {
                        match unwrap_name(s.name.as_str()) {
                            Ok(pair) => {
                                names = Some(pair);
                            },
                            Err(e) => {
                                proof {
                                    assert(is_excluded(s.data@[j as int]));
                                    assert(has_excluded(series@[i as int].data@));
                                }
                                return Err(e);
                            },
                        }
                    }
                    match &names {
                        Some((mast, sensor)) => {
                            let ghost prev = out@;
                            out.push(ExclusionEvent {
                                key: GroupKey::new(mast.clone(), sensor.clone(), reason.clone()),
                                timestamp: times[j],
                            });
                            proof {
                                assert(event_views(out@) == event_views(prev).push((out@.last().key@, times@[j as int])));
                            }
                        },
                        None => {},
                    }
                },
                _ => {},
            }
            j += 1;
        }
        proof {
            if has_excluded(s.data@) {
                assert(names is Some);
            }
            assert(dataset_events(series@, times@, i + 1) == dataset_events(series@, times@, i as int)
                + series_events(s.data@, times@, split_pieces(s.name@, '~')[0], split_pieces(s.name@, '~')[1], s.data@.len() as int));
        }
        i += 1;
    }
    Ok(out)
}

} // verus!
