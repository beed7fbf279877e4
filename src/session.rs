//! The state of a cleaning session: the loaded series, the chosen axes and the
//! curve being drawn, and the exclusion step that applies a closed curve.
use vstd::prelude::*;
use crate::dataset::{
    Curve, CurveError, Sample, Series, classified, classify_containment, convert_points,
    exclude_samples, masked, pair_point_of,
};

verus! {

#[derive(Clone, Copy, Debug, PartialEq, Eq, Structural)]
pub enum ExcludeError {
    MissingReason,
    TooFewPoints,
    NotClosed,
}

pub struct CleaningSession {
    pub series: Vec<Series>,
    pub x_axis: usize,
    pub y_axis: usize,
    pub exclude_x: bool,
    pub exclude_y: bool,
    pub reason: String,
    pub exclusion_names: Vec<String>,
    pub curve: Curve,
}

/// Whether the sample pair at `i` of the chosen axes lies inside the curve.
pub open spec fn selected(s: CleaningSession, i: int) -> bool {
    classified(s.curve.points@, pair_point_of(s.series@[s.x_axis as int].data@[i], s.series@[s.y_axis as int].data@[i]))
}

impl CleaningSession {
    /// Both axes name a series, and all series have the same length.
    pub open spec fn wf(&self) -> bool {
        &&& self.x_axis < self.series@.len()
        &&& self.y_axis < self.series@.len()
        &&& forall|a: int| 0 <= a < self.series@.len() ==> (#[trigger] self.series@[a]).data@.len()
            == self.series@[self.x_axis as int].data@.len()
    }

    /// The session's reason is already among the recorded exclusion names.
    pub open spec fn knows_reason(&self) -> bool {
        exists|m: int| 0 <= m < self.exclusion_names@.len() && (#[trigger] self.exclusion_names@[m])@ == self.reason@
    }

    /// Series `a` is one of the axes chosen for exclusion.
    pub open spec fn excludes_axis(&self, a: int) -> bool {
        (a == self.x_axis && self.exclude_x) || (a == self.y_axis && self.exclude_y)
    }

    fn exclude_axis(&mut self, a: usize, mask: &Vec<bool>)
        requires
            old(self).wf(),
            a < old(self).series@.len(),
            mask@.len() == old(self).series@[a as int].data@.len(),
        ensures
            final(self).wf(),
            final(self).x_axis == old(self).x_axis,
            final(self).y_axis == old(self).y_axis,
            final(self).exclude_x == old(self).exclude_x,
            final(self).exclude_y == old(self).exclude_y,
            final(self).reason == old(self).reason,
            final(self).exclusion_names == old(self).exclusion_names,
            final(self).curve == old(self).curve,
            final(self).series@.len() == old(self).series@.len(),
            forall|b: int| 0 <= b < old(self).series@.len() && b != a ==> #[trigger] final(self).series@[b] == old(self).series@[b],
            final(self).series@[a as int].name == old(self).series@[a as int].name,
            final(self).series@[a as int].data@.len() == mask@.len(),
            forall|i: int| 0 <= i < mask@.len() ==> #[trigger] final(self).series@[a as int].data@[i]
                == masked(old(self).series@[a as int].data@[i], mask@[i], old(self).reason),
    {
        let mut s = self.series.remove(a);
        exclude_samples(&mut s.data, mask, &self.reason);
        self.series.insert(a, s);
    }

    /// Excludes, with the session's reason, the valid samples of the chosen axes whose
    /// pair lies inside the closed curve; records the reason and clears the curve.
    pub fn exclude_data(&mut self) -> (r: Result<(), ExcludeError>)
        requires
            old(self).wf(),
        ensures
            old(self).reason@.len() == 0 ==> r == Err::<(), ExcludeError>(ExcludeError::MissingReason),
            old(self).reason@.len() != 0 && old(self).curve.points@.len() < 3
                ==> r == Err::<(), ExcludeError>(ExcludeError::TooFewPoints),
            old(self).reason@.len() != 0 && old(self).curve.points@.len() >= 3 && !old(self).curve.closed
                ==> r == Err::<(), ExcludeError>(ExcludeError::NotClosed),
            r is Err ==> *final(self) == *old(self),
            r is Ok <==> (old(self).reason@.len() != 0 && old(self).curve.points@.len() >= 3 && old(self).curve.closed),
            r is Ok ==> {
                &&& final(self).wf()
                &&& final(self).curve.points@.len() == 0
                &&& !final(self).curve.closed
                &&& final(self).x_axis == old(self).x_axis
                &&& final(self).y_axis == old(self).y_axis
                &&& final(self).exclude_x == old(self).exclude_x
                &&& final(self).exclude_y == old(self).exclude_y
                &&& final(self).reason == old(self).reason
                &&& final(self).series@.len() == old(self).series@.len()
                &&& if old(self).knows_reason() {
                    final(self).exclusion_names@ == old(self).exclusion_names@
                } else {
                    &&& final(self).exclusion_names@.len() == old(self).exclusion_names@.len() + 1
                    &&& final(self).exclusion_names@.last()@ == old(self).reason@
                    &&& forall|m: int| 0 <= m < old(self).exclusion_names@.len()
                        ==> #[trigger] final(self).exclusion_names@[m] == old(self).exclusion_names@[m]
                }
                &&& forall|a: int| 0 <= a < old(self).series@.len() ==> (#[trigger] final(self).series@[a]).name
                    == old(self).series@[a].name
                    && final(self).series@[a].data@.len() == old(self).series@[a].data@.len()
                &&& forall|a: int, i: int| 0 <= a < old(self).series@.len() && 0 <= i < old(self).series@[a].data@.len()
                    ==> #[trigger] final(self).series@[a].data@[i] == if old(self).excludes_axis(a) {
                        masked(old(self).series@[a].data@[i], selected(*old(self), i), old(self).reason)
                    } else {
                        old(self).series@[a].data@[i]
                    }
            },
    {
        if self.reason.as_str().is_empty() {
            return Err(ExcludeError::MissingReason);
        }
        let points = convert_points(&self.series[self.x_axis].data, &self.series[self.y_axis].data);
        let mask = match classify_containment(&self.curve, &points) {
            Ok(m) => m,
            Err(CurveError::TooFewPoints) => {
                return Err(ExcludeError::TooFewPoints);
            },
            Err(CurveError::NotClosed) => {
                return Err(ExcludeError::NotClosed);
            },
        };
        let ghost before = *self;
        let mut known = false;
        let mut m: usize = 0;
        while m < self.exclusion_names.len()
            invariant
                m <= self.exclusion_names@.len(),
                known == exists|x: int| 0 <= x < m && (#[trigger] self.exclusion_names@[x])@ == self.reason@,
            decreases self.exclusion_names@.len() - m,
        {
            if self.exclusion_names[m] == self.reason {
                known = true;
            }
            m += 1;
        }
        if !known {
            let name = self.reason.clone();
            self.exclusion_names.push(name);
            proof {
                assert(self.exclusion_names@[self.exclusion_names@.len() - 1]@ == self.reason@);
            }
        }
        let ghost named = self.exclusion_names@;
        if self.exclude_x {
            let a = self.x_axis;
            self.exclude_axis(a, &mask);
        }
        if self.exclude_y {
            let a = self.y_axis;
            self.exclude_axis(a, &mask);
        }
        self.curve = Curve { points: Vec::new(), closed: false };
        proof {
            assert(self.exclusion_names@ == named);
            assert forall|a: int, i: int| 0 <= a < before.series@.len() && 0 <= i < before.series@[a].data@.len()
                implies #[trigger] self.series@[a].data@[i] == if before.excludes_axis(a) {
                    masked(before.series@[a].data@[i], selected(before, i), before.reason)
                } else {
                    before.series@[a].data@[i]
                } by {
                assert(before.series@[a].data@.len() == before.series@[before.x_axis as int].data@.len());
            }
        }
        Ok(())
    }
}

} // verus!
