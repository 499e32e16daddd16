use vstd::prelude::*;
use vstd::pervasive::VecAdditionalExecFns;

use crate::rect::Rect;
use crate::tracker_roi::{spec_after_hit, spec_after_miss, spec_distance, RoiState, TrackerRoi};

verus! {

/// Mathematical model of a tracker: the live regions in list order, the id
/// counter, and the hysteresis threshold.
#[verifier::ext_equal]
pub struct TrackerView {
    pub rois: Seq<TrackerRoi>,
    pub id_counter: int,
    pub allowable_not_detect_count: int,
}

/// Index of the detection that `roi` greedily picks among the first `n`
/// detections: the still-unmatched one at minimal squared centre distance,
/// ties broken in favour of the earliest index.
pub open spec fn best_unmatched(
    roi: TrackerRoi,
    faces: Seq<Rect>,
    matched: Seq<bool>,
    n: nat,
) -> Option<int>
    decreases n,
{
    if n == 0 {
        None
    } else {
        let prev = best_unmatched(roi, faces, matched, (n - 1) as nat);
        let i = n - 1;
        if matched[i as int] {
            prev
        } else {
            match prev {
                None => Some(i as int),
                Some(j) => if spec_distance(roi, faces[i as int]) < spec_distance(roi, faces[j]) {
                    Some(i as int)
                } else {
                    Some(j)
                },
            }
        }
    }
}

/// One region's transition for the tick: it takes its best unmatched
/// detection if there is one, and is marked missed otherwise.
pub open spec fn step_roi(
    roi: TrackerRoi,
    faces: Seq<Rect>,
    matched: Seq<bool>,
) -> (TrackerRoi, Seq<bool>) {
    match best_unmatched(roi, faces, matched, faces.len()) {
        None => (spec_after_miss(roi), matched),
        Some(j) => (spec_after_hit(roi, faces[j]), matched.update(j, true)),
    }
}

/// The matching phase: regions choose in list order, earlier regions first,
/// each consuming at most one detection.
pub open spec fn match_phase(
    rois: Seq<TrackerRoi>,
    faces: Seq<Rect>,
    matched: Seq<bool>,
) -> (Seq<TrackerRoi>, Seq<bool>)
    decreases rois.len(),
{
    if rois.len() == 0 {
        (Seq::empty(), matched)
    } else {
        let (first, m1) = step_roi(rois[0], faces, matched);
        let (rest, m2) = match_phase(rois.drop_first(), faces, m1);
        (seq![first] + rest, m2)
    }
}

/// A region survives the removal step while it is detected, or while its
/// miss streak has not exceeded the threshold.
pub open spec fn keeps(roi: TrackerRoi, allowable: int) -> bool {
    roi.state is DETECTED || roi.not_detected_count <= allowable
}

/// The regions that survive the removal step, in list order.
pub open spec fn kept_rois(rois: Seq<TrackerRoi>, allowable: int) -> Seq<TrackerRoi> {
    rois.filter(|roi: TrackerRoi| keeps(roi, allowable))
}

/// The regions dropped by the removal step, in list order.
pub open spec fn removed_rois(rois: Seq<TrackerRoi>, allowable: int) -> Seq<TrackerRoi> {
    rois.filter(|roi: TrackerRoi| !keeps(roi, allowable))
}

/// A region freshly created from a detection.
pub open spec fn spec_new_roi(id: int, r: Rect) -> TrackerRoi {
    TrackerRoi {
        id: id as u32,
        tl_x: r.x,
        tl_y: r.y,
        width: r.width,
        height: r.height,
        state: RoiState::DETECTED,
        not_detected_count: 0,
    }
}

/// The regions created from the unmatched detections among the first `n`,
/// in detection input order, with consecutive ids above `counter`.
pub open spec fn added_rois_prefix(
    faces: Seq<Rect>,
    matched: Seq<bool>,
    counter: int,
    n: nat,
) -> Seq<TrackerRoi>
    decreases n,
{
    if n == 0 {
        Seq::empty()
    } else {
        let rest = added_rois_prefix(faces, matched, counter, (n - 1) as nat);
        let i = n - 1;
        if matched[i as int] {
            rest
        } else {
            rest.push(spec_new_roi(counter + rest.len() + 1, faces[i as int]))
        }
    }
}

/// The regions created from all unmatched detections.
pub open spec fn added_rois(faces: Seq<Rect>, matched: Seq<bool>, counter: int) -> Seq<TrackerRoi> {
    added_rois_prefix(faces, matched, counter, faces.len())
}

/// The complete transition of one `track` call: match greedily, drop the
/// regions whose miss streak exceeded the threshold, then append a fresh
/// region for every detection left unmatched. Returns the new tracker
/// state, the added regions and the removed regions.
pub open spec fn spec_track(t: TrackerView, faces: Seq<Rect>) -> (TrackerView, Seq<TrackerRoi>, Seq<TrackerRoi>) {
    let (updated, matched) = match_phase(t.rois, faces, Seq::new(faces.len(), |i: int| false));
    let kept = kept_rois(updated, t.allowable_not_detect_count);
    let removed = removed_rois(updated, t.allowable_not_detect_count);
    let added = added_rois(faces, matched, t.id_counter);
    (
        TrackerView {
            rois: kept + added,
            id_counter: t.id_counter + added.len(),
            allowable_not_detect_count: t.allowable_not_detect_count,
        },
        added,
        removed,
    )
}

/// Ids are strictly increasing in list order (hence unique).
pub open spec fn ids_increasing(rois: Seq<TrackerRoi>) -> bool {
    forall|i: int, j: int|
        0 <= i < j < rois.len() ==> (#[trigger] rois[i]).id < (#[trigger] rois[j]).id
}

/// Every id lies between 1 and `bound`.
pub open spec fn ids_bounded(rois: Seq<TrackerRoi>, bound: int) -> bool {
    forall|i: int| 0 <= i < rois.len() ==> 1 <= (#[trigger] rois[i]).id <= bound
}

/// A detected region has an empty miss streak; a missed region's streak is
/// within the threshold.
pub open spec fn counts_ok(rois: Seq<TrackerRoi>, allowable: int) -> bool {
    forall|i: int|
        0 <= i < rois.len() ==> {
            &&& ((#[trigger] rois[i]).state is DETECTED ==> rois[i].not_detected_count == 0)
            &&& (rois[i].state is NOTDETECTED ==> rois[i].not_detected_count <= allowable)
        }
}

/// Well-formedness of a tracker: ids are at least 1, at most the counter,
/// and strictly increasing in list order (hence unique); the miss counters
/// obey the hysteresis rule; and the counter and threshold fit their
/// machine words.
pub open spec fn wf(t: TrackerView) -> bool {
    &&& ids_increasing(t.rois)
    &&& ids_bounded(t.rois, t.id_counter)
    &&& counts_ok(t.rois, t.allowable_not_detect_count)
    &&& 0 <= t.id_counter <= u32::MAX
    &&& 0 <= t.allowable_not_detect_count <= u32::MAX
}

/// A simple greedy tracker over axis-aligned rectangles. It assigns each
/// frame's detections to the live regions region-first (earlier regions get
/// first choice of their nearest detection), removes regions whose miss
/// streak exceeds `allowable_not_detect_count`, and opens a fresh region,
/// with a never-reused id, for every detection left unmatched.
pub struct Tracker {
    pub rois: Vec<TrackerRoi>,
    pub id_counter: u32,
    pub allowable_not_detect_count: u32,
}

impl View for Tracker {
    type V = TrackerView;

    open spec fn view(&self) -> TrackerView {
        TrackerView {
            rois: self.rois@,
            id_counter: self.id_counter as int,
            allowable_not_detect_count: self.allowable_not_detect_count as int,
        }
    }
}

impl Tracker {
    /// A fresh tracker with the given hysteresis threshold: no regions, ids
    /// starting above 0.
    pub fn new(allowable_not_detect_count: u32) -> (t: Tracker)
        ensures
            t@.rois =~= Seq::<TrackerRoi>::empty(),
            t@.id_counter == 0,
            t@.allowable_not_detect_count == allowable_not_detect_count,
            wf(t@),
    {
        Tracker { rois: Vec::new(), id_counter: 0, allowable_not_detect_count }
    }

    /// The ids of the live regions, in list order.
    pub fn ids(&self) -> (ids: Vec<u32>)
        ensures
            ids@ =~= self@.rois.map_values(|roi: TrackerRoi| roi.id),
    {
        let mut ids: Vec<u32> = Vec::new();
        let mut i: usize = 0;
        while i < self.rois.len()
            invariant
                i <= self.rois@.len(),
                ids@ =~= self.rois@.take(i as int).map_values(|roi: TrackerRoi| roi.id),
            decreases self.rois@.len() - i,
        {
            ids.push(self.rois[i].id);
            proof {
                assert(self.rois@.take(i + 1).drop_last() =~= self.rois@.take(i as int));
                assert(self.rois@.take(i + 1).map_values(|roi: TrackerRoi| roi.id) =~= ids@);
            }
            i = i + 1;
        }
        proof {
            assert(self.rois@.take(self.rois@.len() as int) =~= self.rois@);
        }
        ids
    }

    /// The live regions, in list order.
    pub fn rois(&self) -> (rois: &Vec<TrackerRoi>)
        ensures
            rois@ == self@.rois,
    {
        &self.rois
    }

    /// Advance the tracker by one frame of detections, returning the added
    /// and the removed regions. The whole transition is `spec_track`.
    pub fn track(&mut self, faces: &Vec<Rect>) -> (r: (Vec<TrackerRoi>, Vec<TrackerRoi>))
        requires
            wf(old(self)@),
            old(self).id_counter + faces@.len() <= u32::MAX,
        ensures
            final(self)@ =~= spec_track(old(self)@, faces@).0,
            r.0@ =~= spec_track(old(self)@, faces@).1,
            r.1@ =~= spec_track(old(self)@, faces@).2,
            wf(final(self)@),
    {
        proof {
            crate::tracker_laws::lemma_track_preserves_wf(self@, faces@);
        }
        let ghost t0 = self@;
        let ghost m0 = Seq::new(faces@.len(), |i: int| false);
        let face_count = faces.len();

        // All detections start unmatched.
        let mut matched: Vec<bool> = Vec::new();
        while matched.len() < face_count
            invariant
                matched@.len() <= face_count,
                matched@ =~= Seq::new(matched@.len(), |i: int| false),
            decreases face_count - matched@.len(),
        {
            matched.push(false);
        }
        proof {
            assert(matched@ =~= m0);
        }

        // Matching phase: each region, in list order, takes the nearest
        // still-unmatched detection, or is marked missed.
        let mut updated: Vec<TrackerRoi> = Vec::new();
        let mut idx: usize = 0;
        while idx < self.rois.len()
            invariant
                *self == *old(self),
                wf(self@),
                idx <= self.rois@.len(),
                faces@.len() == face_count,
                matched@.len() == face_count,
                updated@ =~= match_phase(self.rois@.take(idx as int), faces@, m0).0,
                matched@ =~= match_phase(self.rois@.take(idx as int), faces@, m0).1,
            decreases self.rois@.len() - idx,
        {
            let roi = self.rois[idx];

            // Scan for the nearest still-unmatched detection.
            let mut has_best: bool = false;
            let mut best_j: usize = 0;
            let mut best_d: i128 = 0;
            let mut j: usize = 0;
            while j < face_count
                invariant
                    j <= face_count,
                    faces@.len() == face_count,
                    matched@.len() == face_count,
                    !has_best ==> best_unmatched(roi, faces@, matched@, j as nat) is None,
                    has_best ==> {
                        &&& best_j < j
                        &&& best_unmatched(roi, faces@, matched@, j as nat) == Some(best_j as int)
                        &&& best_d == spec_distance(roi, faces@[best_j as int])
                        &&& !matched@[best_j as int]
                    },
                decreases face_count - j,
            {
                if !matched[j] {
                    let d = roi.distance_with_rect(&faces[j]);
                    if !has_best {
                        has_best = true;
                        best_j = j;
                        best_d = d;
                    } else if d < best_d {
                        best_j = j;
                        best_d = d;
                    }
                }
                j = j + 1;
            }

            if has_best {
                matched.set(best_j, true);
                let face = faces[best_j];
                let mut new_roi = roi;
                new_roi.tl_x = face.x;
                new_roi.tl_y = face.y;
                new_roi.width = face.width;
                new_roi.height = face.height;
                new_roi.detected();
                updated.push(new_roi);
            } else {
                let mut new_roi = roi;
                proof {
                    assert(new_roi.not_detected_count <= u32::MAX);
                }
                new_roi.not_detected();
                updated.push(new_roi);
            }

            proof {
                lemma_match_phase_push(
                    self.rois@.take(idx as int),
                    self.rois@[idx as int],
                    faces@,
                    m0,
                );
                assert(self.rois@.take(idx as int).push(self.rois@[idx as int]) =~= self.rois@.take(
                    idx + 1,
                ));
            }
            idx = idx + 1;
        }
        proof {
            assert(self.rois@.take(self.rois@.len() as int) =~= self.rois@);
        }

        // Removal phase: keep detected regions and regions within the
        // threshold; everything else is reported removed.
        let ghost allow = self@.allowable_not_detect_count;
        let mut new_rois: Vec<TrackerRoi> = Vec::new();
        let mut removed: Vec<TrackerRoi> = Vec::new();
        let mut i: usize = 0;
        while i < updated.len()
            invariant
                *self == *old(self),
                allow == self@.allowable_not_detect_count,
                i <= updated@.len(),
                new_rois@ =~= kept_rois(updated@.take(i as int), allow),
                removed@ =~= removed_rois(updated@.take(i as int), allow),
            decreases updated@.len() - i,
        {
            let roi = updated[i];
            let keep = match roi.state {
                RoiState::DETECTED => true,
                RoiState::NOTDETECTED => roi.not_detected_count
                    <= self.allowable_not_detect_count as u64,
            };
            if keep {
                new_rois.push(roi);
            } else {
                removed.push(roi);
            }
            proof {
                lemma_kept_removed_push(updated@.take(i as int), updated@[i as int], allow);
                assert(updated@.take(i as int).push(updated@[i as int]) =~= updated@.take(i + 1));
            }
            i = i + 1;
        }
        proof {
            assert(updated@.take(updated@.len() as int) =~= updated@);
        }
        self.rois = new_rois;

        // Addition phase: a fresh region for every detection left
        // unmatched, in detection input order.
        let ghost counter0 = t0.id_counter;
        let ghost mf = matched@;
        let ghost kept = self.rois@;
        let mut added: Vec<TrackerRoi> = Vec::new();
        let mut k: usize = 0;
        while k < face_count
            invariant
                k <= face_count,
                faces@.len() == face_count,
                matched@ == mf,
                matched@.len() == face_count,
                counter0 + face_count <= u32::MAX,
                self.id_counter == counter0 + added@.len(),
                added@.len() <= k,
                added@ =~= added_rois_prefix(faces@, mf, counter0, k as nat),
                self.rois@ =~= kept + added@,
                self.allowable_not_detect_count == old(self).allowable_not_detect_count,
            decreases face_count - k,
        {
            if !matched[k] {
                self.id_counter = self.id_counter + 1;
                let face = faces[k];
                let roi = TrackerRoi::new(self.id_counter, face.x, face.y, face.width, face.height);
                added.push(roi);
                self.rois.push(roi);
            }
            k = k + 1;
        }

        (added, removed)
    }
}

/// Processing one more region at the end of the list runs the matching
/// phase on the prefix, then lets the new region pick among what is left.
pub proof fn lemma_match_phase_push(
    rois: Seq<TrackerRoi>,
    x: TrackerRoi,
    faces: Seq<Rect>,
    matched: Seq<bool>,
)
    ensures
        match_phase(rois.push(x), faces, matched).0 =~= match_phase(rois, faces, matched).0.push(
            step_roi(x, faces, match_phase(rois, faces, matched).1).0,
        ),
        match_phase(rois.push(x), faces, matched).1 == step_roi(
            x,
            faces,
            match_phase(rois, faces, matched).1,
        ).1,
    decreases rois.len(),
{
    if rois.len() == 0 {
        let stepped = step_roi(x, faces, matched);
        assert(rois.push(x)[0] == x);
        assert(rois.push(x).drop_first() =~= Seq::<TrackerRoi>::empty());
        assert(match_phase(rois.push(x), faces, matched) == (
            seq![stepped.0] + match_phase(Seq::<TrackerRoi>::empty(), faces, stepped.1).0,
            match_phase(Seq::<TrackerRoi>::empty(), faces, stepped.1).1,
        ));
        assert(match_phase(Seq::<TrackerRoi>::empty(), faces, stepped.1).0 =~= Seq::<
            TrackerRoi,
        >::empty());
        assert(match_phase(rois, faces, matched).0 =~= Seq::<TrackerRoi>::empty());
        assert(match_phase(rois, faces, matched).1 == matched);
        assert(seq![stepped.0] + Seq::<TrackerRoi>::empty() =~= Seq::<
            TrackerRoi,
        >::empty().push(stepped.0));
    } else {
        assert(rois.push(x)[0] == rois[0]);
        assert(rois.push(x).drop_first() =~= rois.drop_first().push(x));
        let m1 = step_roi(rois[0], faces, matched).1;
        lemma_match_phase_push(rois.drop_first(), x, faces, m1);
        let u = match_phase(rois.drop_first(), faces, m1).0;
        let mrest = match_phase(rois.drop_first(), faces, m1).1;
        let x2 = step_roi(x, faces, mrest).0;
        assert(match_phase(rois.push(x), faces, matched).0 =~= seq![
            step_roi(rois[0], faces, matched).0,
        ] + u.push(x2));
        assert(match_phase(rois, faces, matched).0 == seq![step_roi(rois[0], faces, matched).0]
            + u);
        assert(seq![step_roi(rois[0], faces, matched).0] + u.push(x2) =~= (seq![
            step_roi(rois[0], faces, matched).0,
        ] + u).push(x2));
    }
}

/// Filtering one more region appends it to the kept or to the removed side
/// according to the removal rule.
pub proof fn lemma_kept_removed_push(s: Seq<TrackerRoi>, x: TrackerRoi, allowable: int)
    ensures
        kept_rois(s.push(x), allowable) =~= if keeps(x, allowable) {
            kept_rois(s, allowable).push(x)
        } else {
            kept_rois(s, allowable)
        },
        removed_rois(s.push(x), allowable) =~= if !keeps(x, allowable) {
            removed_rois(s, allowable).push(x)
        } else {
            removed_rois(s, allowable)
        },
{
    reveal(Seq::filter);
    assert(s.push(x).drop_last() =~= s);
    assert(s.push(x).last() == x);
}

} // verus!
