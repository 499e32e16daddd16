//! Proved laws of the tracker: freshness and monotonicity of ids,
//! preservation of well-formedness, the effect of an empty detection set,
//! the reset on re-detection, the shape of the added regions, and
//! idempotence of `track` on an unchanged detection set.

use vstd::prelude::*;

use crate::rect::Rect;
use crate::tracker::{
    added_rois, added_rois_prefix, best_unmatched, ids_increasing, kept_rois, keeps, match_phase,
    removed_rois, spec_new_roi, spec_track, step_roi, wf, TrackerView,
};
use crate::tracker_roi::{spec_after_hit, spec_after_miss, spec_distance, TrackerRoi};

verus! {

/// A squared distance is never negative.
pub proof fn lemma_distance_nonneg(roi: TrackerRoi, r: Rect)
    ensures
        spec_distance(roi, r) >= 0,
{
    let dx = crate::rect::doubled_center_x(roi.tl_x as int, roi.width as int)
        - r.spec_doubled_center_x();
    let dy = crate::rect::doubled_center_y(roi.tl_y as int, roi.height as int)
        - r.spec_doubled_center_y();
    assert(dx * dx >= 0) by (nonlinear_arith);
    assert(dy * dy >= 0) by (nonlinear_arith);
}

/// What the greedy choice returns: `None` exactly when every detection in
/// the prefix is matched; otherwise an unmatched index at minimal distance,
/// and the earliest such index on ties.
pub proof fn lemma_best_unmatched_props(
    roi: TrackerRoi,
    faces: Seq<Rect>,
    matched: Seq<bool>,
    n: nat,
)
    ensures
        best_unmatched(roi, faces, matched, n) is None <==> (forall|k: int|
            0 <= k < n ==> matched[k]),
        best_unmatched(roi, faces, matched, n) matches Some(j) ==> {
            &&& 0 <= j < n
            &&& !matched[j]
            &&& forall|k: int|
                0 <= k < n && !matched[k] ==> spec_distance(roi, faces[j]) <= spec_distance(
                    roi,
                    faces[k],
                )
            &&& forall|k: int|
                0 <= k < j && !matched[k] ==> spec_distance(roi, faces[k]) > spec_distance(
                    roi,
                    faces[j],
                )
        },
    decreases n,
{
    if n > 0 {
        lemma_best_unmatched_props(roi, faces, matched, (n - 1) as nat);
    }
}

/// The matching phase transforms each region pointwise: a region either
/// took one of the detections or was marked missed, and the matched flags
/// only ever turn on.
pub proof fn lemma_match_phase_elems(rois: Seq<TrackerRoi>, faces: Seq<Rect>, matched: Seq<bool>)
    requires
        matched.len() == faces.len(),
    ensures
        match_phase(rois, faces, matched).0.len() == rois.len(),
        match_phase(rois, faces, matched).1.len() == matched.len(),
        forall|i: int|
            0 <= i < rois.len() ==> (#[trigger] match_phase(rois, faces, matched).0[i]
                == spec_after_miss(rois[i]) || exists|j: int|
                0 <= j < faces.len() && match_phase(rois, faces, matched).0[i] == spec_after_hit(
                    rois[i],
                    faces[j],
                )),
        forall|k: int|
            0 <= k < matched.len() && matched[k] ==> #[trigger] match_phase(
                rois,
                faces,
                matched,
            ).1[k],
    decreases rois.len(),
{
    if rois.len() > 0 {
        let stepped = step_roi(rois[0], faces, matched);
        lemma_best_unmatched_props(rois[0], faces, matched, faces.len());
        lemma_match_phase_elems(rois.drop_first(), faces, stepped.1);
        let out = match_phase(rois, faces, matched).0;
        let rest = match_phase(rois.drop_first(), faces, stepped.1).0;
        assert(match_phase(rois, faces, matched).1 == match_phase(
            rois.drop_first(),
            faces,
            stepped.1,
        ).1);
        assert(stepped.1.len() == matched.len());
        assert forall|k: int|
            0 <= k < matched.len() && matched[k] implies #[trigger] match_phase(
            rois,
            faces,
            matched,
        ).1[k] by {
            assert(stepped.1[k]);
        }
        assert forall|i: int| 0 <= i < rois.len() implies (#[trigger] out[i] == spec_after_miss(
            rois[i],
        ) || exists|j: int|
            0 <= j < faces.len() && out[i] == spec_after_hit(rois[i], faces[j])) by {
            if i == 0 {
                assert(out[0] == stepped.0);
            } else {
                assert(out[i] == rest[i - 1]);
                assert(rois.drop_first()[i - 1] == rois[i]);
            }
        }
    }
}

/// The removal step partitions the region list: both halves keep their
/// relative order (so strictly increasing ids stay strictly increasing),
/// every kept region satisfies the removal rule, every removed one
/// violates it, and both consist of regions of the input list.
pub proof fn lemma_filter_elems(s: Seq<TrackerRoi>, allowable: int)
    ensures
        kept_rois(s, allowable).len() + removed_rois(s, allowable).len() == s.len(),
        forall|k: int|
            0 <= k < kept_rois(s, allowable).len() ==> keeps(
                #[trigger] kept_rois(s, allowable)[k],
                allowable,
            ) && exists|i: int| 0 <= i < s.len() && kept_rois(s, allowable)[k] == s[i],
        forall|k: int|
            0 <= k < removed_rois(s, allowable).len() ==> !keeps(
                #[trigger] removed_rois(s, allowable)[k],
                allowable,
            ) && exists|i: int| 0 <= i < s.len() && removed_rois(s, allowable)[k] == s[i],
        ids_increasing(s) ==> ids_increasing(kept_rois(s, allowable)) && ids_increasing(
            removed_rois(s, allowable),
        ),
    decreases s.len(),
{
    reveal(Seq::filter);
    if s.len() > 0 {
        let d = s.drop_last();
        lemma_filter_elems(d, allowable);
        assert(forall|i: int| 0 <= i < d.len() ==> #[trigger] d[i] == s[i]);
        if ids_increasing(s) {
            assert(ids_increasing(d));
            assert forall|i: int| 0 <= i < d.len() implies (#[trigger] d[i]).id < s.last().id by {
                assert(s[i].id < s[s.len() - 1].id);
            }
            if keeps(s.last(), allowable) {
                let kd = kept_rois(d, allowable);
                assert(kept_rois(s, allowable) == kd.push(s.last()));
                assert forall|i: int, j: int|
                    0 <= i < j < kd.push(s.last()).len() implies (#[trigger] kd.push(
                    s.last(),
                )[i]).id < (#[trigger] kd.push(s.last())[j]).id by {
                    if j < kd.len() {
                    } else {
                        let w = choose|w: int| 0 <= w < d.len() && kd[i] == d[w];
                        assert(kd.push(s.last())[i].id < s.last().id);
                    }
                }
            } else {
                let rd = removed_rois(d, allowable);
                assert(removed_rois(s, allowable) == rd.push(s.last()));
                assert forall|i: int, j: int|
                    0 <= i < j < rd.push(s.last()).len() implies (#[trigger] rd.push(
                    s.last(),
                )[i]).id < (#[trigger] rd.push(s.last())[j]).id by {
                    if j < rd.len() {
                    } else {
                        let w = choose|w: int| 0 <= w < d.len() && rd[i] == d[w];
                        assert(rd.push(s.last())[i].id < s.last().id);
                    }
                }
            }
        }
    }
}

/// How many detections among the first `n` are still unmatched.
pub open spec fn count_unmatched(matched: Seq<bool>, n: nat) -> int
    decreases n,
{
    if n == 0 {
        0
    } else {
        count_unmatched(matched, (n - 1) as nat) + if matched[n - 1] {
            0int
        } else {
            1int
        }
    }
}

/// With every flag off, all `n` detections count as unmatched.
pub proof fn lemma_count_unmatched_all_false(matched: Seq<bool>, n: nat)
    requires
        forall|i: int| 0 <= i < matched.len() ==> !matched[i],
        n <= matched.len(),
    ensures
        count_unmatched(matched, n) == n,
    decreases n,
{
    if n > 0 {
        lemma_count_unmatched_all_false(matched, (n - 1) as nat);
    }
}

/// Turning one flag on lowers the unmatched count by at most one.
pub proof fn lemma_count_unmatched_update(matched: Seq<bool>, j: int, n: nat)
    requires
        0 <= j < matched.len(),
        n <= matched.len(),
    ensures
        count_unmatched(matched.update(j, true), n) == count_unmatched(matched, n) - (if j < n
            && !matched[j] {
            1int
        } else {
            0int
        }),
    decreases n,
{
    if n > 0 {
        lemma_count_unmatched_update(matched, j, (n - 1) as nat);
    }
}

/// The matching phase consumes at most one detection per region.
pub proof fn lemma_match_phase_count(
    rois: Seq<TrackerRoi>,
    faces: Seq<Rect>,
    matched: Seq<bool>,
    n: nat,
)
    requires
        matched.len() == faces.len(),
        n <= faces.len(),
    ensures
        count_unmatched(match_phase(rois, faces, matched).1, n) >= count_unmatched(matched, n)
            - rois.len(),
    decreases rois.len(),
{
    if rois.len() > 0 {
        let stepped = step_roi(rois[0], faces, matched);
        lemma_best_unmatched_props(rois[0], faces, matched, faces.len());
        match best_unmatched(rois[0], faces, matched, faces.len()) {
            Some(j) => lemma_count_unmatched_update(matched, j, n),
            None => (),
        }
        lemma_match_phase_count(rois.drop_first(), faces, stepped.1, n);
    }
}

/// Shape of the regions created for the unmatched detections among the
/// first `n`: one per unmatched detection, in detection input order, with
/// consecutive ids right above `counter`, all freshly detected.
pub proof fn lemma_added_prefix_props(faces: Seq<Rect>, matched: Seq<bool>, counter: int, n: nat)
    requires
        n <= faces.len(),
        0 <= counter,
        counter + faces.len() <= u32::MAX,
    ensures
        added_rois_prefix(faces, matched, counter, n).len() == count_unmatched(matched, n),
        count_unmatched(matched, n) <= n,
        forall|k: int|
            0 <= k < added_rois_prefix(faces, matched, counter, n).len() ==> exists|i: int|
                0 <= i < n && !matched[i] && #[trigger] added_rois_prefix(
                    faces,
                    matched,
                    counter,
                    n,
                )[k] == spec_new_roi(counter + 1 + k, faces[i]),
        forall|k: int|
            0 <= k < added_rois_prefix(faces, matched, counter, n).len() ==> (
            #[trigger] added_rois_prefix(faces, matched, counter, n)[k]).id == counter + 1 + k,
    decreases n,
{
    if n > 0 {
        lemma_added_prefix_props(faces, matched, counter, (n - 1) as nat);
        let prev = added_rois_prefix(faces, matched, counter, (n - 1) as nat);
        let cur = added_rois_prefix(faces, matched, counter, n);
        if !matched[n - 1] {
            assert(cur == prev.push(spec_new_roi(counter + 1 + prev.len(), faces[n - 1])));
            assert(cur[cur.len() - 1].id == ((counter + 1 + prev.len()) as u32));
        }
    }
}

/// `track` preserves well-formedness, never lowers the id counter, and
/// assigns fresh, consecutive, strictly increasing ids to the added
/// regions — so an id, once assigned, is never reused even after its
/// region is removed.
pub proof fn lemma_track_preserves_wf(t: TrackerView, faces: Seq<Rect>)
    requires
        wf(t),
        t.id_counter + faces.len() <= u32::MAX,
    ensures
        wf(spec_track(t, faces).0),
        spec_track(t, faces).0.allowable_not_detect_count == t.allowable_not_detect_count,
        spec_track(t, faces).0.id_counter == t.id_counter + spec_track(t, faces).1.len(),
        forall|k: int|
            0 <= k < spec_track(t, faces).1.len() ==> (#[trigger] spec_track(t, faces).1[k]).id
                == t.id_counter + 1 + k,
{
    let m0 = Seq::new(faces.len(), |i: int| false);
    let upd = match_phase(t.rois, faces, m0).0;
    let mf = match_phase(t.rois, faces, m0).1;
    let allow = t.allowable_not_detect_count;
    let kept = kept_rois(upd, allow);
    let added = added_rois(faces, mf, t.id_counter);

    lemma_match_phase_elems(t.rois, faces, m0);

    assert forall|i: int| 0 <= i < upd.len() implies (#[trigger] upd[i]).id == t.rois[i].id && (
    upd[i].state is DETECTED ==> upd[i].not_detected_count == 0) by {
        assert(t.rois[i] == t.rois[i]);  // instantiate wf quantifiers
        if upd[i] == spec_after_miss(t.rois[i]) {
        } else {
            let j = choose|j: int|
                0 <= j < faces.len() && upd[i] == spec_after_hit(t.rois[i], faces[j]);
        }
    }
    assert(ids_increasing(upd));
    lemma_filter_elems(upd, allow);
    lemma_added_prefix_props(faces, mf, t.id_counter, faces.len());

    let rois2 = kept + added;
    assert forall|i: int, j: int| 0 <= i < j < rois2.len() implies (#[trigger] rois2[i]).id < (
    #[trigger] rois2[j]).id by {
        if i < kept.len() {
            let w = choose|w: int| 0 <= w < upd.len() && kept[i] == upd[w];
            if j < kept.len() {
            } else {
                assert(kept[i].id <= t.id_counter);
                assert(rois2[j].id == t.id_counter + 1 + (j - kept.len()));
            }
        } else {
            assert(rois2[i].id == t.id_counter + 1 + (i - kept.len()));
            assert(rois2[j].id == t.id_counter + 1 + (j - kept.len()));
        }
    }
    assert forall|i: int| 0 <= i < rois2.len() implies 1 <= (#[trigger] rois2[i]).id
        <= t.id_counter + added.len() by {
        if i < kept.len() {
            let w = choose|w: int| 0 <= w < upd.len() && kept[i] == upd[w];
            assert(kept[i].id <= t.id_counter);
        } else {
            assert(rois2[i].id == t.id_counter + 1 + (i - kept.len()));
        }
    }
    assert forall|i: int| 0 <= i < rois2.len() implies {
        &&& ((#[trigger] rois2[i]).state is DETECTED ==> rois2[i].not_detected_count == 0)
        &&& (rois2[i].state is NOTDETECTED ==> rois2[i].not_detected_count <= allow)
    } by {
        if i < kept.len() {
            let w = choose|w: int| 0 <= w < upd.len() && kept[i] == upd[w];
            assert(keeps(kept[i], allow));
        } else {
            let k = i - kept.len();
            let w = choose|w: int|
                0 <= w < faces.len() && !mf[w] && added[k] == spec_new_roi(
                    t.id_counter + 1 + k,
                    faces[w],
                );
        }
    }
}

/// Every region marked missed, in list order.
pub open spec fn all_missed(rois: Seq<TrackerRoi>) -> Seq<TrackerRoi> {
    rois.map_values(|roi: TrackerRoi| spec_after_miss(roi))
}

/// With no detections to match, the matching phase marks every region
/// missed and leaves the flags untouched.
pub proof fn lemma_match_phase_no_faces(rois: Seq<TrackerRoi>, matched: Seq<bool>)
    requires
        matched.len() == 0,
    ensures
        match_phase(rois, Seq::<Rect>::empty(), matched).0 =~= all_missed(rois),
        match_phase(rois, Seq::<Rect>::empty(), matched).1 == matched,
    decreases rois.len(),
{
    let faces = Seq::<Rect>::empty();
    if rois.len() > 0 {
        lemma_match_phase_no_faces(rois.drop_first(), matched);
        assert(all_missed(rois.drop_first()) =~= all_missed(rois).drop_first());
        assert(match_phase(rois, faces, matched).0 =~= seq![spec_after_miss(rois[0])]
            + all_missed(rois).drop_first());
        assert(seq![spec_after_miss(rois[0])] + all_missed(rois).drop_first() =~= all_missed(
            rois,
        ));
    }
}

/// An empty detection set drives every region one step down the miss path:
/// nothing is added, ids and the counter are unchanged, regions within the
/// hysteresis threshold are retained, the rest are removed.
pub proof fn lemma_track_empty_detections(t: TrackerView)
    requires
        wf(t),
    ensures
        spec_track(t, Seq::<Rect>::empty()).1 =~= Seq::<TrackerRoi>::empty(),
        spec_track(t, Seq::<Rect>::empty()).0.id_counter == t.id_counter,
        spec_track(t, Seq::<Rect>::empty()).0.rois =~= kept_rois(
            all_missed(t.rois),
            t.allowable_not_detect_count,
        ),
        spec_track(t, Seq::<Rect>::empty()).2 =~= removed_rois(
            all_missed(t.rois),
            t.allowable_not_detect_count,
        ),
{
    let faces = Seq::<Rect>::empty();
    let m0 = Seq::new(faces.len(), |i: int| false);
    assert(m0.len() == 0);
    lemma_match_phase_no_faces(t.rois, m0);
    assert(match_phase(t.rois, faces, m0).0 == all_missed(t.rois));
    assert(added_rois(faces, match_phase(t.rois, faces, m0).1, t.id_counter)
        =~= Seq::<TrackerRoi>::empty());
    assert(kept_rois(all_missed(t.rois), t.allowable_not_detect_count) + Seq::<
        TrackerRoi,
    >::empty() =~= kept_rois(all_missed(t.rois), t.allowable_not_detect_count));
}

/// Re-detecting a region that was in the missed state resets its miss
/// count to zero and marks it detected again, under the same id: identity
/// persists across a brief occlusion.
pub proof fn lemma_redetection_resets(roi: TrackerRoi, faces: Seq<Rect>, matched: Seq<bool>)
    requires
        roi.state is NOTDETECTED,
        best_unmatched(roi, faces, matched, faces.len()) is Some,
    ensures
        step_roi(roi, faces, matched).0.id == roi.id,
        step_roi(roi, faces, matched).0.state is DETECTED,
        step_roi(roi, faces, matched).0.not_detected_count == 0,
{
}

/// Detections that no region claimed become fresh regions, appended to the
/// live set in detection input order with consecutive ids
/// `counter + 1, counter + 2, ...`, all reported in the added output; when
/// there are more detections than regions, at least the surplus is
/// appended.
pub proof fn lemma_track_appends_new_regions(t: TrackerView, faces: Seq<Rect>)
    requires
        wf(t),
        t.id_counter + faces.len() <= u32::MAX,
    ensures
        spec_track(t, faces).1.len() >= faces.len() - t.rois.len(),
        forall|k: int|
            0 <= k < spec_track(t, faces).1.len() ==> (#[trigger] spec_track(t, faces).1[k]).id
                == t.id_counter + 1 + k,
        forall|k: int|
            0 <= k < spec_track(t, faces).1.len() ==> exists|i: int|
                0 <= i < faces.len() && #[trigger] spec_track(t, faces).1[k] == spec_new_roi(
                    t.id_counter + 1 + k,
                    faces[i],
                ),
        spec_track(t, faces).0.rois.len() >= spec_track(t, faces).1.len(),
        forall|k: int|
            0 <= k < spec_track(t, faces).1.len() ==> spec_track(t, faces).0.rois[spec_track(
                t,
                faces,
            ).0.rois.len() - spec_track(t, faces).1.len() + k] == #[trigger] spec_track(
                t,
                faces,
            ).1[k],
{
    let m0 = Seq::new(faces.len(), |i: int| false);
    let mf = match_phase(t.rois, faces, m0).1;
    lemma_match_phase_elems(t.rois, faces, m0);
    lemma_count_unmatched_all_false(m0, faces.len());
    lemma_match_phase_count(t.rois, faces, m0, faces.len());
    lemma_added_prefix_props(faces, mf, t.id_counter, faces.len());
}

/// A region is removed exactly when it is not detected and its miss streak
/// exceeds the threshold: every removed region violates the rule, and
/// every region still live after the tick satisfies it.
pub proof fn lemma_track_removal_rule(t: TrackerView, faces: Seq<Rect>)
    requires
        wf(t),
        t.id_counter + faces.len() <= u32::MAX,
    ensures
        forall|k: int|
            0 <= k < spec_track(t, faces).2.len() ==> {
                &&& (#[trigger] spec_track(t, faces).2[k]).state is NOTDETECTED
                &&& spec_track(t, faces).2[k].not_detected_count > t.allowable_not_detect_count
            },
        forall|k: int|
            0 <= k < spec_track(t, faces).0.rois.len() ==> keeps(
                #[trigger] spec_track(t, faces).0.rois[k],
                t.allowable_not_detect_count,
            ),
{
    let m0 = Seq::new(faces.len(), |i: int| false);
    let upd = match_phase(t.rois, faces, m0).0;
    let mf = match_phase(t.rois, faces, m0).1;
    let allow = t.allowable_not_detect_count;
    let kept = kept_rois(upd, allow);
    let added = added_rois(faces, mf, t.id_counter);
    lemma_filter_elems(upd, allow);
    lemma_added_prefix_props(faces, mf, t.id_counter, faces.len());
    assert forall|k: int| 0 <= k < (kept + added).len() implies keeps(
        #[trigger] (kept + added)[k],
        allow,
    ) by {
        if k >= kept.len() {
            let w = choose|w: int|
                0 <= w < faces.len() && !mf[w] && added[k - kept.len()] == spec_new_roi(
                    t.id_counter + 1 + (k - kept.len()),
                    faces[w],
                );
        }
    }
}

/// The regions mirror the detections: same count, and the region at each
/// position is detected with exactly the bounding box of the detection at
/// the same position.
pub open spec fn aligned(rois: Seq<TrackerRoi>, faces: Seq<Rect>) -> bool {
    &&& rois.len() == faces.len()
    &&& forall|i: int|
        0 <= i < rois.len() ==> {
            &&& (#[trigger] rois[i]).state is DETECTED
            &&& rois[i].tl_x == faces[i].x
            &&& rois[i].tl_y == faces[i].y
            &&& rois[i].width == faces[i].width
            &&& rois[i].height == faces[i].height
        }
}

/// A region whose bounding box equals the detection's is at distance zero.
pub proof fn lemma_distance_zero(roi: TrackerRoi, r: Rect)
    requires
        roi.tl_x == r.x,
        roi.tl_y == r.y,
        roi.width == r.width,
        roi.height == r.height,
    ensures
        spec_distance(roi, r) == 0,
{
    let dx = crate::rect::doubled_center_x(roi.tl_x as int, roi.width as int)
        - r.spec_doubled_center_x();
    let dy = crate::rect::doubled_center_y(roi.tl_y as int, roi.height as int)
        - r.spec_doubled_center_y();
    assert(dx == 0);
    assert(dy == 0);
}

/// When regions mirror detections and the first `k` detections are taken,
/// the region at position `k` picks exactly the detection at position `k`:
/// its own box is at distance zero, and the earliest-index rule breaks any
/// other zero-distance tie in its favour.
pub proof fn lemma_aligned_picks_own(rois: Seq<TrackerRoi>, faces: Seq<Rect>, k: int)
    requires
        aligned(rois, faces),
        0 <= k < rois.len(),
    ensures
        best_unmatched(rois[k], faces, Seq::new(faces.len(), |i: int| i < k), faces.len())
            == Some(k),
{
    let matched = Seq::new(faces.len(), |i: int| i < k);
    lemma_best_unmatched_props(rois[k], faces, matched, faces.len());
    lemma_distance_zero(rois[k], faces[k]);
    match best_unmatched(rois[k], faces, matched, faces.len()) {
        None => {
            assert(!matched[k]);
            assert(false);
        }
        Some(j) => {
            assert(spec_distance(rois[k], faces[j]) <= spec_distance(rois[k], faces[k]));
            lemma_distance_nonneg(rois[k], faces[j]);
            if j != k {
                assert(j > k);
                assert(!matched[k]);
                assert(spec_distance(rois[k], faces[k]) > spec_distance(rois[k], faces[j]));
                assert(false);
            }
        }
    }
}

/// Running the matching phase over the suffix of an aligned region list,
/// with the first `k` detections already taken, returns that suffix
/// unchanged and consumes all remaining detections.
pub proof fn lemma_match_phase_aligned(rois: Seq<TrackerRoi>, faces: Seq<Rect>, k: int)
    requires
        aligned(rois, faces),
        0 <= k <= rois.len(),
    ensures
        match_phase(rois.skip(k), faces, Seq::new(faces.len(), |i: int| i < k)).0 =~= rois.skip(
            k,
        ),
        match_phase(rois.skip(k), faces, Seq::new(faces.len(), |i: int| i < k)).1 =~= Seq::new(
            faces.len(),
            |i: int| true,
        ),
    decreases rois.len() - k,
{
    let matched = Seq::new(faces.len(), |i: int| i < k);
    let suffix = rois.skip(k);
    if k == rois.len() {
        assert(suffix.len() == 0);
        assert(matched =~= Seq::new(faces.len(), |i: int| true));
    } else {
        assert(suffix[0] == rois[k]);
        lemma_aligned_picks_own(rois, faces, k);
        let stepped = step_roi(suffix[0], faces, matched);
        assert(spec_after_hit(rois[k], faces[k]) == rois[k]);
        assert(stepped.0 == rois[k]);
        assert(stepped.1 =~= Seq::new(faces.len(), |i: int| i < k + 1));
        lemma_match_phase_aligned(rois, faces, k + 1);
        assert(suffix.drop_first() =~= rois.skip(k + 1));
        assert(match_phase(suffix, faces, matched).0 =~= seq![rois[k]] + rois.skip(k + 1));
        assert(seq![rois[k]] + rois.skip(k + 1) =~= suffix);
    }
}

/// A region list that the removal rule keeps in full passes through the
/// removal step unchanged, with nothing removed.
pub proof fn lemma_removal_keeps_all(s: Seq<TrackerRoi>, allowable: int)
    requires
        forall|i: int| 0 <= i < s.len() ==> keeps(#[trigger] s[i], allowable),
    ensures
        kept_rois(s, allowable) =~= s,
        removed_rois(s, allowable) =~= Seq::<TrackerRoi>::empty(),
    decreases s.len(),
{
    reveal(Seq::filter);
    if s.len() > 0 {
        lemma_removal_keeps_all(s.drop_last(), allowable);
        assert(kept_rois(s, allowable) == kept_rois(s.drop_last(), allowable).push(s.last()));
        assert(kept_rois(s.drop_last(), allowable).push(s.last()) =~= s);
    }
}

/// With every detection taken, no region is created.
pub proof fn lemma_added_none(faces: Seq<Rect>, matched: Seq<bool>, counter: int, n: nat)
    requires
        n <= faces.len(),
        forall|i: int| 0 <= i < n ==> matched[i],
    ensures
        added_rois_prefix(faces, matched, counter, n) =~= Seq::<TrackerRoi>::empty(),
    decreases n,
{
    if n > 0 {
        lemma_added_none(faces, matched, counter, (n - 1) as nat);
    }
}

/// With no detection taken, every detection becomes a fresh region, in
/// order.
pub proof fn lemma_added_all(faces: Seq<Rect>, matched: Seq<bool>, counter: int, n: nat)
    requires
        n <= faces.len(),
        forall|i: int| 0 <= i < n ==> !matched[i],
    ensures
        added_rois_prefix(faces, matched, counter, n).len() == n,
        forall|k: int|
            0 <= k < n ==> #[trigger] added_rois_prefix(faces, matched, counter, n)[k]
                == spec_new_roi(counter + 1 + k, faces[k]),
    decreases n,
{
    if n > 0 {
        lemma_added_all(faces, matched, counter, (n - 1) as nat);
    }
}

/// A tracker whose regions mirror the detection set is a fixed point of
/// `track`: the same detections again change nothing, and the added and
/// removed outputs are empty.
pub proof fn lemma_track_fixed_point(t: TrackerView, faces: Seq<Rect>)
    requires
        aligned(t.rois, faces),
    ensures
        spec_track(t, faces).0 =~= t,
        spec_track(t, faces).1 =~= Seq::<TrackerRoi>::empty(),
        spec_track(t, faces).2 =~= Seq::<TrackerRoi>::empty(),
{
    let m0 = Seq::new(faces.len(), |i: int| false);
    let allow = t.allowable_not_detect_count;
    lemma_match_phase_aligned(t.rois, faces, 0);
    assert(t.rois.skip(0) =~= t.rois);
    assert(m0 =~= Seq::new(faces.len(), |i: int| i < 0));
    let upd = match_phase(t.rois, faces, m0).0;
    let mf = match_phase(t.rois, faces, m0).1;
    assert(upd == t.rois);
    assert(mf =~= Seq::new(faces.len(), |i: int| true));
    lemma_removal_keeps_all(t.rois, allow);
    lemma_added_none(faces, mf, t.id_counter, faces.len());
    assert(kept_rois(upd, allow) + added_rois(faces, mf, t.id_counter) =~= t.rois);
}

/// Tracking a detection set from an empty tracker yields exactly one fresh
/// region per detection, in order, mirroring the detections.
pub proof fn lemma_track_from_empty(t: TrackerView, faces: Seq<Rect>)
    requires
        wf(t),
        t.rois.len() == 0,
        t.id_counter + faces.len() <= u32::MAX,
    ensures
        aligned(spec_track(t, faces).0.rois, faces),
        spec_track(t, faces).0.rois =~= spec_track(t, faces).1,
        spec_track(t, faces).2 =~= Seq::<TrackerRoi>::empty(),
        forall|k: int|
            0 <= k < faces.len() ==> #[trigger] spec_track(t, faces).0.rois[k] == spec_new_roi(
                t.id_counter + 1 + k,
                faces[k],
            ),
{
    reveal(Seq::filter);
    let m0 = Seq::new(faces.len(), |i: int| false);
    let upd = match_phase(t.rois, faces, m0).0;
    let mf = match_phase(t.rois, faces, m0).1;
    assert(upd =~= Seq::<TrackerRoi>::empty());
    assert(mf == m0);
    assert(kept_rois(upd, t.allowable_not_detect_count) =~= Seq::<TrackerRoi>::empty());
    assert(removed_rois(upd, t.allowable_not_detect_count) =~= Seq::<TrackerRoi>::empty());
    lemma_added_all(faces, mf, t.id_counter, faces.len());
    let added = added_rois(faces, mf, t.id_counter);
    assert(spec_track(t, faces).0.rois =~= added);
}

/// Idempotence: after the first frame, repeating an unchanged detection
/// set yields empty added and removed outputs and leaves every id and
/// bounding box as it was.
pub proof fn lemma_track_idempotent(t: TrackerView, faces: Seq<Rect>)
    requires
        wf(t),
        t.rois.len() == 0,
        t.id_counter + faces.len() <= u32::MAX,
    ensures
        spec_track(spec_track(t, faces).0, faces).0 =~= spec_track(t, faces).0,
        spec_track(spec_track(t, faces).0, faces).1 =~= Seq::<TrackerRoi>::empty(),
        spec_track(spec_track(t, faces).0, faces).2 =~= Seq::<TrackerRoi>::empty(),
{
    lemma_track_from_empty(t, faces);
    lemma_track_fixed_point(spec_track(t, faces).0, faces);
}

} // verus!
