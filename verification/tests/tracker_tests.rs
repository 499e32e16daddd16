use face_tracker::rect::Rect;
use face_tracker::tracker::Tracker;
use face_tracker::tracker_roi::{RoiState, TrackerRoi};

fn rect_with_center(cx: i32, cy: i32) -> Rect {
    // A 10x10 rectangle whose centre is (cx, cy).
    Rect::new(cx - 5, cy - 5, 10, 10)
}

#[test]
fn ids_are_unique_and_strictly_increasing() {
    let mut tracker = Tracker::new(0);
    let first = vec![rect_with_center(10, 10), rect_with_center(100, 100)];
    let (added, removed) = tracker.track(&first);
    assert_eq!(added.len(), 2);
    assert!(removed.is_empty());
    assert_eq!(tracker.ids(), vec![1, 2]);

    // Starve the regions until both are removed; their ids must not be
    // handed out again afterwards.
    let empty: Vec<Rect> = Vec::new();
    tracker.track(&empty);
    let (_, removed) = tracker.track(&empty);
    assert_eq!(removed.len(), 2);
    assert!(tracker.ids().is_empty());

    let (added, _) = tracker.track(&first);
    assert_eq!(added[0].id, 3);
    assert_eq!(added[1].id, 4);
    assert_eq!(tracker.ids(), vec![3, 4]);
}

#[test]
fn hysteresis_tolerates_allowable_misses() {
    // allowable = 2: misses count 0, 1, 2 are retained, count 3 removes.
    let mut tracker = Tracker::new(2);
    let (added, _) = tracker.track(&vec![rect_with_center(10, 10)]);
    assert_eq!(added.len(), 1);
    assert!(matches!(tracker.rois()[0].state, RoiState::DETECTED));

    let empty: Vec<Rect> = Vec::new();

    let (added, removed) = tracker.track(&empty);
    assert!(added.is_empty() && removed.is_empty());
    assert_eq!(tracker.rois().len(), 1);
    assert!(matches!(tracker.rois()[0].state, RoiState::NOTDETECTED));
    assert_eq!(tracker.rois()[0].not_detected_count, 0);

    let (_, removed) = tracker.track(&empty);
    assert!(removed.is_empty());
    assert_eq!(tracker.rois()[0].not_detected_count, 1);

    let (_, removed) = tracker.track(&empty);
    assert!(removed.is_empty());
    assert_eq!(tracker.rois()[0].not_detected_count, 2);

    let (added, removed) = tracker.track(&empty);
    assert!(added.is_empty());
    assert_eq!(removed.len(), 1);
    assert_eq!(removed[0].not_detected_count, 3);
    assert!(tracker.rois().is_empty());
}

#[test]
fn zero_allowable_still_tolerates_one_miss() {
    // The first miss only switches the state; counting starts on the
    // second consecutive miss, so allowable = 0 still survives one empty
    // tick.
    let mut tracker = Tracker::new(0);
    tracker.track(&vec![rect_with_center(10, 10)]);

    let empty: Vec<Rect> = Vec::new();
    let (_, removed) = tracker.track(&empty);
    assert!(removed.is_empty());
    assert_eq!(tracker.rois().len(), 1);
    assert_eq!(tracker.rois()[0].not_detected_count, 0);

    let (_, removed) = tracker.track(&empty);
    assert_eq!(removed.len(), 1);
    assert!(tracker.rois().is_empty());
}

#[test]
fn redetection_resets_miss_count_and_keeps_id() {
    let mut tracker = Tracker::new(5);
    tracker.track(&vec![rect_with_center(10, 10)]);

    let empty: Vec<Rect> = Vec::new();
    tracker.track(&empty);
    tracker.track(&empty);
    tracker.track(&empty);
    assert_eq!(tracker.rois()[0].not_detected_count, 2);

    let moved = rect_with_center(12, 9);
    let (added, removed) = tracker.track(&vec![moved]);
    assert!(added.is_empty() && removed.is_empty());
    let roi = tracker.rois()[0];
    assert_eq!(roi.id, 1);
    assert!(matches!(roi.state, RoiState::DETECTED));
    assert_eq!(roi.not_detected_count, 0);
    assert_eq!(roi.tl_x, moved.x);
    assert_eq!(roi.tl_y, moved.y);
    assert_eq!(roi.width, moved.width);
    assert_eq!(roi.height, moved.height);
}

#[test]
fn greedy_matching_is_deterministic() {
    // R1 at centre (10,10), R2 at centre (100,100); detections Da at
    // (11,11) and Db at (99,99) must go to R1 and R2 respectively.
    let mut tracker = Tracker::new(1);
    tracker.track(&vec![rect_with_center(10, 10), rect_with_center(100, 100)]);
    assert_eq!(tracker.ids(), vec![1, 2]);

    let da = rect_with_center(11, 11);
    let db = rect_with_center(99, 99);
    let (added, removed) = tracker.track(&vec![da, db]);
    assert!(added.is_empty());
    assert!(removed.is_empty());

    let rois: &[TrackerRoi] = tracker.rois();
    assert_eq!(rois.len(), 2);
    assert_eq!(rois[0].id, 1);
    assert_eq!(rois[0].tl_x, da.x);
    assert_eq!(rois[0].tl_y, da.y);
    assert_eq!(rois[1].id, 2);
    assert_eq!(rois[1].tl_x, db.x);
    assert_eq!(rois[1].tl_y, db.y);
}

#[test]
fn distance_ties_break_toward_earliest_detection() {
    // Both detections are equally far from the region's centre (10,10);
    // the earlier one in input order wins, the other opens a new region.
    let mut tracker = Tracker::new(1);
    tracker.track(&vec![rect_with_center(10, 10)]);

    let da = rect_with_center(8, 10);
    let db = rect_with_center(12, 10);
    let (added, removed) = tracker.track(&vec![da, db]);
    assert!(removed.is_empty());
    assert_eq!(added.len(), 1);
    assert_eq!(added[0].id, 2);
    assert_eq!(added[0].tl_x, db.x);

    let rois = tracker.rois();
    assert_eq!(rois[0].id, 1);
    assert_eq!(rois[0].tl_x, da.x);
}

#[test]
fn surplus_detections_append_in_input_order() {
    let mut tracker = Tracker::new(1);
    tracker.track(&vec![rect_with_center(10, 10)]);
    assert_eq!(tracker.ids(), vec![1]);

    let near = rect_with_center(10, 10);
    let far_a = rect_with_center(200, 10);
    let far_b = rect_with_center(10, 200);
    let (added, removed) = tracker.track(&vec![far_a, near, far_b]);
    assert!(removed.is_empty());
    assert_eq!(added.len(), 2);
    // The existing region takes `near`; the two others are appended in
    // detection input order with consecutive fresh ids.
    assert_eq!(added[0].id, 2);
    assert_eq!(added[0].tl_x, far_a.x);
    assert_eq!(added[1].id, 3);
    assert_eq!(added[1].tl_y, far_b.y);
    assert_eq!(tracker.ids(), vec![1, 2, 3]);
}

#[test]
fn repeating_the_same_detections_changes_nothing() {
    let mut tracker = Tracker::new(2);
    let faces = vec![
        rect_with_center(10, 10),
        rect_with_center(100, 100),
        rect_with_center(50, 200),
    ];
    let (added, removed) = tracker.track(&faces);
    assert_eq!(added.len(), 3);
    assert!(removed.is_empty());
    let snapshot: Vec<TrackerRoi> = tracker.rois().to_vec();

    for _ in 0..3 {
        let (added, removed) = tracker.track(&faces);
        assert!(added.is_empty());
        assert!(removed.is_empty());
        assert_eq!(tracker.rois(), &snapshot);
    }
}

#[test]
fn empty_tracker_and_empty_detections_do_nothing() {
    let mut tracker = Tracker::new(3);
    let empty: Vec<Rect> = Vec::new();
    let (added, removed) = tracker.track(&empty);
    assert!(added.is_empty());
    assert!(removed.is_empty());
    assert!(tracker.rois().is_empty());
    assert!(tracker.ids().is_empty());
}

#[test]
fn distance_with_rect_is_exact_in_doubled_coordinates() {
    // Region centre (10, 10), detection centre (13, 14): the squared
    // distance is 9 + 16 = 25, or 100 in doubled coordinates.
    let roi = TrackerRoi::new(7, 5, 5, 10, 10);
    let rect = rect_with_center(13, 14);
    assert_eq!(roi.distance_with_rect(&rect), 100);
    assert_eq!(roi.doubled_center_x(), 20);
    assert_eq!(roi.doubled_center_y(), 20);
    assert_eq!(rect.doubled_center_x(), 26);
    assert_eq!(rect.doubled_center_y(), 28);
}
