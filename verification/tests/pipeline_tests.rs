use face_tracker::error::{AppError, ConfigField};
use face_tracker::options::TrackerOptions;
use face_tracker::rect::Rect;
use face_tracker::video_face_tracker::VideoFaceTracker;

#[test]
fn default_options_are_valid() {
    let options = TrackerOptions::default();
    assert_eq!(options.image_over_video_scale_milli, 200);
    assert_eq!(options.min_face_size, 40);
    assert_eq!(options.score_thresh_milli, 2000);
    assert_eq!(options.pyramid_scale_factor_milli, 500);
    assert_eq!(options.slide_window_step, 4);
    assert_eq!(options.allowable_not_detect_count, 4);
    assert_eq!(options.validate(), Ok(()));
}

#[test]
fn each_out_of_range_field_is_reported() {
    let good = TrackerOptions::default();

    let mut o = good;
    o.image_over_video_scale_milli = 0;
    assert_eq!(
        o.validate(),
        Err(AppError::ConfigValidationError(ConfigField::ImageOverVideoScale))
    );
    o.image_over_video_scale_milli = 1001;
    assert_eq!(
        o.validate(),
        Err(AppError::ConfigValidationError(ConfigField::ImageOverVideoScale))
    );

    let mut o = good;
    o.min_face_size = 0;
    assert_eq!(o.validate(), Err(AppError::ConfigValidationError(ConfigField::MinFaceSize)));

    let mut o = good;
    o.score_thresh_milli = 0;
    assert_eq!(o.validate(), Err(AppError::ConfigValidationError(ConfigField::ScoreThresh)));

    let mut o = good;
    o.pyramid_scale_factor_milli = 1000;
    assert_eq!(
        o.validate(),
        Err(AppError::ConfigValidationError(ConfigField::PyramidScaleFactor))
    );

    let mut o = good;
    o.slide_window_step = 0;
    assert_eq!(o.validate(), Err(AppError::ConfigValidationError(ConfigField::SlideWindowStep)));

    // The first out-of-range field in declaration order is the one named.
    let mut o = good;
    o.image_over_video_scale_milli = 0;
    o.slide_window_step = 0;
    assert_eq!(
        o.validate(),
        Err(AppError::ConfigValidationError(ConfigField::ImageOverVideoScale))
    );
}

#[test]
fn working_image_dimensions_scale_down_the_video() {
    // 640 x 480 at scale 0.2 gives 128 x 96.
    let pipeline = VideoFaceTracker::new(640, 480, TrackerOptions::default());
    assert_eq!(pipeline.image_width, 128);
    assert_eq!(pipeline.image_height, 96);
    assert!(pipeline.tracker.rois.is_empty());

    // The scaled dimension is floored: 333 * 0.3 = 99.9 -> 99.
    let mut options = TrackerOptions::default();
    options.image_over_video_scale_milli = 300;
    let pipeline = VideoFaceTracker::new(333, 10, options);
    assert_eq!(pipeline.image_width, 99);
    assert_eq!(pipeline.image_height, 3);
}

#[test]
fn convert_frame_checks_the_working_image_size() {
    let pipeline = VideoFaceTracker::new(20, 10, TrackerOptions::default());
    // Working image is 4 x 2, so a frame is 32 bytes.
    assert_eq!(pipeline.image_width, 4);
    assert_eq!(pipeline.image_height, 2);

    let frame = vec![255u8; 32];
    let luma = pipeline.convert_frame(&frame).unwrap();
    assert_eq!(luma.len(), 8);
    assert!(luma.iter().all(|&v| v == 255));

    let short = vec![255u8; 31];
    assert_eq!(
        pipeline.convert_frame(&short),
        Err(AppError::InvalidBufferSize { expected: 32, actual: 31 })
    );
}

#[test]
fn step_tracks_and_reports_all_three_lists() {
    let mut pipeline = VideoFaceTracker::new(640, 480, TrackerOptions::default());
    let faces = vec![Rect::new(10, 10, 20, 20), Rect::new(60, 60, 20, 20)];

    let info = pipeline.step(&faces);
    assert_eq!(info.added_rois.len(), 2);
    assert!(info.removed_rois.is_empty());
    assert_eq!(info.rois.len(), 2);
    assert_eq!(info.rois[0].id, 1);
    assert_eq!(info.rois[1].id, 2);

    let info = pipeline.step(&faces);
    assert!(info.added_rois.is_empty());
    assert!(info.removed_rois.is_empty());
    assert_eq!(info.rois.len(), 2);
}

#[test]
fn reinitialize_rescales_and_resets_identity() {
    let mut pipeline = VideoFaceTracker::new(640, 480, TrackerOptions::default());
    pipeline.step(&vec![Rect::new(10, 10, 20, 20)]);
    assert_eq!(pipeline.tracker.id_counter, 1);

    // Doubling the scale from 0.2 to 0.4 doubles the working image.
    let mut new_options = TrackerOptions::default();
    new_options.image_over_video_scale_milli = 400;
    new_options.allowable_not_detect_count = 7;
    assert_eq!(new_options.validate(), Ok(()));
    pipeline.initialize_tracker(new_options);

    assert_eq!(pipeline.image_width, 256);
    assert_eq!(pipeline.image_height, 192);
    // The tracker is replaced wholesale: ids and regions start over.
    assert!(pipeline.tracker.rois.is_empty());
    assert_eq!(pipeline.tracker.id_counter, 0);
    assert_eq!(pipeline.tracker.allowable_not_detect_count, 7);
}

#[test]
fn dispose_marks_the_pipeline_unusable() {
    let mut pipeline = VideoFaceTracker::new(640, 480, TrackerOptions::default());
    assert!(!pipeline.disposed);
    pipeline.dispose();
    assert!(pipeline.disposed);
    // The tick functions require an undisposed pipeline; the boundary
    // checks this flag before every call, so a disposed pipeline can no
    // longer be stepped.
}
