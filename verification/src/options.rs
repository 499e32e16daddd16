use vstd::prelude::*;

use crate::error::{AppError, ConfigField};

verus! {

/// Configuration of the tracking pipeline. The scale factors are carried
/// as integer thousandths (a value of 200 means 0.2), so that the core
/// states and checks their ranges exactly; the boundary converts them to
/// the detector's floating-point parameters.
#[derive(Clone, Copy, Debug, PartialEq, Eq, Structural)]
pub struct TrackerOptions {
    /// Working image size over video size, in thousandths; in (0, 1].
    pub image_over_video_scale_milli: u32,
    /// Smallest face the detector searches for; at least 1.
    pub min_face_size: u32,
    /// Detector score threshold, in thousandths; positive.
    pub score_thresh_milli: u32,
    /// Detector pyramid scale factor, in thousandths; in (0, 1) exclusive.
    pub pyramid_scale_factor_milli: u32,
    /// Detector sliding-window step; at least 1.
    pub slide_window_step: u32,
    /// Consecutive missed ticks a region tolerates before removal.
    pub allowable_not_detect_count: u32,
}

/// The first field, in declaration order, whose value is out of range.
pub open spec fn first_invalid_field(o: TrackerOptions) -> ConfigField {
    if !(1 <= o.image_over_video_scale_milli <= 1000) {
        ConfigField::ImageOverVideoScale
    } else if o.min_face_size < 1 {
        ConfigField::MinFaceSize
    } else if o.score_thresh_milli < 1 {
        ConfigField::ScoreThresh
    } else if !(1 <= o.pyramid_scale_factor_milli <= 999) {
        ConfigField::PyramidScaleFactor
    } else {
        ConfigField::SlideWindowStep
    }
}

impl TrackerOptions {
    /// Every configuration value lies in its documented range. The
    /// hysteresis threshold has no constraint beyond its type.
    pub open spec fn valid(self) -> bool {
        &&& 1 <= self.image_over_video_scale_milli <= 1000
        &&& self.min_face_size >= 1
        &&& self.score_thresh_milli >= 1
        &&& 1 <= self.pyramid_scale_factor_milli <= 999
        &&& self.slide_window_step >= 1
    }

    /// Check the ranges, reporting the first out-of-range field. The core
    /// never repairs an out-of-range value; the boundary must validate
    /// before reconfiguring.
    pub fn validate(&self) -> (result: Result<(), AppError>)
        ensures
            result is Ok <==> self.valid(),
            result is Err ==> result == Err::<(), AppError>(
                AppError::ConfigValidationError(first_invalid_field(*self)),
            ),
    {
        if self.image_over_video_scale_milli < 1 || self.image_over_video_scale_milli > 1000 {
            Err(AppError::ConfigValidationError(ConfigField::ImageOverVideoScale))
        } else if self.min_face_size < 1 {
            Err(AppError::ConfigValidationError(ConfigField::MinFaceSize))
        } else if self.score_thresh_milli < 1 {
            Err(AppError::ConfigValidationError(ConfigField::ScoreThresh))
        } else if self.pyramid_scale_factor_milli < 1 || self.pyramid_scale_factor_milli > 999 {
            Err(AppError::ConfigValidationError(ConfigField::PyramidScaleFactor))
        } else if self.slide_window_step < 1 {
            Err(AppError::ConfigValidationError(ConfigField::SlideWindowStep))
        } else {
            Ok(())
        }
    }
}

impl Default for TrackerOptions {
    /// The default configuration: scale 0.2, minimum face size 40, score
    /// threshold 2.0, pyramid scale factor 0.5, window step 4, and a
    /// tolerance of 4 missed ticks.
    fn default() -> (result: TrackerOptions)
        ensures
            result == (TrackerOptions {
                image_over_video_scale_milli: 200,
                min_face_size: 40,
                score_thresh_milli: 2000,
                pyramid_scale_factor_milli: 500,
                slide_window_step: 4,
                allowable_not_detect_count: 4,
            }),
            result.valid(),
    {
        TrackerOptions {
            image_over_video_scale_milli: 200,
            min_face_size: 40,
            score_thresh_milli: 2000,
            pyramid_scale_factor_milli: 500,
            slide_window_step: 4,
            allowable_not_detect_count: 4,
        }
    }
}

} // verus!
