use vstd::prelude::*;

use crate::error::AppError;
use crate::face_detection::{convert_rgba_to_luma, luma_value};
use crate::options::TrackerOptions;
use crate::rect::Rect;
use crate::tracker::{spec_track, Tracker};
use crate::tracker_roi::TrackerRoi;

verus! {

/// A video dimension scaled by a factor given in thousandths:
/// `floor(dim * milli / 1000)`.
pub open spec fn spec_scaled_dim(dim: u32, milli: u32) -> int {
    (dim * milli) / 1000
}

/// A working dimension rescaled by the ratio of a new scale to the old
/// one: `floor(dim * new_milli / old_milli)`, saturating at `u32::MAX`.
pub open spec fn spec_rescaled_dim(dim: u32, new_milli: u32, old_milli: u32) -> int {
    let v = (dim as int) * (new_milli as int) / (old_milli as int);
    if v > u32::MAX as int {
        u32::MAX as int
    } else {
        v
    }
}

/// What one tick hands to the renderer: the current live regions, and the
/// regions added and removed by this tick. The boundary that drives the
/// tick adds its own timing measurement.
pub struct VideoFaceInfo {
    pub rois: Vec<TrackerRoi>,
    pub added_rois: Vec<TrackerRoi>,
    pub removed_rois: Vec<TrackerRoi>,
}

/// State of the tracking pipeline between ticks: the working-image
/// dimensions the detector runs at, the configuration, and the tracker.
///
/// The collaborators stay outside: the boundary captures a frame, draws it
/// at the working-image size, reads the pixels back, and runs the
/// detector; this core converts the pixels (`convert_frame`) and advances
/// the tracker over the detected rectangles (`step`). A failure on the
/// boundary's side simply means `step` is not called for that tick, so the
/// tracker state is never touched by a failed tick.
pub struct VideoFaceTracker {
    pub image_width: u32,
    pub image_height: u32,
    pub tracker: Tracker,
    pub tracker_option: TrackerOptions,
    pub disposed: bool,
}

impl VideoFaceTracker {
    /// The tracker is well-formed, runs with the threshold the
    /// configuration names, and the configuration values are in range.
    pub open spec fn wf(self) -> bool {
        &&& crate::tracker::wf(self.tracker@)
        &&& self.tracker@.allowable_not_detect_count
            == self.tracker_option.allowable_not_detect_count
        &&& self.tracker_option.valid()
    }

    /// Set up the pipeline for a source of the given dimensions: the
    /// working-image dimensions are the video's scaled down by the
    /// configured factor, and the tracker starts fresh. Acquiring the
    /// source and building the detector are the boundary's work; when
    /// either fails, the boundary reports an initialization failure and
    /// never constructs this state.
    pub fn new(video_width: u32, video_height: u32, tracker_option: TrackerOptions) -> (t:
        VideoFaceTracker)
        requires
            tracker_option.valid(),
        ensures
            t.wf(),
            !t.disposed,
            t.image_width == spec_scaled_dim(video_width, tracker_option.image_over_video_scale_milli),
            t.image_height == spec_scaled_dim(
                video_height,
                tracker_option.image_over_video_scale_milli,
            ),
            t.tracker_option == tracker_option,
            t.tracker@.rois.len() == 0,
            t.tracker@.id_counter == 0,
    {
        let image_width = scaled_dim(video_width, tracker_option.image_over_video_scale_milli);
        let image_height = scaled_dim(video_height, tracker_option.image_over_video_scale_milli);
        let tracker = Tracker::new(tracker_option.allowable_not_detect_count);
        VideoFaceTracker { image_width, image_height, tracker, tracker_option, disposed: false }
    }

    /// Convert one frame's packed pixels, read back at the working-image
    /// dimensions, into the luma buffer the detector takes. A buffer whose
    /// length does not match the working-image dimensions fails the tick
    /// without touching the tracker.
    pub fn convert_frame(&self, rgba_vec: &Vec<u8>) -> (result: Result<Vec<u8>, AppError>)
        requires
            !self.disposed,
        ensures
            match result {
                Ok(luma) => {
                    &&& rgba_vec@.len() == self.image_width * self.image_height * 4
                    &&& luma@.len() == self.image_width * self.image_height
                    &&& forall|i: int|
                        0 <= i < luma@.len() ==> #[trigger] luma@[i] == luma_value(
                            rgba_vec@[4 * i],
                            rgba_vec@[4 * i + 1],
                            rgba_vec@[4 * i + 2],
                        )
                },
                Err(e) => {
                    &&& rgba_vec@.len() != self.image_width * self.image_height * 4
                    &&& e == (AppError::InvalidBufferSize {
                        expected: (self.image_width * self.image_height * 4) as u128,
                        actual: rgba_vec@.len() as u128,
                    })
                },
            },
    {
        convert_rgba_to_luma(rgba_vec, self.image_width, self.image_height)
    }

    /// Advance the tracker over the rectangles the detector returned for
    /// this tick, and assemble what the renderer consumes: the live
    /// regions after the tick, the added regions and the removed regions.
    pub fn step(&mut self, faces: &Vec<Rect>) -> (info: VideoFaceInfo)
        requires
            !old(self).disposed,
            old(self).wf(),
            old(self).tracker.id_counter + faces@.len() <= u32::MAX,
        ensures
            final(self).wf(),
            !final(self).disposed,
            final(self).image_width == old(self).image_width,
            final(self).image_height == old(self).image_height,
            final(self).tracker_option == old(self).tracker_option,
            final(self).tracker@ =~= spec_track(old(self).tracker@, faces@).0,
            info.added_rois@ =~= spec_track(old(self).tracker@, faces@).1,
            info.removed_rois@ =~= spec_track(old(self).tracker@, faces@).2,
            info.rois@ == final(self).tracker@.rois,
    {
        let (added_rois, removed_rois) = self.tracker.track(faces);

        let live = self.tracker.rois();
        let mut rois: Vec<TrackerRoi> = Vec::new();
        let mut i: usize = 0;
        while i < live.len()
            invariant
                i <= live@.len(),
                rois@ =~= live@.take(i as int),
            decreases live@.len() - i,
        {
            rois.push(live[i]);
            i = i + 1;
        }
        proof {
            assert(live@.take(live@.len() as int) =~= live@);
        }

        VideoFaceInfo { rois, added_rois, removed_rois }
    }

    /// Reconfigure the pipeline: rescale the working-image dimensions by
    /// the ratio of the new scale to the current one, adopt the new
    /// configuration, and discard the tracker for a fresh one — an
    /// explicit identity reset, so all prior region ids and continuity are
    /// lost. The boundary must validate the configuration first and apply
    /// the new detector parameters itself, and must never reconfigure
    /// while a tick is in flight.
    pub fn initialize_tracker(&mut self, tracker_option: TrackerOptions)
        requires
            !old(self).disposed,
            old(self).wf(),
            tracker_option.valid(),
        ensures
            final(self).wf(),
            !final(self).disposed,
            final(self).image_width == spec_rescaled_dim(
                old(self).image_width,
                tracker_option.image_over_video_scale_milli,
                old(self).tracker_option.image_over_video_scale_milli,
            ),
            final(self).image_height == spec_rescaled_dim(
                old(self).image_height,
                tracker_option.image_over_video_scale_milli,
                old(self).tracker_option.image_over_video_scale_milli,
            ),
            final(self).tracker_option == tracker_option,
            final(self).tracker@.rois.len() == 0,
            final(self).tracker@.id_counter == 0,
    {
        let image_width = rescaled_dim(
            self.image_width,
            tracker_option.image_over_video_scale_milli,
            self.tracker_option.image_over_video_scale_milli,
        );
        let image_height = rescaled_dim(
            self.image_height,
            tracker_option.image_over_video_scale_milli,
            self.tracker_option.image_over_video_scale_milli,
        );
        self.image_width = image_width;
        self.image_height = image_height;
        self.tracker = Tracker::new(tracker_option.allowable_not_detect_count);
        self.tracker_option = tracker_option;
    }

    /// The live regions, in list order, for rendering between ticks.
    pub fn rois(&self) -> (rois: &Vec<TrackerRoi>)
        ensures
            rois@ == self.tracker@.rois,
    {
        self.tracker.rois()
    }

    /// Mark the pipeline disposed. The boundary releases the offscreen
    /// buffer and the capture handle at the same moment; after this, no
    /// tick function may be called again, which the contracts of
    /// `convert_frame`, `step` and `initialize_tracker` enforce.
    pub fn dispose(&mut self)
        requires
            !old(self).disposed,
        ensures
            *final(self) == (VideoFaceTracker { disposed: true, ..*old(self) }),
    {
        self.disposed = true;
    }
}

/// `floor(dim * milli / 1000)`, exact in 64-bit arithmetic.
fn scaled_dim(dim: u32, milli: u32) -> (r: u32)
    requires
        milli <= 1000,
    ensures
        r == spec_scaled_dim(dim, milli),
{
    proof {
        assert((dim as int) * (milli as int) <= 0xffff_ffff * 1000int) by (nonlinear_arith)
            requires
                0 <= dim <= 0xffff_ffff,
                0 <= milli <= 1000,
        ;
        assert((dim as int) * (milli as int) / 1000 <= 0xffff_ffff) by (nonlinear_arith)
            requires
                0 <= (dim as int) * (milli as int) <= 0xffff_ffff * 1000int,
        ;
    }
    (((dim as u64) * (milli as u64)) / 1000) as u32
}

/// `floor(dim * new_milli / old_milli)`, saturating at `u32::MAX` as the
/// conversion to a 32-bit dimension does.
fn rescaled_dim(dim: u32, new_milli: u32, old_milli: u32) -> (r: u32)
    requires
        1 <= old_milli,
        new_milli <= 1000,
    ensures
        r == spec_rescaled_dim(dim, new_milli, old_milli),
{
    proof {
        assert((dim as int) * (new_milli as int) <= 0xffff_ffff * 1000int) by (nonlinear_arith)
            requires
                0 <= dim <= 0xffff_ffff,
                0 <= new_milli <= 1000,
        ;
    }
    let v: u64 = ((dim as u64) * (new_milli as u64)) / (old_milli as u64);
    if v > (u32::MAX as u64) {
        u32::MAX
    } else {
        v as u32
    }
}

} // verus!
