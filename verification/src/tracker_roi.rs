use vstd::prelude::*;

use crate::rect::{doubled_center_x, doubled_center_y, Rect};

verus! {

/// Detection state of a tracked region.
#[derive(Clone, Copy, Debug, PartialEq, Eq, Structural)]
pub enum RoiState {
    DETECTED,
    NOTDETECTED,
}

/// One tracked rectangle with persistent identity.
///
/// `not_detected_count` counts consecutive missed ticks and is meaningful
/// only while `state` is `NOTDETECTED`; the first miss after a detection
/// switches the state but leaves the count at zero, so counting starts on
/// the second consecutive miss.
#[derive(Clone, Copy, Debug, PartialEq, Eq, Structural)]
pub struct TrackerRoi {
    pub id: u32,
    pub tl_x: i32,
    pub tl_y: i32,
    pub width: u32,
    pub height: u32,
    pub state: RoiState,
    pub not_detected_count: u64,
}

/// Squared Euclidean distance between the centres of a region and a
/// detection, in doubled coordinates (four times the squared distance
/// between the true centres, so ordering and ties are preserved exactly).
/// Distances are total integers: every comparison resolves
/// deterministically, with none of the incomparable values a
/// floating-point distance would have to guard against.
pub open spec fn spec_distance(roi: TrackerRoi, r: Rect) -> int {
    let dx = doubled_center_x(roi.tl_x as int, roi.width as int) - r.spec_doubled_center_x();
    let dy = doubled_center_y(roi.tl_y as int, roi.height as int) - r.spec_doubled_center_y();
    dx * dx + dy * dy
}

/// The region after it matched the detection `r`: the bounding box is
/// overwritten and the region is marked detected, a miss streak ending with
/// the count reset to zero.
pub open spec fn spec_after_hit(roi: TrackerRoi, r: Rect) -> TrackerRoi {
    TrackerRoi {
        tl_x: r.x,
        tl_y: r.y,
        width: r.width,
        height: r.height,
        state: RoiState::DETECTED,
        not_detected_count: if roi.state is NOTDETECTED {
            0
        } else {
            roi.not_detected_count
        },
        ..roi
    }
}

/// The region after a tick in which no detection matched it: a detected
/// region switches to not-detected at count zero (the first miss is free),
/// an already missed region has its count incremented.
pub open spec fn spec_after_miss(roi: TrackerRoi) -> TrackerRoi {
    if roi.state is DETECTED {
        TrackerRoi { state: RoiState::NOTDETECTED, ..roi }
    } else {
        TrackerRoi { not_detected_count: (roi.not_detected_count + 1) as u64, ..roi }
    }
}

impl TrackerRoi {
    /// A freshly created region: just detected, with an empty miss streak.
    pub fn new(id: u32, tl_x: i32, tl_y: i32, width: u32, height: u32) -> (roi: TrackerRoi)
        ensures
            roi == (TrackerRoi {
                id,
                tl_x,
                tl_y,
                width,
                height,
                state: RoiState::DETECTED,
                not_detected_count: 0,
            }),
    {
        TrackerRoi { id, tl_x, tl_y, width, height, state: RoiState::DETECTED, not_detected_count: 0 }
    }

    /// Twice the centre's x coordinate `2 * tl_x + width`, exact in integers.
    pub fn doubled_center_x(&self) -> (c: i64)
        ensures
            c == doubled_center_x(self.tl_x as int, self.width as int),
    {
        2 * (self.tl_x as i64) + (self.width as i64)
    }

    /// Twice the centre's y coordinate `2 * tl_y + height`, exact in integers.
    pub fn doubled_center_y(&self) -> (c: i64)
        ensures
            c == doubled_center_y(self.tl_y as int, self.height as int),
    {
        2 * (self.tl_y as i64) + (self.height as i64)
    }

    /// Squared centre distance to a detection, in doubled coordinates.
    pub fn distance_with_rect(&self, rect: &Rect) -> (d: i128)
        ensures
            d == spec_distance(*self, *rect),
    {
        let dx: i128 = (self.doubled_center_x() - rect.doubled_center_x()) as i128;
        let dy: i128 = (self.doubled_center_y() - rect.doubled_center_y()) as i128;
        proof {
            assert(-0xC_0000_0000 <= dx && dx <= 0xC_0000_0000);
            assert(-0xC_0000_0000 <= dy && dy <= 0xC_0000_0000);
            assert(0 <= dx * dx <= 0x90_0000_0000_0000_0000) by (nonlinear_arith)
                requires
                    -0xC_0000_0000 <= dx <= 0xC_0000_0000,
            ;
            assert(0 <= dy * dy <= 0x90_0000_0000_0000_0000) by (nonlinear_arith)
                requires
                    -0xC_0000_0000 <= dy <= 0xC_0000_0000,
            ;
        }
        dx * dx + dy * dy
    }

    /// Mark the region detected for this tick.
    pub fn detected(&mut self)
        ensures
            *final(self) == (TrackerRoi {
                state: RoiState::DETECTED,
                not_detected_count: if old(self).state is NOTDETECTED {
                    0
                } else {
                    old(self).not_detected_count
                },
                ..*old(self)
            }),
    {
        match self.state {
            RoiState::DETECTED => {}
            RoiState::NOTDETECTED => {
                self.state = RoiState::DETECTED;
                self.not_detected_count = 0;
            }
        }
    }

    /// Mark the region missed for this tick.
    pub fn not_detected(&mut self)
        requires
            old(self).not_detected_count < u64::MAX,
        ensures
            *final(self) == spec_after_miss(*old(self)),
    {
        match self.state {
            RoiState::DETECTED => {
                self.state = RoiState::NOTDETECTED;
            }
            RoiState::NOTDETECTED => {
                self.not_detected_count = self.not_detected_count + 1;
            }
        }
    }
}

} // verus!
