//! Core of a face-tracking pipeline: a pixel-to-luma colour converter, a
//! greedy rectangle tracker with hysteresis-based removal, and the
//! orchestration state that sequences convert -> detect -> track each tick.
//!
//! Capture, detection and rendering are external collaborators: they hand
//! this library plain values (pixel buffers, integer rectangles) and take
//! plain values back.

pub mod error;
pub mod face_detection;
pub mod options;
pub mod rect;
pub mod tracker;
pub mod tracker_laws;
pub mod tracker_roi;
pub mod video_face_tracker;
