//! Capture and annotation core of a multi-camera light-field rig.
//!
//! The crate holds the decisions of the capture manager and of the staged
//! annotation pipeline as verified functions on plain values: bitstream
//! reframing, mask analysis, the recording hysteresis, the session layout on
//! disk and the stage planner. Network sessions, decoding, inference and the
//! file system are driven by the embedding application.

pub mod ffmpeg;
pub mod grid_view;
pub mod index;
pub mod layout;
pub mod listing;
pub mod matting;
pub mod ordering;
pub mod outputs;
pub mod person_detect;
pub mod pipeline;
pub mod plan;
pub mod recording;
pub mod reframe;
pub mod resume;
pub mod session;
pub mod stream;
pub mod text;
pub mod viewer;
