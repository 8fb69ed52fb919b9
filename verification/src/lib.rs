//! Detection of periodic radio transmissions from windowed signal-strength
//! readings: a threshold detector, the bookkeeping of a scan, and the merging
//! of one-second detections into gap-tolerant time intervals.

pub mod detect;
pub mod intervals;
pub mod scan;
pub mod text;
