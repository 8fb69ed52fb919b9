//! The bookkeeping of a scan.
//!
//! A scheduled scan counts down, then samples one window after another for
//! as long as a whole window still fits into the configured duration. The
//! caller does the waiting and the sampling; `Scan` decides what comes next
//! and keeps the running maximum and the raw detection intervals. An instant
//! scan is a single window without intervals.

use vstd::prelude::*;
use crate::detect::{detect, detection, peak, Detection};
use crate::intervals::{merge_intervals, merged};
use crate::text::{decimal, decimal_text, durations_text, format_durations};

verus! {

/// Length of one sampling window of a scheduled scan, in seconds.
pub const WINDOW_SECONDS: u64 = 1;

/// Length of the single acquisition of an instant scan, in seconds.
pub const INSTANT_SECONDS: u64 = 5;

/// Nanoseconds in a second; elapsed time is handed in in nanoseconds.
pub const NANOS_PER_SECOND: u128 = 1_000_000_000;

/// What the caller of a scheduled scan has to do next.
#[derive(Clone, Copy, Debug, PartialEq, Eq, Structural)]
pub enum Action {
    /// Let one second pass, then report it with `Scan::slept`.
    Wait { seconds_left: u64 },
    /// Sample one window, then report it with `Scan::window` or
    /// `Scan::observe`.
    Acquire,
    /// Stop sampling and call `Scan::finish`.
    Finish,
}

/// The state of a scheduled scan.
pub struct Scan {
    /// Seconds still to wait before the first window.
    pub countdown: u64,
    /// Configured length of the scan, in seconds.
    pub duration: u64,
    /// Level above which a window counts as a detection.
    pub threshold: u64,
    /// Highest level seen in any window so far; 0 until a reading came in.
    pub scan_max: u64,
    /// Some window so far was a detection.
    pub detected: bool,
    /// One interval of one window's length for each detection so far.
    pub raw: Vec<(u64, u64)>,
}

/// The outcome of a scan.
pub struct ScanResult {
    /// A signal was detected.
    pub detected: bool,
    /// Highest level seen during the scan.
    pub max_level: u64,
    /// The merged detection intervals.
    pub intervals: Vec<(u64, u64)>,
    /// The text that stands for the detections in the result record.
    pub durations: String,
}

/// A whole window still fits between `elapsed_nanos` and the end of a scan
/// of `duration` seconds.
pub open spec fn window_fits(elapsed_nanos: u128, duration: u64) -> bool {
    elapsed_nanos as int + WINDOW_SECONDS as int * NANOS_PER_SECOND as int <= duration as int
        * NANOS_PER_SECOND as int
}

/// The larger of a running maximum and a window's maximum, if it has one.
pub open spec fn raised(scan_max: u64, window_max: Option<u64>) -> u64 {
    match window_max {
        Some(m) if m > scan_max => m,
        _ => scan_max,
    }
}

impl Scan {
    /// Every raw interval is one window long, and the scan counts as a
    /// detection exactly when there is one.
    pub open spec fn wf(&self) -> bool {
        &&& self.detected <==> self.raw@.len() > 0
        &&& forall|i: int|
            0 <= i < self.raw@.len() ==> (#[trigger] self.raw@[i]).1 == self.raw@[i].0
                + WINDOW_SECONDS
    }

    /// What is to be done next, `elapsed_nanos` after the countdown ended.
    pub open spec fn action(&self, elapsed_nanos: u128) -> Action {
        if self.countdown > 0 {
            Action::Wait { seconds_left: self.countdown }
        } else if window_fits(elapsed_nanos, self.duration) {
            Action::Acquire
        } else {
            Action::Finish
        }
    }

    /// A scan that waits `start_after` seconds and then samples for
    /// `duration` seconds.
    pub fn new(start_after: u64, duration: u64, threshold: u64) -> (scan: Scan)
        ensures
            scan.countdown == start_after,
            scan.duration == duration,
            scan.threshold == threshold,
            scan.scan_max == 0,
            !scan.detected,
            scan.raw@.len() == 0,
            scan.wf(),
    {
        Scan {
            countdown: start_after,
            duration,
            threshold,
            scan_max: 0,
            detected: false,
            raw: Vec::new(),
        }
    }

    /// Decides the next step. During the countdown `elapsed_nanos` is not
    /// looked at; afterwards it is the time since the countdown ended.
    pub fn next_action(&self, elapsed_nanos: u128) -> (action: Action)
        ensures
            action == self.action(elapsed_nanos),
    {
        if self.countdown > 0 {
            return Action::Wait { seconds_left: self.countdown };
        }
        let total: u128 = (self.duration as u128) * NANOS_PER_SECOND;
        let window: u128 = (WINDOW_SECONDS as u128) * NANOS_PER_SECOND;
        if elapsed_nanos <= total && total - elapsed_nanos >= window {
            Action::Acquire
        } else {
            Action::Finish
        }
    }

    /// Records that one second of the countdown has passed.
    pub fn slept(&mut self)
        ensures
            final(self).countdown == if old(self).countdown > 0 {
                old(self).countdown - 1
            } else {
                0
            },
            final(self).duration == old(self).duration,
            final(self).threshold == old(self).threshold,
            final(self).scan_max == old(self).scan_max,
            final(self).detected == old(self).detected,
            final(self).raw@ == old(self).raw@,
    {
        if self.countdown > 0 {
            self.countdown = self.countdown - 1;
        }
    }

    /// Takes in the outcome of the window that ended `elapsed_secs` whole
    /// seconds into the scan: the running maximum rises to the window's
    /// maximum, and a detection adds the interval of one window's length
    /// that starts at `elapsed_secs`.
    pub fn observe(&mut self, elapsed_secs: u64, window: Detection)
        requires
            window.detected ==> elapsed_secs + WINDOW_SECONDS <= u64::MAX,
        ensures
            final(self).countdown == old(self).countdown,
            final(self).duration == old(self).duration,
            final(self).threshold == old(self).threshold,
            final(self).scan_max == raised(old(self).scan_max, window.window_max),
            final(self).detected == (old(self).detected || window.detected),
            final(self).raw@ == if window.detected {
                old(self).raw@.push((elapsed_secs, (elapsed_secs + WINDOW_SECONDS) as u64))
            } else {
                old(self).raw@
            },
            old(self).wf() ==> final(self).wf(),
    {
        match window.window_max {
            Some(m) if m > self.scan_max => {
                self.scan_max = m;
            },
            _ => {},
        }
        if window.detected {
            self.detected = true;
            self.raw.push((elapsed_secs, elapsed_secs + WINDOW_SECONDS));
        }
    }

    /// Runs the detector on the levels of the window that ended
    /// `elapsed_secs` whole seconds into the scan and takes in the outcome.
    pub fn window(&mut self, elapsed_secs: u64, strengths: &Vec<u64>) -> (seen: Detection)
        requires
            detection(strengths@, old(self).threshold).detected ==> elapsed_secs + WINDOW_SECONDS
                <= u64::MAX,
        ensures
            seen == detection(strengths@, old(self).threshold),
            final(self).countdown == old(self).countdown,
            final(self).duration == old(self).duration,
            final(self).threshold == old(self).threshold,
            final(self).scan_max == raised(old(self).scan_max, peak(strengths@)),
            final(self).detected == (old(self).detected || seen.detected),
            final(self).raw@ == if seen.detected {
                old(self).raw@.push((elapsed_secs, (elapsed_secs + WINDOW_SECONDS) as u64))
            } else {
                old(self).raw@
            },
            old(self).wf() ==> final(self).wf(),
    {
        let seen = detect(strengths, self.threshold);
        self.observe(elapsed_secs, seen);
        seen
    }

    /// Ends the scan: merges the raw intervals and writes them out.
    pub fn finish(self) -> (result: ScanResult)
        ensures
            result.detected == self.detected,
            result.max_level == self.scan_max,
            result.intervals@ == merged(self.raw@),
            result.durations@ == durations_text(merged(self.raw@)),
            self.wf() ==> (result.detected <==> result.intervals@.len() > 0),
    {
        let intervals = merge_intervals(self.raw);
        let durations = format_durations(&intervals);
        ScanResult { detected: self.detected, max_level: self.scan_max, intervals, durations }
    }
}

/// The outcome of an instant scan over one batch of levels: a detection when
/// the highest level lies above `threshold`, no intervals, and the length of
/// the acquisition in seconds in their place.
pub fn instant_scan(strengths: &Vec<u64>, threshold: u64) -> (result: ScanResult)
    ensures
        result.detected == detection(strengths@, threshold).detected,
        result.max_level == raised(0, peak(strengths@)),
        result.intervals@.len() == 0,
        result.durations@ == seq!['5'],
{
    let seen = detect(strengths, threshold);
    let max_level: u64 = match seen.window_max {
        Some(m) => m,
        None => 0,
    };
    let durations = decimal_text(INSTANT_SECONDS);
    assert(decimal(INSTANT_SECONDS as nat) =~= seq!['5']);
    ScanResult { detected: seen.detected, max_level, intervals: Vec::new(), durations }
}

} // verus!
