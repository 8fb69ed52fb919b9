//! The threshold detector.
//!
//! A signal strength is held as a level: an unsigned integer that orders as
//! the strength does. The detector only ever compares levels, so any encoding
//! of strengths that keeps their order may be used.

use vstd::prelude::*;

verus! {

/// What one window of strength levels shows.
#[derive(Clone, Copy, Debug, PartialEq, Eq, Structural)]
pub struct Detection {
    /// The window's highest level lies above the threshold.
    pub detected: bool,
    /// The window's highest level; `None` for a window without readings.
    pub window_max: Option<u64>,
}

/// The highest level of `s`, or `None` when `s` is empty.
pub open spec fn peak(s: Seq<u64>) -> Option<u64>
    decreases s.len(),
{
    if s.len() == 0 {
        None
    } else {
        match peak(s.drop_last()) {
            Some(m) if m >= s.last() => Some(m),
            _ => Some(s.last()),
        }
    }
}

/// Some level of `s` lies above `threshold`.
pub open spec fn exceeds(s: Seq<u64>, threshold: u64) -> bool {
    exists|i: int| 0 <= i < s.len() && s[i] > threshold
}

/// What the detector reports for the levels `s`.
pub open spec fn detection(s: Seq<u64>, threshold: u64) -> Detection {
    Detection {
        detected: match peak(s) {
            Some(m) => m > threshold,
            None => false,
        },
        window_max: peak(s),
    }
}

/// The peak of a window is one of its levels and no level lies above it; an
/// empty window, and no other, has none.
pub proof fn lemma_peak_is_max(s: Seq<u64>)
    ensures
        peak(s) is None <==> s.len() == 0,
        peak(s) is Some ==> s.contains(peak(s).unwrap()),
        forall|i: int| 0 <= i < s.len() ==> peak(s) is Some && s[i] <= peak(s).unwrap(),
    decreases s.len(),
{
    if s.len() > 0 {
        let t = s.drop_last();
        lemma_peak_is_max(t);
        let m = peak(s).unwrap();
        if t.len() > 0 && peak(t).unwrap() >= s.last() {
            let k = choose|k: int| 0 <= k < t.len() && t[k] == m;
            assert(s[k] == m);
        } else {
            assert(s[s.len() - 1] == m);
        }
        assert forall|i: int| 0 <= i < s.len() implies s[i] <= m by {
            if i < t.len() {
                assert(t[i] == s[i]);
            }
        }
    }
}

/// A window is reported as detected exactly when one of its levels lies
/// above the threshold; an empty window never is.
pub proof fn lemma_detected_iff_exceeds(s: Seq<u64>, threshold: u64)
    ensures
        detection(s, threshold).detected <==> exceeds(s, threshold),
        s.len() == 0 ==> !detection(s, threshold).detected,
{
    lemma_peak_is_max(s);
    if peak(s) is Some {
        let m = peak(s).unwrap();
        if m > threshold {
            let k = choose|k: int| 0 <= k < s.len() && s[k] == m;
            assert(s[k] > threshold);
        }
    }
}

/// Finds the highest level of a window and tells whether it lies above
/// `threshold`.
pub fn detect(strengths: &Vec<u64>, threshold: u64) -> (r: Detection)
    ensures
        r == detection(strengths@, threshold),
        r.detected <==> exceeds(strengths@, threshold),
        strengths@.len() == 0 ==> !r.detected && r.window_max is None,
        r.window_max is Some ==> strengths@.contains(r.window_max.unwrap()),
        forall|i: int|
            0 <= i < strengths@.len() ==> r.window_max is Some && strengths@[i]
                <= r.window_max.unwrap(),
{
    let mut best: Option<u64> = None;
    let mut i: usize = 0;
    while i < strengths.len()
        invariant
            i <= strengths.len(),
            best == peak(strengths@.take(i as int)),
        decreases strengths.len() - i,
    {
        let level: u64 = strengths[i];
        proof {
            assert(strengths@.take(i + 1).drop_last() =~= strengths@.take(i as int));
        }
        best = match best {
            Some(m) if m >= level => Some(m),
            _ => Some(level),
        };
        i += 1;
    }
    proof {
        assert(strengths@.take(strengths.len() as int) =~= strengths@);
        lemma_peak_is_max(strengths@);
        lemma_detected_iff_exceeds(strengths@, threshold);
    }
    let detected = match best {
        Some(m) => m > threshold,
        None => false,
    };
    Detection { detected, window_max: best }
}

} // verus!
