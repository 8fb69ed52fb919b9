use zwave_scan::detect::Detection;
use zwave_scan::scan::{instant_scan, Action, Scan, INSTANT_SECONDS, WINDOW_SECONDS};

const SECOND: u128 = 1_000_000_000;

#[test]
fn ten_second_scan_with_four_detections() {
    let mut scan = Scan::new(0, 10, 50);
    let mut window: u64 = 0;
    while scan.next_action(window as u128 * SECOND) == Action::Acquire {
        let levels: Vec<u64> = if window == 2 || window == 3 || window == 4 || window == 6 {
            vec![10, 60, 5]
        } else {
            vec![10, 20, 5]
        };
        scan.window(window, &levels);
        window += 1;
    }
    assert_eq!(window, 10);
    assert_eq!(scan.raw, vec![(2, 3), (3, 4), (4, 5), (6, 7)]);
    let result = scan.finish();
    assert_eq!(result.intervals, vec![(2, 7)]);
    assert_eq!(result.durations, "2-7");
    assert!(result.detected);
    assert_eq!(result.max_level, 60);
}

#[test]
fn scan_without_detection() {
    let mut scan = Scan::new(0, 3, 50);
    scan.window(0, &vec![1, 2, 3]);
    scan.window(1, &vec![]);
    scan.window(2, &vec![50, 4]);
    assert!(scan.raw.is_empty());
    let result = scan.finish();
    assert!(!result.detected);
    assert_eq!(result.max_level, 50);
    assert_eq!(result.intervals, vec![]);
    assert_eq!(result.durations, "");
}

#[test]
fn new_scan_is_blank() {
    let scan = Scan::new(4, 9, 50);
    assert_eq!(scan.countdown, 4);
    assert_eq!(scan.duration, 9);
    assert_eq!(scan.threshold, 50);
    assert_eq!(scan.scan_max, 0);
    assert!(!scan.detected);
    assert!(scan.raw.is_empty());
}

#[test]
fn countdown_comes_before_sampling() {
    let mut scan = Scan::new(2, 10, 50);
    assert_eq!(scan.next_action(0), Action::Wait { seconds_left: 2 });
    scan.slept();
    assert_eq!(scan.next_action(0), Action::Wait { seconds_left: 1 });
    scan.slept();
    assert_eq!(scan.next_action(0), Action::Acquire);
    scan.slept();
    assert_eq!(scan.countdown, 0);
    assert_eq!(scan.next_action(0), Action::Acquire);
}

#[test]
fn last_partial_second_is_not_sampled() {
    let scan = Scan::new(0, 10, 50);
    assert_eq!(WINDOW_SECONDS, 1);
    assert_eq!(scan.next_action(0), Action::Acquire);
    assert_eq!(scan.next_action(9 * SECOND), Action::Acquire);
    assert_eq!(scan.next_action(9 * SECOND + 1), Action::Finish);
    assert_eq!(scan.next_action(10 * SECOND), Action::Finish);
    assert_eq!(scan.next_action(11 * SECOND), Action::Finish);
    assert_eq!(scan.next_action(u128::MAX), Action::Finish);
}

#[test]
fn scan_of_no_length_never_samples() {
    let scan = Scan::new(0, 0, 50);
    assert_eq!(scan.next_action(0), Action::Finish);
    let result = scan.finish();
    assert!(!result.detected);
    assert_eq!(result.max_level, 0);
    assert_eq!(result.durations, "");
}

#[test]
fn longest_scan_still_decides() {
    let scan = Scan::new(0, u64::MAX, 50);
    assert_eq!(scan.next_action(0), Action::Acquire);
    assert_eq!(scan.next_action((u64::MAX as u128 - 1) * SECOND), Action::Acquire);
    assert_eq!(scan.next_action((u64::MAX as u128 - 1) * SECOND + 1), Action::Finish);
}

#[test]
fn observe_raises_the_running_maximum() {
    let mut scan = Scan::new(0, 10, 50);
    scan.observe(0, Detection { detected: false, window_max: Some(30) });
    assert_eq!(scan.scan_max, 30);
    scan.observe(1, Detection { detected: false, window_max: Some(20) });
    assert_eq!(scan.scan_max, 30);
    scan.observe(2, Detection { detected: false, window_max: None });
    assert_eq!(scan.scan_max, 30);
    assert!(!scan.detected);
    scan.observe(3, Detection { detected: true, window_max: Some(70) });
    assert_eq!(scan.scan_max, 70);
    assert!(scan.detected);
    assert_eq!(scan.raw, vec![(3, 4)]);
    scan.observe(4, Detection { detected: false, window_max: Some(1) });
    assert!(scan.detected);
    assert_eq!(scan.raw, vec![(3, 4)]);
}

#[test]
fn window_reports_what_it_saw() {
    let mut scan = Scan::new(0, 10, 50);
    assert_eq!(scan.window(0, &vec![]), Detection { detected: false, window_max: None });
    assert_eq!(
        scan.window(1, &vec![10, 60, 5]),
        Detection { detected: true, window_max: Some(60) }
    );
    assert_eq!(scan.raw, vec![(1, 2)]);
}

#[test]
fn detections_with_a_long_pause_stay_apart() {
    let mut scan = Scan::new(0, 30, 50);
    scan.window(1, &vec![51]);
    scan.window(2, &vec![52]);
    scan.window(20, &vec![99]);
    let result = scan.finish();
    assert_eq!(result.intervals, vec![(1, 3), (20, 21)]);
    assert_eq!(result.durations, "1-3,20-21");
    assert_eq!(result.max_level, 99);
}

#[test]
fn instant_scan_with_a_signal() {
    let result = instant_scan(&vec![10, 60, 5], 50);
    assert!(result.detected);
    assert_eq!(result.max_level, 60);
    assert_eq!(result.intervals, vec![]);
    assert_eq!(INSTANT_SECONDS, 5);
    assert_eq!(result.durations, "5");
}

#[test]
fn instant_scan_without_a_signal() {
    let result = instant_scan(&vec![10, 50, 5], 50);
    assert!(!result.detected);
    assert_eq!(result.max_level, 50);
    assert_eq!(result.durations, "5");
}

#[test]
fn instant_scan_without_readings() {
    let result = instant_scan(&vec![], 50);
    assert!(!result.detected);
    assert_eq!(result.max_level, 0);
    assert_eq!(result.durations, "5");
}
