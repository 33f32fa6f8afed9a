use yoctoprint::job::{get_abs_gcode_path, GCodeFile, PrintDurationEstimator};

const EPSILON: f64 = 0.01;

fn secs(ms: u64) -> f64 {
    ms as f64 / 1000.0
}

fn job(lines: &[&str]) -> GCodeFile {
    GCodeFile::new("/data/gcode/part.gcode".to_string(), lines.iter().map(|l| l.to_string()).collect())
}

#[test]
fn estimator_one_time_point() {
    let mut estimator = PrintDurationEstimator::new();
    estimator.add_time_point(10000, 10);

    assert!((secs(estimator.get_remaining_time(5, 5000)) - 5.).abs() < EPSILON);
}

#[test]
fn estimator_two_time_points() {
    let mut estimator = PrintDurationEstimator::new();
    estimator.add_time_point(180000, 2000);
    estimator.add_time_point(312000, 3676);

    let rem = estimator.get_remaining_time(3500, 296000);
    assert!((secs(rem) - 11.72).abs() < EPSILON);
}

#[test]
fn estimator_two_time_points_slower() {
    let mut estimator = PrintDurationEstimator::new();
    estimator.add_time_point(180000, 2000);
    estimator.add_time_point(312000, 3676);

    let rem = estimator.get_remaining_time(3400, 311000);
    assert!(secs(rem) > 1.);
}

#[test]
fn estimator_two_time_points_faster() {
    let mut estimator = PrintDurationEstimator::new();
    estimator.add_time_point(180000, 2000);
    estimator.add_time_point(312000, 3676);

    let rem = estimator.get_remaining_time(3500, 290000);
    assert!(secs(rem) < 312. - 290.);
}

#[test]
fn estimator_two_time_points_way_faster() {
    let mut estimator = PrintDurationEstimator::new();
    estimator.add_time_point(180000, 2000);
    estimator.add_time_point(312000, 3676);

    let rem = estimator.get_remaining_time(3500, 200000);
    assert!(rem == 0);
}

#[test]
fn estimator_time_point_later() {
    let mut estimator = PrintDurationEstimator::new();
    estimator.add_time_point(180000, 2000);
    estimator.add_time_point(312000, 3676);

    let rem = estimator.get_remaining_time(3500, 320000);
    assert!(secs(rem) < 312. - 250.);
}

#[test]
fn estimator_interpolation_exact_values() {
    let mut e = PrintDurationEstimator::new();
    e.add_time_point(312000, 3676);
    e.add_time_point(180000, 2000);
    assert_eq!(e.count_points(), 2);
    assert_eq!(e.get_last_time_point_duration(), (3676, 312000));
    assert_eq!(e.get_remaining_time(3500, 296000), 11722);
    assert!(e.get_remaining_time(3500, 250000) < 62000);
    assert_eq!(e.get_remaining_time(3500, 200000), 0);
    // Past the last timepoint the job is complete.
    assert_eq!(e.get_remaining_time(4000, 1), 0);
    // The active index does not move back.
    assert_eq!(e.get_remaining_time(3500, 296000), 0);
}

#[test]
fn estimator_empty_gives_zero() {
    let mut e = PrintDurationEstimator::new();
    assert_eq!(e.count_points(), 0);
    assert_eq!(e.get_remaining_time(1, 1000), 0);
}

#[test]
fn reader_skips_comments_and_blank_lines() {
    let mut f = job(&[";FLAVOR:Marlin", "G28 ; home", "", "   ", "G1 X1  ", ";end"]);
    assert_eq!(f.get_progress(), (0, 6));
    assert_eq!(f.next_line(), (1, "G28".to_string()));
    assert_eq!(f.get_progress(), (2, 6));
    assert_eq!(f.next_line(), (2, "G1 X1".to_string()));
    assert_eq!(f.next_line(), (2, String::new()));
    assert_eq!(f.get_progress(), (6, 6));
    assert_eq!(f.command_line_no(), 2);
}

#[test]
fn reader_never_returns_comments_or_whitespace() {
    let mut f = job(&["  ;a", "\t", "M104 S200;set", "G1 X2 ; ; ;", " G4 "]);
    loop {
        let (_, t) = f.next_line();
        if t.is_empty() {
            break;
        }
        assert!(!t.contains(';'));
        assert!(!t.trim().is_empty());
        let (cur, total) = f.get_progress();
        assert!(f.command_line_no() <= cur && cur <= total);
    }
}

#[test]
fn resend_of_current_line_replays_it() {
    let mut f = job(&["G1 X1", ";c", "G1 X2", "G1 X3"]);
    f.next_line();
    let (n, t) = f.next_line();
    assert_eq!((n, t.as_str()), (2, "G1 X2"));
    f.resend_gcode_line(n);
    assert_eq!(f.next_line(), (2, "G1 X2".to_string()));
    assert_eq!(f.next_line(), (3, "G1 X3".to_string()));
}

#[test]
fn resend_of_earlier_line_rewinds() {
    let mut f = job(&["G1 X1", ";c", "G1 X2", "", "G1 X3"]);
    f.next_line();
    f.next_line();
    f.next_line();
    f.resend_gcode_line(2);
    assert_eq!(f.command_line_no(), 1);
    assert_eq!(f.next_line(), (2, "G1 X2".to_string()));
    f.resend_gcode_line(1);
    assert_eq!(f.next_line(), (1, "G1 X1".to_string()));
    // A line past the end rewinds to the end of the file.
    f.resend_gcode_line(9);
    assert_eq!(f.next_line(), (3, String::new()));
}

#[test]
fn indexing_collects_timepoints() {
    let mut f = job(&[";TIME:100", "G1 X1", ";TIME_ELAPSED:10.5", "G1 X2", ";TIME_ELAPSED:bad", "G1 X3"]);
    assert_eq!(f.get_duration_lines(), Some((6, 100000)));
    assert_eq!(f.name(), "part.gcode");
    assert!(f.get_remaining_time(0).is_some());
    let mut none = job(&["G1 X1"]);
    assert_eq!(none.get_duration_lines(), None);
    assert_eq!(none.get_remaining_time(10), None);
}

#[test]
fn absolute_gcode_paths() {
    assert_eq!(get_abs_gcode_path(&"/home/u/.data".to_string(), &"a.gcode".to_string()), "/home/u/.data/gcode/a.gcode");
    assert_eq!(get_abs_gcode_path(&"/home/u/".to_string(), &"a.gcode".to_string()), "/home/u/gcode/a.gcode");
    assert_eq!(get_abs_gcode_path(&"/home/u".to_string(), &"/tmp/b.gcode".to_string()), "/tmp/b.gcode");
}

#[test]
fn reading_physical_lines_one_at_a_time() {
    let mut f = job(&["G1 X1", ";c", "G1 X2"]);
    assert!(f.step_line());
    assert_eq!((f.get_progress(), f.command_line_no()), ((1, 3), 1));
    assert!(f.step_line());
    assert_eq!((f.get_progress(), f.command_line_no()), ((2, 3), 1));
    assert!(f.step_line());
    assert_eq!((f.get_progress(), f.command_line_no()), ((3, 3), 2));
    assert!(!f.step_line());
    f.resend_gcode_line(2);
    assert_eq!(f.next_line(), (2, "G1 X2".to_string()));
}
