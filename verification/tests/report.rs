use hive::report::parse_report;

#[test]
fn one_passing_block_with_grade() {
    let r = parse_report("t1\nA\nB\nB\n\n42\n");
    assert_eq!(r.records.len(), 1);
    let t = &r.records[0];
    assert_eq!(t.name, "t1");
    assert_eq!(t.provided, "A");
    assert_eq!(t.received, "B");
    assert_eq!(t.expected, "B");
    assert!(t.passed());
    assert_eq!(t.hints.len(), 0);
    assert_eq!(r.grade, 42);
}

#[test]
fn one_failing_block_with_hint() {
    let r = parse_report("t1\nA\nX\nY\nhint one\n\n0\n");
    assert_eq!(r.records.len(), 1);
    let t = &r.records[0];
    assert_eq!(t.name, "t1");
    assert!(!t.passed());
    assert_eq!(t.hints.len(), 1);
    assert_eq!(t.hints[0], "hint one");
    assert_eq!(r.grade, 0);
}

#[test]
fn missing_grade_line_defaults_to_zero() {
    let r = parse_report("t1\nA\nB\nB\n\n");
    assert_eq!(r.records.len(), 1);
    assert!(r.records[0].passed());
    assert_eq!(r.grade, 0);
}

#[test]
fn truncated_block_yields_no_record_and_zero_grade() {
    let r = parse_report("t1\nA\n");
    assert_eq!(r.records.len(), 0);
    assert_eq!(r.grade, 0);
    let r = parse_report("t1\nA\nB\n");
    assert_eq!(r.records.len(), 0);
    assert_eq!(r.grade, 0);
}

#[test]
fn truncated_block_keeps_earlier_records() {
    let r = parse_report("t1\nA\nB\nB\n\nt2\nC\n");
    assert_eq!(r.records.len(), 1);
    assert_eq!(r.records[0].name, "t1");
    assert_eq!(r.grade, 0);
}

#[test]
fn lone_nonblank_line_is_the_grade_line() {
    let r = parse_report("t1\nA\nB\nB\n\nnot a number\n");
    assert_eq!(r.records.len(), 1);
    assert_eq!(r.grade, 0);
}

#[test]
fn empty_input_is_an_empty_report() {
    let r = parse_report("");
    assert_eq!(r.records.len(), 0);
    assert_eq!(r.grade, 0);
}

#[test]
fn several_blocks_keep_their_order() {
    let r = parse_report("t1\nA\nB\nB\n\nt2\nC\nD\nE\nwrong sign\nsee notes\n\n7\n");
    assert_eq!(r.records.len(), 2);
    assert_eq!(r.records[0].name, "t1");
    assert!(r.records[0].passed());
    assert_eq!(r.records[1].name, "t2");
    assert!(!r.records[1].passed());
    assert_eq!(r.records[1].hints.len(), 2);
    assert_eq!(r.records[1].hints[0], "wrong sign");
    assert_eq!(r.records[1].hints[1], "see notes");
    assert_eq!(r.grade, 7);
}

#[test]
fn blank_lines_between_blocks_are_skipped() {
    let r = parse_report("\n\nt1\nA\nB\nB\n\n\n\n5\n");
    assert_eq!(r.records.len(), 1);
    assert_eq!(r.grade, 5);
}

#[test]
fn hints_run_to_end_of_input_without_blank() {
    let r = parse_report("t1\nA\nX\nY\nhint a\nhint b");
    assert_eq!(r.records.len(), 1);
    assert_eq!(r.records[0].hints.len(), 2);
    assert_eq!(r.grade, 0);
}

#[test]
fn carriage_returns_before_breaks_are_stripped() {
    let r = parse_report("t1\r\nA\r\nB\r\nB\r\n\r\n42\r\n");
    assert_eq!(r.records.len(), 1);
    assert_eq!(r.records[0].name, "t1");
    assert!(r.records[0].passed());
    assert_eq!(r.grade, 42);
}

#[test]
fn negative_and_signed_grades() {
    assert_eq!(parse_report("t1\nA\nB\nB\n\n-5\n").grade, -5);
    assert_eq!(parse_report("t1\nA\nB\nB\n\n+7\n").grade, 7);
}

#[test]
fn grade_bounds_of_a_32_bit_integer() {
    assert_eq!(parse_report("t1\nA\nB\nB\n\n2147483647\n").grade, 2147483647);
    assert_eq!(parse_report("t1\nA\nB\nB\n\n-2147483648\n").grade, -2147483648);
    assert_eq!(parse_report("t1\nA\nB\nB\n\n2147483648\n").grade, 0);
    assert_eq!(parse_report("t1\nA\nB\nB\n\n-2147483649\n").grade, 0);
    assert_eq!(parse_report("t1\nA\nB\nB\n\n99999999999999999999999999\n").grade, 0);
}

#[test]
fn malformed_grade_lines_default_to_zero() {
    assert_eq!(parse_report("t1\nA\nB\nB\n\n12a\n").grade, 0);
    assert_eq!(parse_report("t1\nA\nB\nB\n\n- 2\n").grade, 0);
    assert_eq!(parse_report("t1\nA\nB\nB\n\n+\n").grade, 0);
}

#[test]
fn pass_is_exact_equality() {
    let r = parse_report("t\nin\nout \nout\n\n0\n");
    assert!(!r.records[0].passed());
    let r = parse_report("t\nin\n\n\n\n0\n");
    assert!(r.records[0].passed());
}
