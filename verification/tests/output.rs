use hive::output::fmt;
use hive::report::parse_report;

#[test]
fn passing_record_renders_exactly() {
    let html = fmt(String::from("t1\nA\nB\nB\n\n42\n"));
    assert_eq!(
        html,
        "<fieldset id='pass'>\n<legend>t1\u{2014}Passed</legend>\nInput: A<br>\n\
         Output: B<br>\n<span>Expected: B</span>\n"
    );
}

#[test]
fn failing_record_renders_with_hints() {
    let html = fmt(String::from("t1\nA\nX\nY\nhint one\n\n0\n"));
    assert_eq!(
        html,
        "<fieldset id='fail'>\n<legend>t1\u{2014}Failed</legend>\nInput: A<br>\n\
         Output: X<br>\n<span id='fail'>Expected: Y</span>\n<p>hint one</p>\n"
    );
}

#[test]
fn records_render_in_order() {
    let html = fmt(String::from("t1\nA\nB\nB\n\nt2\nC\nD\nE\n\n7\n"));
    let first = html.find("t1\u{2014}Passed").unwrap();
    let second = html.find("t2\u{2014}Failed").unwrap();
    assert!(first < second);
}

#[test]
fn empty_and_malformed_input_render_to_nothing() {
    assert_eq!(fmt(String::new()), "");
    assert_eq!(fmt(String::from("t1\nA\n")), "");
}

#[test]
fn rendering_agrees_with_the_decoder() {
    let text = "alpha\n1 2\n3\n4\nadd them\n\n55\n";
    let rep = parse_report(text);
    let html = fmt(String::from(text));
    assert!(!rep.records[0].passed());
    assert!(html.contains("alpha\u{2014}Failed"));
    assert!(html.contains("<p>add them</p>"));
    assert_eq!(rep.grade, 55);
}
