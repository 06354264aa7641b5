use std::io::Write;

use hive::pipeline::{step, Action, Event, StageOutput, State};

fn gzipped_tar(entries: &[(&str, &[u8])]) -> Vec<u8> {
    let mut b = tar::Builder::new(Vec::new());
    for (name, data) in entries {
        let mut h = tar::Header::new_gnu();
        h.set_size(data.len() as u64);
        h.set_mode(0o755);
        h.set_cksum();
        b.append_data(&mut h, name, *data).unwrap();
    }
    let t = b.into_inner().unwrap();
    let mut e = flate2::write::GzEncoder::new(Vec::new(), flate2::Compression::default());
    e.write_all(&t).unwrap();
    e.finish().unwrap()
}

fn out(stdout: &str, exit_success: bool) -> StageOutput {
    StageOutput { stdout: stdout.as_bytes().to_vec(), exit_success }
}

#[test]
fn happy_path_runs_both_stages_and_completes_once() {
    let mut runner_calls = 0;
    let mut completions = 0;

    let (s, a) = step(State::AwaitingPrepare, Event::Prepared);
    assert!(matches!(a, Action::RunCompile));
    runner_calls += 1;

    let (s, a) = step(s, Event::CompileFinished(out("warnings\n", true)));
    assert!(matches!(a, Action::RunRun));
    runner_calls += 1;

    let (s, a) = step(s, Event::RunFinished(out("t1\nA\nB\nB\n\n42\n", true)));
    match a {
        Action::Complete(c) => {
            completions += 1;
            assert_eq!(c.grade, 42);
            assert!(c.report.contains("t1"));
            assert!(c.report.contains("Passed"));
        }
        _ => panic!("expected a completion"),
    }
    assert_eq!(s, State::Done);
    assert_eq!(runner_calls, 2);
    assert_eq!(completions, 1);
}

#[test]
fn compile_failure_never_invokes_the_run_stage() {
    // A stub runner: count how many times the pipeline asks for a process.
    let mut runner_calls = 0;

    let (s, a) = step(State::AwaitingPrepare, Event::Prepared);
    assert!(matches!(a, Action::RunCompile));
    runner_calls += 1;

    let (s, a) = step(s, Event::CompileFinished(out("error: missing semicolon\n", false)));
    match a {
        Action::Complete(c) => {
            assert_eq!(c.grade, 0);
            assert_eq!(c.report, "error: missing semicolon\n");
        }
        _ => panic!("a failed compile must complete the submission"),
    }
    assert_eq!(s, State::Done);
    assert_eq!(runner_calls, 1);
}

#[test]
fn prepare_failure_completes_with_empty_report_and_zero_grade() {
    let (s, a) = step(State::AwaitingPrepare, Event::PrepareFailed);
    match a {
        Action::Complete(c) => {
            assert_eq!(c.grade, 0);
            assert_eq!(c.report, "");
        }
        _ => panic!("an unpack failure must complete the submission"),
    }
    assert_eq!(s, State::Done);
}

#[test]
fn launch_failures_complete_with_zero_grade() {
    let (s, _) = step(State::AwaitingPrepare, Event::Prepared);
    let (s, a) = step(s, Event::CompileLaunchFailed);
    assert!(matches!(a, Action::Complete(ref c) if c.grade == 0 && c.report.is_empty()));
    assert_eq!(s, State::Done);

    let (s, _) = step(State::AwaitingPrepare, Event::Prepared);
    let (s, _) = step(s, Event::CompileFinished(out("", true)));
    let (s, a) = step(s, Event::RunLaunchFailed);
    assert!(matches!(a, Action::Complete(ref c) if c.grade == 0 && c.report.is_empty()));
    assert_eq!(s, State::Done);
}

#[test]
fn run_stage_timeout_output_is_still_parsed() {
    // The runner reports a timed-out stage as an unsuccessful exit with the
    // output produced so far.
    let (s, _) = step(State::AwaitingPrepare, Event::Prepared);
    let (s, _) = step(s, Event::CompileFinished(out("", true)));
    let (_, a) = step(s, Event::RunFinished(out("t1\nA\nB\nB\n\n", false)));
    match a {
        Action::Complete(c) => {
            assert_eq!(c.grade, 0);
            assert!(c.report.contains("t1"));
        }
        _ => panic!("expected a completion"),
    }
}

#[test]
fn invalid_utf8_run_output_reads_as_empty_report() {
    let (s, _) = step(State::AwaitingPrepare, Event::Prepared);
    let (s, _) = step(s, Event::CompileFinished(out("", true)));
    let bad = StageOutput { stdout: vec![0xff, 0xfe, 0x80], exit_success: true };
    let (_, a) = step(s, Event::RunFinished(bad));
    match a {
        Action::Complete(c) => {
            assert_eq!(c.grade, 0);
            assert_eq!(c.report, "");
        }
        _ => panic!("expected a completion"),
    }
}

#[test]
fn concurrent_attempts_are_independent() {
    // Two submissions for the same project, interleaved step by step: each
    // attempt's completion depends only on its own events.
    let (s1, _) = step(State::AwaitingPrepare, Event::Prepared);
    let (s2, _) = step(State::AwaitingPrepare, Event::Prepared);
    let (s1, _) = step(s1, Event::CompileFinished(out("", true)));
    let (s2, _) = step(s2, Event::CompileFinished(out("", true)));
    let (s1, a1) = step(s1, Event::RunFinished(out("t1\nA\nB\nB\n\n90\n", true)));
    let (s2, a2) = step(s2, Event::RunFinished(out("t1\nA\nX\nB\n\n10\n", true)));
    assert_eq!(s1, State::Done);
    assert_eq!(s2, State::Done);
    match (a1, a2) {
        (Action::Complete(c1), Action::Complete(c2)) => {
            assert_eq!(c1.grade, 90);
            assert_eq!(c2.grade, 10);
            assert!(c1.report.contains("Passed"));
            assert!(c2.report.contains("Failed"));
        }
        _ => panic!("both attempts must complete"),
    }
}

#[test]
fn harness_missing_a_stage_script_grades_zero() {
    // An archive without `run` fails validation; the attempt's preparation
    // fails, and the submission is still completed, with grade 0, without the
    // process runner ever being asked for a stage.
    let archive = gzipped_tar(&[("compile", &b"exit 0"[..]), ("user", &b""[..])]);
    assert!(hive::harness::check_harness(&archive).is_err());

    let mut runner_calls = 0;
    let (s, a) = step(State::AwaitingPrepare, Event::PrepareFailed);
    match a {
        Action::Complete(c) => assert_eq!(c.grade, 0),
        _ => {
            runner_calls += 1;
            panic!("a failed preparation must complete the submission");
        }
    }
    assert_eq!(s, State::Done);
    assert_eq!(runner_calls, 0);
}
