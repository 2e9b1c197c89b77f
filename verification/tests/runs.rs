use launch_scripts::run::{Event, Failure, Phase, Run, DELAY_MS};

#[test]
fn delay_is_one_second() {
    assert_eq!(DELAY_MS, 1000);
}

#[test]
fn new_run_is_idle() {
    let run = Run::new(3, true);
    assert_eq!(run.phase(), Phase::Idle);
    assert_eq!(run.total(), 3);
    assert!(run.submits());
}

#[test]
fn run_without_submission_writes_each_shape_in_order() {
    let mut run = Run::new(3, false);
    assert_eq!(run.advance(Event::Begin), Phase::Writing(0));
    assert_eq!(run.advance(Event::Finished), Phase::Writing(1));
    assert_eq!(run.advance(Event::Finished), Phase::Writing(2));
    assert_eq!(run.advance(Event::Finished), Phase::Done);
    assert_eq!(run.phase(), Phase::Done);
}

#[test]
fn run_with_submission_writes_submits_and_delays() {
    let mut run = Run::new(2, true);
    assert_eq!(run.advance(Event::Begin), Phase::Writing(0));
    assert_eq!(run.advance(Event::Finished), Phase::Submitting(0));
    assert_eq!(run.advance(Event::Finished), Phase::Delaying(0));
    assert_eq!(run.advance(Event::Finished), Phase::Writing(1));
    assert_eq!(run.advance(Event::Finished), Phase::Submitting(1));
    assert_eq!(run.advance(Event::Finished), Phase::Delaying(1));
    assert_eq!(run.advance(Event::Finished), Phase::Done);
}

#[test]
fn run_over_nothing_is_done_at_once() {
    let mut run = Run::new(0, true);
    assert_eq!(run.advance(Event::Begin), Phase::Done);
    let mut run = Run::new(0, false);
    assert_eq!(run.advance(Event::Begin), Phase::Done);
}

#[test]
fn failed_submission_ends_the_run() {
    let mut run = Run::new(3, true);
    run.advance(Event::Begin);
    run.advance(Event::Finished);
    assert_eq!(run.phase(), Phase::Submitting(0));
    assert_eq!(run.advance(Event::Broke), Phase::Failed(Failure::Subprocess));
    for event in [Event::Begin, Event::Finished, Event::Broke, Event::Finished] {
        assert_eq!(run.advance(event), Phase::Failed(Failure::Subprocess));
    }
}

#[test]
fn failed_submission_of_a_later_shape_ends_the_run() {
    let mut run = Run::new(3, true);
    run.advance(Event::Begin);
    for _ in 0..4 {
        run.advance(Event::Finished);
    }
    assert_eq!(run.phase(), Phase::Submitting(1));
    assert_eq!(run.advance(Event::Broke), Phase::Failed(Failure::Subprocess));
    assert_eq!(run.advance(Event::Finished), Phase::Failed(Failure::Subprocess));
}

#[test]
fn failed_write_ends_the_run() {
    let mut run = Run::new(3, false);
    run.advance(Event::Begin);
    run.advance(Event::Finished);
    assert_eq!(run.phase(), Phase::Writing(1));
    assert_eq!(run.advance(Event::Broke), Phase::Failed(Failure::Io));
    assert_eq!(run.advance(Event::Finished), Phase::Failed(Failure::Io));
    assert_eq!(run.advance(Event::Begin), Phase::Failed(Failure::Io));
}

#[test]
fn events_that_are_not_waited_for_change_nothing() {
    let mut run = Run::new(2, true);
    assert_eq!(run.advance(Event::Finished), Phase::Idle);
    assert_eq!(run.advance(Event::Broke), Phase::Idle);
    assert_eq!(run.advance(Event::Begin), Phase::Writing(0));
    assert_eq!(run.advance(Event::Begin), Phase::Writing(0));
    run.advance(Event::Finished);
    assert_eq!(run.advance(Event::Begin), Phase::Submitting(0));
    run.advance(Event::Finished);
    assert_eq!(run.advance(Event::Begin), Phase::Delaying(0));
    assert_eq!(run.advance(Event::Broke), Phase::Delaying(0));
}

#[test]
fn done_run_stays_done() {
    let mut run = Run::new(1, false);
    run.advance(Event::Begin);
    assert_eq!(run.advance(Event::Finished), Phase::Done);
    for event in [Event::Begin, Event::Finished, Event::Broke] {
        assert_eq!(run.advance(event), Phase::Done);
    }
}

#[test]
fn run_without_submission_never_submits_or_delays() {
    let mut run = Run::new(5, false);
    let mut phase = run.advance(Event::Begin);
    let mut written = Vec::new();
    while phase != Phase::Done {
        match phase {
            Phase::Writing(i) => written.push(i),
            other => panic!("unexpected phase {:?}", other),
        }
        phase = run.advance(Event::Finished);
    }
    assert_eq!(written, vec![0, 1, 2, 3, 4]);
}

#[test]
fn run_over_the_largest_count_does_not_overflow() {
    let mut run = Run::new(usize::MAX, false);
    assert_eq!(run.advance(Event::Begin), Phase::Writing(0));
    assert_eq!(run.advance(Event::Finished), Phase::Writing(1));
}
