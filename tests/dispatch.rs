use rediserve::dispatch::{Action, Event, Execution, PipelineRun};
use rediserve::{ApiError, Reply, StoreError};

fn failure() -> StoreError {
    StoreError { detail: Some("pool timed out".to_string()), message: "timed out".to_string() }
}

#[test]
fn execution_releases_after_reply() {
    let (s, a) = Execution::new().step(Event::Begin);
    assert_eq!(a, Action::Acquire);
    let (s, a) = s.step(Event::Acquired);
    assert_eq!(a, Action::Send);
    let (s, a) = s.step(Event::Replied(Reply::Okay));
    assert_eq!(a, Action::Release);
    assert!(s.is_done());
    assert_eq!(s.into_outcome(), Ok(Reply::Okay));
}

#[test]
fn execution_releases_after_store_failure() {
    let (s, _) = Execution::new().step(Event::Begin);
    let (s, _) = s.step(Event::Acquired);
    let (s, a) = s.step(Event::Failed(failure()));
    assert_eq!(a, Action::Release);
    assert_eq!(s.into_outcome(), Err(ApiError::RedisError(failure())));
}

#[test]
fn failed_acquire_holds_nothing() {
    let (s, _) = Execution::new().step(Event::Begin);
    let (s, a) = s.step(Event::AcquireFailed(failure()));
    assert_eq!(a, Action::Idle);
    assert_eq!(s, Execution::Done(Err(ApiError::RedisError(failure()))));
}

#[test]
fn stray_connection_is_given_back() {
    let (s, _) = Execution::new().step(Event::Begin);
    let (s, _) = s.step(Event::AcquireFailed(failure()));
    let (s, a) = s.step(Event::Acquired);
    assert_eq!(a, Action::Release);
    assert!(s.is_done());
    let (_, a) = Execution::new().step(Event::Replied(Reply::Nil));
    assert_eq!(a, Action::Idle);
}

#[test]
fn pipeline_results_follow_input_order() {
    let mut run = PipelineRun::new(3, 2);
    assert_eq!(run.next_launch(), Some(0));
    assert_eq!(run.next_launch(), Some(1));
    assert_eq!(run.next_launch(), None);
    run.complete(1, Ok(Reply::Integer(1)));
    assert_eq!(run.next_launch(), Some(2));
    assert_eq!(run.next_launch(), None);
    run.complete(2, Err(ApiError::RedisError(failure())));
    assert!(!run.is_finished());
    run.complete(0, Ok(Reply::Integer(0)));
    assert!(run.is_finished());
    let out = run.into_results();
    assert_eq!(
        out,
        vec![Ok(Reply::Integer(0)), Ok(Reply::Integer(1)), Err(ApiError::RedisError(failure()))]
    );
}

#[test]
fn empty_pipeline_is_finished() {
    let mut run = PipelineRun::new(0, 4);
    assert_eq!(run.next_launch(), None);
    assert!(run.is_finished());
    assert!(run.into_results().is_empty());
}
