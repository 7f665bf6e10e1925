use twitter_pipeline::twitter::{
    wait_and_call, wait_before_retry, CallError, Connection, NextStep, RelationLookup,
    TwitterApiResponse, WaitMode,
};

fn finished<T, E>(step: NextStep<T, E>) -> Result<T, CallError<E>> {
    match step {
        NextStep::Finish(outcome) => outcome,
        NextStep::RetryAfter { .. } => panic!("the call should be over"),
    }
}

/// Runs a call against scripted answers with a clock that only sleeping moves.
/// Returns the outcome and the nanoseconds slept.
fn run_scripted(
    mut answers: Vec<TwitterApiResponse<u32, String>>,
    mode: WaitMode,
    start_nanos: u128,
) -> (Result<u32, CallError<String>>, u128, usize) {
    answers.reverse();
    let mut now = start_nanos;
    let mut calls = 0;
    loop {
        let answer = answers.pop().expect("the script ran out");
        calls += 1;
        match wait_and_call(answer, mode, now) {
            NextStep::Finish(outcome) => return (outcome, now - start_nanos, calls),
            NextStep::RetryAfter { nanos } => now += nanos as u128,
        }
    }
}

#[test]
fn blocking_call_waits_until_reset_then_succeeds() {
    let now_secs: i32 = 1_700_000_000;
    let start = now_secs as u128 * 1_000_000_000;
    let answers = vec![
        TwitterApiResponse::RateLimitError(now_secs + 2),
        TwitterApiResponse::Data(7),
    ];
    let (outcome, slept, calls) = run_scripted(answers, WaitMode::BlockUntilReset, start);
    assert!(matches!(outcome, Ok(7)));
    assert!(slept >= 2_000_000_000);
    assert_eq!(slept, 2_000_000_000);
    assert_eq!(calls, 2);
}

#[test]
fn blocking_call_keeps_waiting_while_limited() {
    let start = 100u128 * 1_000_000_000;
    let answers = vec![
        TwitterApiResponse::RateLimitError(101),
        TwitterApiResponse::RateLimitError(105),
        TwitterApiResponse::Error("gone".to_string()),
    ];
    let (outcome, slept, calls) = run_scripted(answers, WaitMode::BlockUntilReset, start);
    assert!(matches!(outcome, Err(CallError::Remote(ref e)) if e == "gone"));
    assert_eq!(slept, 5_000_000_000);
    assert_eq!(calls, 3);
}

#[test]
fn fail_fast_call_returns_rate_limited() {
    let step: NextStep<u32, String> =
        wait_and_call(TwitterApiResponse::RateLimitError(500), WaitMode::FailFast, 0);
    assert!(matches!(finished(step), Err(CallError::RateLimited { reset_at: 500 })));
}

#[test]
fn success_and_other_errors_end_the_call_in_both_modes() {
    for mode in [WaitMode::FailFast, WaitMode::BlockUntilReset] {
        let ok: NextStep<u32, String> = wait_and_call(TwitterApiResponse::Data(3), mode, 77);
        assert!(matches!(finished(ok), Ok(3)));
        let failed: NextStep<u32, String> =
            wait_and_call(TwitterApiResponse::Error("boom".to_string()), mode, 77);
        assert!(matches!(finished(failed), Err(CallError::Remote(ref e)) if e == "boom"));
    }
}

#[test]
fn wait_is_exact_to_the_nanosecond() {
    assert_eq!(wait_before_retry(10, 9_500_000_000), 500_000_000);
    assert_eq!(wait_before_retry(10, 9_999_999_999), 1);
    assert_eq!(wait_before_retry(10, 10_000_000_000), 0);
    assert_eq!(wait_before_retry(10, 11_000_000_000), 0);
    assert_eq!(wait_before_retry(0, 0), 0);
    assert_eq!(wait_before_retry(-5, 0), 0);
    assert_eq!(wait_before_retry(i32::MAX, 0), 2_147_483_647_000_000_000);
    assert_eq!(wait_before_retry(1, u128::MAX), 0);
}

#[test]
fn a_reset_in_the_past_retries_at_once() {
    let step: NextStep<u32, String> = wait_and_call(
        TwitterApiResponse::RateLimitError(5),
        WaitMode::BlockUntilReset,
        6_000_000_000,
    );
    assert!(matches!(step, NextStep::RetryAfter { nanos: 0 }));
}

#[test]
fn relation_reads_its_connections() {
    let both = RelationLookup {
        id: 1,
        connections: vec![Connection::Following, Connection::FollowedBy],
    };
    assert!(both.is_friend() && both.is_follower() && !both.is_pending());
    let pending = RelationLookup { id: 2, connections: vec![Connection::FollowingRequested] };
    assert!(!pending.is_friend() && !pending.is_follower() && pending.is_pending());
    let none = RelationLookup { id: 3, connections: vec![Connection::Unrelated] };
    assert!(!none.is_friend() && !none.is_follower() && !none.is_pending());
    let empty = RelationLookup { id: 4, connections: vec![] };
    assert!(!empty.is_friend() && !empty.is_follower() && !empty.is_pending());
    let others = RelationLookup {
        id: 5,
        connections: vec![
            Connection::Blocking,
            Connection::Muting,
            Connection::FollowingReceived,
        ],
    };
    assert!(!others.is_friend() && !others.is_follower() && !others.is_pending());
}
