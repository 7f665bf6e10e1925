//! What the pipeline reads from answers of the remote relationship service, and how a
//! call that ran into the service's rate limit goes on.
use vstd::prelude::*;

verus! {

/// One way in which an account is connected to the operator's account.
#[derive(Clone, Copy, Debug, PartialEq, Eq, Structural)]
pub enum Connection {
    /// No relation at all.
    Unrelated,
    /// The operator has asked to follow the account.
    FollowingRequested,
    /// The account has asked to follow the operator.
    FollowingReceived,
    /// The account follows the operator.
    FollowedBy,
    /// The operator follows the account.
    Following,
    /// The operator blocks the account.
    Blocking,
    /// The operator mutes the account.
    Muting,
}

/// The service's answer to a relationship lookup for one account.
#[derive(Clone, Debug)]
pub struct RelationLookup {
    pub id: u64,
    pub connections: Vec<Connection>,
}

impl RelationLookup {
    /// Whether `wanted` is among the connections.
    pub open spec fn has(&self, wanted: Connection) -> bool {
        self.connections@.contains(wanted)
    }

    /// The operator follows the account.
    pub open spec fn friend(&self) -> bool {
        self.has(Connection::Following)
    }

    /// The account follows the operator.
    pub open spec fn follower(&self) -> bool {
        self.has(Connection::FollowedBy)
    }

    /// The operator has an open request to follow the account.
    pub open spec fn pending(&self) -> bool {
        self.has(Connection::FollowingRequested)
    }

    fn has_connection(&self, wanted: Connection) -> (found: bool)
        ensures
            found == self.has(wanted),
    {
        let mut i: usize = 0;
        while i < self.connections.len()
            invariant
                i <= self.connections.len(),
                forall|k: int| 0 <= k < i ==> self.connections@[k] != wanted,
            decreases self.connections.len() - i,
        {
            if self.connections[i] == wanted {
                return true;
            }
            i += 1;
        }
        false
    }

    pub fn is_friend(&self) -> (yes: bool)
        ensures
            yes == self.friend(),
    {
        self.has_connection(Connection::Following)
    }

    pub fn is_follower(&self) -> (yes: bool)
        ensures
            yes == self.follower(),
    {
        self.has_connection(Connection::FollowedBy)
    }

    pub fn is_pending(&self) -> (yes: bool)
        ensures
            yes == self.pending(),
    {
        self.has_connection(Connection::FollowingRequested)
    }
}

/// What the pipeline reads of an account's profile.
#[derive(Clone, Copy, Debug, PartialEq, Eq, Structural)]
pub struct Profile {
    pub id: u64,
    /// How many accounts the account follows.
    pub friends_count: i32,
    /// When the account last posted, in Unix seconds, if it ever did.
    pub last_status_at: Option<i64>,
}

/// What a call site does when the service says that the rate limit is used up.
#[derive(Clone, Copy, Debug, PartialEq, Eq, Structural)]
pub enum WaitMode {
    /// Give the call up at once.
    FailFast,
    /// Sleep until the limit is lifted, then call again.
    BlockUntilReset,
}

/// One answer of the service, sorted by how the caller goes on.
pub enum TwitterApiResponse<T, E> {
    /// The decoded result.
    Data(T),
    /// The rate limit is used up; it is lifted at this Unix time, in seconds.
    RateLimitError(i32),
    /// Any other failure.
    Error(E),
}

/// Why a call was given up.
pub enum CallError<E> {
    /// The rate limit was hit and the call site does not wait.
    RateLimited { reset_at: i32 },
    /// The service failed otherwise; the failure is handed on as it came.
    Remote(E),
}

/// What the caller does after one answer.
pub enum NextStep<T, E> {
    /// The call is over, with this outcome.
    Finish(Result<T, CallError<E>>),
    /// Sleep for this many nanoseconds (none, if 0), then make the same call again.
    RetryAfter { nanos: u64 },
}

/// Nanoseconds in a second.
pub const NANOS_PER_SECOND: u64 = 1_000_000_000;

/// Nanoseconds from `now_nanos` until the Unix second `reset_at` begins; 0 if that
/// moment has passed. Both are counted from the Unix epoch.
pub open spec fn time_until_reset(reset_at: i32, now_nanos: u128) -> int {
    if reset_at * NANOS_PER_SECOND > now_nanos {
        reset_at * NANOS_PER_SECOND - now_nanos
    } else {
        0
    }
}

/// The step that follows `response` at a call site with wait mode `mode`, when the clock
/// reads `now_nanos`.
pub open spec fn step_after<T, E>(
    response: TwitterApiResponse<T, E>,
    mode: WaitMode,
    now_nanos: u128,
) -> NextStep<T, E> {
    match response {
        TwitterApiResponse::Data(value) => NextStep::Finish(Ok(value)),
        TwitterApiResponse::Error(e) => NextStep::Finish(Err(CallError::Remote(e))),
        TwitterApiResponse::RateLimitError(reset_at) => match mode {
            WaitMode::FailFast => NextStep::Finish(Err(CallError::RateLimited { reset_at })),
            WaitMode::BlockUntilReset => NextStep::RetryAfter {
                nanos: time_until_reset(reset_at, now_nanos) as u64,
            },
        },
    }
}

/// How long a blocking caller sleeps before it calls again.
pub fn wait_before_retry(reset_at: i32, now_nanos: u128) -> (nanos: u64)
    ensures
        nanos == time_until_reset(reset_at, now_nanos),
{
    if reset_at <= 0 {
        return 0;
    }
    let reset_nanos: u128 = (reset_at as u128) * 1_000_000_000u128;
    if reset_nanos > now_nanos {
        (reset_nanos - now_nanos) as u64
    } else {
        0
    }
}

/// Decides how a call goes on after one answer of the service. Success and failures
/// other than the rate limit end the call; the rate limit ends it only at a call site
/// that does not wait.
pub fn wait_and_call<T, E>(response: TwitterApiResponse<T, E>, mode: WaitMode, now_nanos: u128) -> (step:
    NextStep<T, E>)
    ensures
        step == step_after(response, mode, now_nanos),
{
    match response {
        TwitterApiResponse::Data(value) => NextStep::Finish(Ok(value)),
        TwitterApiResponse::Error(e) => NextStep::Finish(Err(CallError::Remote(e))),
        TwitterApiResponse::RateLimitError(reset_at) => match mode {
            WaitMode::FailFast => NextStep::Finish(Err(CallError::RateLimited { reset_at })),
            WaitMode::BlockUntilReset => NextStep::RetryAfter {
                nanos: wait_before_retry(reset_at, now_nanos),
            },
        },
    }
}

/// A call site that waits never sees the rate limit as a failure: it is told to sleep
/// until the limit is lifted, not a nanosecond less, and not at all once that moment
/// has passed. A call site that does not wait is never told to call again.
pub proof fn lemma_rate_limit_is_waited_out<T, E>(
    response: TwitterApiResponse<T, E>,
    mode: WaitMode,
    now_nanos: u128,
)
    ensures
        mode == WaitMode::BlockUntilReset ==> !(step_after(response, mode, now_nanos) matches NextStep::Finish(
            Err(CallError::RateLimited { .. }),
        )),
        mode == WaitMode::FailFast ==> step_after(response, mode, now_nanos) is Finish,
        mode == WaitMode::BlockUntilReset ==> (response matches TwitterApiResponse::RateLimitError(
            reset_at,
        ) ==> {
            &&& step_after(response, mode, now_nanos) matches NextStep::RetryAfter { nanos }
            &&& now_nanos + nanos >= reset_at * NANOS_PER_SECOND
            &&& nanos == 0 <==> now_nanos >= reset_at * NANOS_PER_SECOND
        }),
{
    match response {
        TwitterApiResponse::RateLimitError(reset_at) => {
            assert(0 <= time_until_reset(reset_at, now_nanos) <= i32::MAX * NANOS_PER_SECOND);
        },
        _ => {},
    }
}

} // verus!
