//! When a client tries again, and how long it waits before that.

use vstd::arithmetic::power2::*;
use vstd::prelude::*;
use crate::vpn_error::VpnError;

verus! {

/// The first delay, in milliseconds.
pub const BACKOFF_BASE_MS: u64 = 1000;

/// The longest delay, in milliseconds.
///
/// Thirty seconds: a phone that changes between networks fails to connect several times in a
/// row, and a longer dead window after that would be felt.
pub const BACKOFF_MAX_MS: u64 = 30000;

/// The bound of the random part of a delay, in milliseconds.
pub const BACKOFF_JITTER_MS: u64 = 500;

/// Calls `Rng::random_range` of `rand` on its thread-local generator, which returns a number
/// from the half-open range; the call panics on an empty one.
#[verifier::external_body]
fn random_below(bound: u64) -> (r: u64)
    requires
        bound > 0,
    ensures
        r < bound,
{
    rand::Rng::random_range(&mut rand::rng(), 0..bound)
}

/// The delay before an attempt, without its random part: it doubles with every attempt.
pub open spec fn base_delay_ms(attempt: u32) -> nat {
    BACKOFF_BASE_MS as nat * pow2(if attempt == 0 { 0 } else { (attempt - 1) as nat })
}

/// The delay before an attempt: the base delay and the random part, cut off at the longest.
pub open spec fn delay_ms(attempt: u32, jitter_ms: u64) -> nat {
    let total = base_delay_ms(attempt) + jitter_ms as nat;
    if total <= BACKOFF_MAX_MS {
        total
    } else {
        BACKOFF_MAX_MS as nat
    }
}

/// The base delay grows with the number of attempts.
pub proof fn lemma_base_delay_grows(a: u32, b: u32)
    requires
        a <= b,
    ensures
        BACKOFF_BASE_MS <= base_delay_ms(a) <= base_delay_ms(b),
{
    let x: nat = if a == 0 {
        0
    } else {
        (a - 1) as nat
    };
    let y: nat = if b == 0 {
        0
    } else {
        (b - 1) as nat
    };
    lemma_pow2_pos(x);
    if x < y {
        lemma_pow2_strictly_increases(x, y);
    }
    let p = pow2(x);
    let q = pow2(y);
    assert(1000 <= 1000 * p <= 1000 * q) by (nonlinear_arith)
        requires
            1 <= p <= q,
    ;
}

/// Calculates the delay before an attempt from the random part that was drawn.
pub fn calculate_backoff_with_jitter(attempt: u32, jitter_ms: u64) -> (ms: u64)
    ensures
        ms == delay_ms(attempt, jitter_ms),
{
    let shift: u32 = if attempt == 0 {
        0
    } else {
        attempt - 1
    };
    let mut base_ms: u64 = BACKOFF_BASE_MS;
    let mut i: u32 = 0;
    proof {
        lemma2_to64();
    }
    while i < shift && base_ms < BACKOFF_MAX_MS
        invariant
            i <= shift,
            shift == (if attempt == 0 { 0 } else { attempt - 1 }),
            base_ms == BACKOFF_BASE_MS * pow2(i as nat),
            base_ms < 2 * BACKOFF_MAX_MS,
        decreases shift - i,
    {
        proof {
            lemma_pow2_unfold((i + 1) as nat);
        }
        base_ms = base_ms * 2;
        i += 1;
    }
    proof {
        if i < shift {
            lemma_base_delay_grows((i + 1) as u32, attempt);
            assert(base_ms <= base_delay_ms(attempt));
        }
    }
    if base_ms >= BACKOFF_MAX_MS || jitter_ms >= BACKOFF_MAX_MS - base_ms {
        BACKOFF_MAX_MS
    } else {
        base_ms + jitter_ms
    }
}

/// Calculates the delay before an attempt, with jitter.
///
/// The delay is `base * 2^(attempt - 1)` and up to half a second more, so that clients that
/// lost the same server do not come back all at once. The cap is applied to the sum.
pub fn calculate_backoff(attempt: u32) -> (ms: u64)
    ensures
        exists|jitter_ms: u64|
            jitter_ms < BACKOFF_JITTER_MS && ms == #[trigger] delay_ms(attempt, jitter_ms),
{
    let jitter_ms: u64 = random_below(BACKOFF_JITTER_MS);
    calculate_backoff_with_jitter(attempt, jitter_ms)
}

/// A delay is never longer than the cap, never shorter than the base delay unless the cap
/// cuts it off, and at most the jitter longer than that.
pub proof fn law_backoff_is_bounded(attempt: u32, jitter_ms: u64)
    requires
        jitter_ms < BACKOFF_JITTER_MS,
    ensures
        BACKOFF_BASE_MS <= delay_ms(attempt, jitter_ms) <= BACKOFF_MAX_MS,
        delay_ms(attempt, jitter_ms) < base_delay_ms(attempt) + BACKOFF_JITTER_MS,
        base_delay_ms(attempt) <= BACKOFF_MAX_MS ==> base_delay_ms(attempt) <= delay_ms(
            attempt,
            jitter_ms,
        ),
{
    lemma_base_delay_grows(0, attempt);
    lemma2_to64();
}

/// Later attempts never wait shorter for the same jitter, and from the sixth on the delay is
/// the cap whatever the jitter.
pub proof fn law_backoff_grows_to_the_cap(a: u32, b: u32, jitter_ms: u64)
    requires
        a <= b,
    ensures
        delay_ms(a, jitter_ms) <= delay_ms(b, jitter_ms),
        6 <= a ==> delay_ms(a, jitter_ms) == BACKOFF_MAX_MS,
{
    lemma_base_delay_grows(a, b);
    if 6 <= a {
        lemma2_to64();
        lemma_base_delay_grows(6, a);
    }
}

/// What a client does after a connection ended.
#[derive(Debug, PartialEq, Eq)]
pub enum NextStep {
    /// The connection ended in good order.
    Finish,
    /// Wait, and connect again.
    Retry,
    /// Give up with this error.
    GiveUp(VpnError),
}

/// The attempts of a client that keeps its tunnel up.
#[derive(Debug)]
pub struct ReconnectLoop {
    /// The attempts in a row, the last one that brought the tunnel up counted.
    pub attempt: u32,
    /// The attempts that are allowed in a row, the first one counted; `None` for no limit. One
    /// means to try once and to exit on any failure.
    pub max_attempts: Option<u32>,
}

/// The number of attempts that stand after a failure. A tunnel that was up and broke starts the
/// count again, and its own attempt is the first of the new count. Something that failed was
/// tried at least once.
pub open spec fn attempts_after(attempt: u32, error: VpnError) -> u32 {
    if error is ConnectionLost || attempt == 0 {
        1
    } else {
        attempt
    }
}

/// A failure that is worth another attempt, as far as the limit allows one.
pub open spec fn tries_again(attempt: u32, max_attempts: Option<u32>, error: VpnError) -> bool {
    error.recoverable() && (max_attempts is Some ==> attempts_after(attempt, error)
        < max_attempts->0)
}

/// The number of attempts once another has begun.
pub open spec fn begun(attempt: u32) -> u32 {
    if attempt == u32::MAX {
        u32::MAX
    } else {
        (attempt + 1) as u32
    }
}

/// What follows the end of a connection.
pub open spec fn step_after(
    attempt: u32,
    max_attempts: Option<u32>,
    outcome: Result<(), VpnError>,
) -> NextStep {
    match outcome {
        Ok(()) => NextStep::Finish,
        Err(e) => if tries_again(attempt, max_attempts, e) {
            NextStep::Retry
        } else if e.recoverable() {
            NextStep::GiveUp(VpnError::MaxReconnectAttemptsExceeded(max_attempts->0))
        } else {
            NextStep::GiveUp(e)
        },
    }
}

impl ReconnectLoop {
    /// A client that has not tried yet.
    pub fn new(max_attempts: Option<u32>) -> (l: Self)
        ensures
            l == (ReconnectLoop { attempt: 0, max_attempts }),
    {
        ReconnectLoop { attempt: 0, max_attempts }
    }

    /// Counts an attempt.
    pub fn begin(&mut self)
        ensures
            *final(self) == (ReconnectLoop {
                attempt: if old(self).attempt == u32::MAX {
                    u32::MAX
                } else {
                    (old(self).attempt + 1) as u32
                },
                ..*old(self)
            }),
            final(self).attempt == begun(old(self).attempt),
    {
        self.attempt = self.attempt.saturating_add(1);
    }

    /// Decides what follows the end of a connection.
    ///
    /// Only recoverable errors are tried again, and at most as often as allowed; a connection
    /// that was up before it broke is the first attempt of a new count. Other errors end the
    /// loop. With one attempt allowed, every failure does.
    pub fn after(&mut self, outcome: Result<(), VpnError>) -> (step: NextStep)
        ensures
            final(self).max_attempts == old(self).max_attempts,
            match outcome {
                Ok(()) => {
                    &&& step is Finish
                    &&& final(self).attempt == old(self).attempt
                },
                Err(e) => {
                    &&& final(self).attempt == attempts_after(old(self).attempt, e)
                    &&& step is Retry <==> tries_again(old(self).attempt, old(self).max_attempts, e)
                    &&& !e.recoverable() ==> step == NextStep::GiveUp(e)
                    &&& e.recoverable() && !tries_again(
                        old(self).attempt,
                        old(self).max_attempts,
                        e,
                    ) ==> step == NextStep::GiveUp(
                        VpnError::MaxReconnectAttemptsExceeded(old(self).max_attempts->0),
                    )
                    &&& old(self).max_attempts == Some(1u32) ==> step == (if e.recoverable() {
                        NextStep::GiveUp(VpnError::MaxReconnectAttemptsExceeded(1))
                    } else {
                        NextStep::GiveUp(e)
                    })
                },
            },
            step == step_after(old(self).attempt, old(self).max_attempts, outcome),
    {
        match outcome {
            Ok(()) => NextStep::Finish,
            Err(e) => {
                let lost: bool = match e {
                    VpnError::ConnectionLost(_) => true,
                    _ => false,
                };
                if lost || self.attempt == 0 {
                    self.attempt = 1;
                }
                if !e.is_recoverable() {
                    return NextStep::GiveUp(e);
                }
                match self.max_attempts {
                    Some(max) if self.attempt >= max => NextStep::GiveUp(
                        VpnError::MaxReconnectAttemptsExceeded(max),
                    ),
                    _ => NextStep::Retry,
                }
            },
        }
    }

    /// The milliseconds to wait before the next attempt.
    pub fn retry_delay_ms(&self) -> (ms: u64)
        ensures
            exists|jitter_ms: u64|
                jitter_ms < BACKOFF_JITTER_MS && ms == #[trigger] delay_ms(self.attempt, jitter_ms),
    {
        calculate_backoff(self.attempt)
    }
}

/// The state of the loop after `errors` in a row, if it tried again after each of them.
pub open spec fn attempts_survived(max_attempts: Option<u32>, errors: Seq<VpnError>) -> Option<u32>
    decreases errors.len(),
{
    if errors.len() == 0 {
        Some(0)
    } else {
        match attempts_survived(max_attempts, errors.drop_last()) {
            Some(attempt) => {
                let now: u32 = if attempt == u32::MAX {
                    u32::MAX
                } else {
                    (attempt + 1) as u32
                };
                if tries_again(now, max_attempts, errors.last()) {
                    Some(attempts_after(now, errors.last()))
                } else {
                    None
                }
            },
            None => None,
        }
    }
}

/// A client with a limit connects at most that many times in a row: it survives `k` failures,
/// of which the first may have been a tunnel that was up, only if `k` is below the limit. Without
/// a limit, recoverable failures never end the loop.
pub proof fn law_attempts_are_limited(max_attempts: Option<u32>, errors: Seq<VpnError>)
    requires
        forall|i: int| 0 <= i < errors.len() ==> (#[trigger] errors[i]).recoverable(),
        forall|i: int| 0 < i < errors.len() ==> !((#[trigger] errors[i]) is ConnectionLost),
    ensures
        max_attempts is Some && max_attempts->0 > 0 ==> (attempts_survived(
            max_attempts,
            errors,
        ) is Some <==> errors.len() < max_attempts->0),
        max_attempts is None ==> attempts_survived(max_attempts, errors) is Some,
{
    lemma_attempts_counted(max_attempts, errors);
}

/// The count that [`law_attempts_are_limited`] rests on.
proof fn lemma_attempts_counted(max_attempts: Option<u32>, errors: Seq<VpnError>)
    requires
        forall|i: int| 0 <= i < errors.len() ==> (#[trigger] errors[i]).recoverable(),
        forall|i: int| 0 < i < errors.len() ==> !((#[trigger] errors[i]) is ConnectionLost),
    ensures
        max_attempts is Some && max_attempts->0 > 0 ==> (attempts_survived(
            max_attempts,
            errors,
        ) is Some <==> errors.len() < max_attempts->0),
        max_attempts is None ==> attempts_survived(max_attempts, errors) is Some,
        max_attempts is Some && max_attempts->0 > 0 && errors.len() < max_attempts->0
            ==> attempts_survived(max_attempts, errors)->0 == errors.len(),
    decreases errors.len(),
{
    if errors.len() > 0 {
        let head = errors.drop_last();
        assert forall|i: int| 0 <= i < head.len() implies (#[trigger] head[i]).recoverable() && (i
            > 0 ==> !(head[i] is ConnectionLost)) by {
            assert(head[i] == errors[i]);
        }
        lemma_attempts_counted(max_attempts, head);
        assert(errors.last() == errors[errors.len() - 1]);
    }
}

/// A tunnel that was up and broke is tried again, however often it happens, unless the limit
/// allows a single attempt, and the wait before it is the shortest there is.
pub proof fn law_lost_tunnel_is_tried_again(
    attempt: u32,
    max_attempts: Option<u32>,
    error: VpnError,
    jitter_ms: u64,
)
    requires
        error is ConnectionLost,
        max_attempts is Some ==> max_attempts->0 > 1,
        jitter_ms < BACKOFF_JITTER_MS,
    ensures
        tries_again(attempt, max_attempts, error),
        delay_ms(attempts_after(attempt, error), jitter_ms) == BACKOFF_BASE_MS + jitter_ms,
{
    lemma2_to64();
}

/// With one attempt allowed nothing is tried again, whatever the failure and however the count
/// stands, a tunnel that was up and broke not excepted.
pub proof fn law_a_single_attempt_is_not_repeated(attempt: u32, error: VpnError)
    ensures
        !tries_again(attempt, Some(1u32), error),
{
}

/// The delay starts at a second, doubles with every further attempt, and with its jitter on top
/// stays at half a minute at the most.
pub proof fn law_backoff_doubles(attempt: u32, jitter_ms: u64)
    ensures
        attempt <= 1 ==> base_delay_ms(attempt) == 1000,
        1 <= attempt < u32::MAX ==> base_delay_ms((attempt + 1) as u32) == 2 * base_delay_ms(
            attempt,
        ),
        base_delay_ms(attempt) + jitter_ms <= 30000 ==> delay_ms(attempt, jitter_ms)
            == base_delay_ms(attempt) + jitter_ms,
        base_delay_ms(attempt) + jitter_ms > 30000 ==> delay_ms(attempt, jitter_ms) == 30000,
{
    lemma2_to64();
    if attempt >= 1 {
        lemma_pow2_unfold(attempt as nat);
        assert(1000 * (2 * pow2((attempt - 1) as nat)) == 2 * (1000 * pow2((attempt - 1) as nat)));
    }
}

/// What decides on another attempt: only a lost connection, a network error or a signaling error
/// can be tried again; without a limit they always are, and with one as long as fewer attempts
/// than that were made. A lost connection starts the count again.
pub proof fn law_retries_follow_their_rule(
    attempt: u32,
    max_attempts: Option<u32>,
    error: VpnError,
)
    ensures
        error.recoverable() <==> error is ConnectionLost || error is Network || error is Signaling,
        !error.recoverable() ==> !tries_again(attempt, max_attempts, error),
        error.recoverable() && max_attempts is None ==> tries_again(attempt, max_attempts, error),
        error is ConnectionLost && max_attempts is Some ==> (tries_again(
            attempt,
            max_attempts,
            error,
        ) <==> 1 < max_attempts->0),
        error.recoverable() && !(error is ConnectionLost) && attempt > 0 && max_attempts is Some
            ==> (tries_again(attempt, max_attempts, error) <==> attempt < max_attempts->0),
        error is ConnectionLost ==> attempts_after(attempt, error) == 1,
        !(error is ConnectionLost) && attempt > 0 ==> attempts_after(attempt, error) == attempt,
{
}

/// A connection that ended in good order is not tried again. An error that cannot be recovered
/// from is handed on as it is; one that can be is tried again, or ends in the limit that was
/// reached. Without a limit nothing that can be recovered from ends the loop.
pub proof fn law_loop_ends_for_a_reason(
    attempt: u32,
    max_attempts: Option<u32>,
    outcome: Result<(), VpnError>,
)
    requires
        attempt > 0,
    ensures
        ({
            let step = step_after(attempt, max_attempts, outcome);
            &&& step is Finish <==> outcome is Ok
            &&& outcome matches Err(e) ==> {
                let again = e is ConnectionLost || e is Network || e is Signaling;
                let count: u32 = if e is ConnectionLost {
                    1
                } else {
                    attempt
                };
                &&& !again ==> step == NextStep::GiveUp(e)
                &&& again && max_attempts is None ==> step is Retry
                &&& again && max_attempts is Some && count < max_attempts->0 ==> step is Retry
                &&& again && max_attempts is Some && count >= max_attempts->0 ==> step
                    == NextStep::GiveUp(
                    VpnError::MaxReconnectAttemptsExceeded(max_attempts->0),
                )
            }
        }),
{
}

/// Every attempt counts as one, and counting all the attempts of a loop is counting them one by
/// one.
pub proof fn law_attempts_count_by_one(
    max_attempts: Option<u32>,
    errors: Seq<VpnError>,
    error: VpnError,
    attempt: u32,
)
    requires
        attempts_survived(max_attempts, errors) == Some(attempt),
    ensures
        attempt < u32::MAX ==> begun(attempt) == attempt + 1,
        attempt == u32::MAX ==> begun(attempt) == attempt,
        step_after(begun(attempt), max_attempts, Err(error)) is Retry <==> attempts_survived(
            max_attempts,
            errors.push(error),
        ) is Some,
{
    assert(errors.push(error).drop_last() =~= errors);
}

} // verus!
