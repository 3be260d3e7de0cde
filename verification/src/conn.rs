use vstd::prelude::*;

verus! {

/// Success / accepted-for-processing status.
pub const STATUS_OK: i32 = 0;

/// Returned by enqueueing calls when no session is active.
pub const STATUS_NOT_STARTED: i32 = -1;

/// Returned by `start` when every connection attempt was exhausted.
pub const STATUS_CONNECT_FAILED: i32 = -2;

/// Returned by `poll` when the session is not live.
pub const STATUS_NOT_LIVE: i32 = -3;

/// Fixed wait between two connection attempts, in milliseconds.
pub const RETRY_INTERVAL_MS: u64 = 500;

/// Bound on failed connection attempts before the manager gives up.
pub const MAX_CONNECT_ATTEMPTS: u64 = 10;

/// Interval at which `start` polls for the connection outcome, in
/// milliseconds.
pub const START_POLL_INTERVAL_MS: u64 = 50;

/// Window within which `start` waits for a connection outcome, in
/// milliseconds.
pub const START_WAIT_WINDOW_MS: u64 = 6000;

/// Overall timeout for one asset download, in milliseconds.
pub const DOWNLOAD_TIMEOUT_MS: u64 = 30_000;

/// Connection-manager state machine: `Idle -> Connecting -> Connected`
/// or `Failed`. `Connecting` carries the number of attempts that have
/// already failed.
#[derive(Clone, Copy, PartialEq, Eq, Structural, Debug)]
pub enum ConnState {
    Idle,
    Connecting { attempts: u64 },
    Connected,
    Failed,
}

impl ConnState {
    /// Reachable states never count more failed attempts than the bound.
    pub open spec fn wf(self) -> bool {
        match self {
            ConnState::Connecting { attempts } => attempts < MAX_CONNECT_ATTEMPTS,
            _ => true,
        }
    }

    /// The two states `start` reports on.
    pub open spec fn is_terminal(self) -> bool {
        self is Connected || self is Failed
    }

    /// Where one connection attempt leads. Success connects; a stop request
    /// observed mid-retry aborts back to `Idle` without reporting failure;
    /// exhausting the attempt bound fails; otherwise the manager keeps
    /// retrying with one more recorded failure.
    pub open spec fn spec_after_attempt(self, success: bool, stop_requested: bool) -> ConnState {
        if success {
            ConnState::Connected
        } else if stop_requested {
            ConnState::Idle
        } else {
            match self {
                ConnState::Connecting { attempts } => {
                    if attempts + 1 >= MAX_CONNECT_ATTEMPTS {
                        ConnState::Failed
                    } else {
                        ConnState::Connecting { attempts: (attempts + 1) as u64 }
                    }
                },
                _ => self,
            }
        }
    }

    /// Record the outcome of one connection attempt.
    pub fn record_attempt(&mut self, success: bool, stop_requested: bool)
        requires
            *old(self) is Connecting,
            old(self).wf(),
        ensures
            *final(self) == old(self).spec_after_attempt(success, stop_requested),
            final(self).wf(),
    {
        if success {
            *self = ConnState::Connected;
        } else if stop_requested {
            *self = ConnState::Idle;
        } else {
            match *self {
                ConnState::Connecting { attempts } => {
                    if attempts + 1 >= MAX_CONNECT_ATTEMPTS {
                        *self = ConnState::Failed;
                    } else {
                        *self = ConnState::Connecting { attempts: attempts + 1 };
                    }
                },
                _ => {},
            }
        }
    }

    /// Whether the retry loop has another attempt to make.
    pub fn should_retry(&self) -> (r: bool)
        ensures
            r == (self is Connecting),
    {
        match self {
            ConnState::Connecting { .. } => true,
            _ => false,
        }
    }
}

/// The state after `n` consecutive failed attempts without a stop request.
pub open spec fn spec_after_failures(s: ConnState, n: nat) -> ConnState
    decreases n,
{
    if n == 0 {
        s
    } else {
        spec_after_failures(s, (n - 1) as nat).spec_after_attempt(false, false)
    }
}

/// The retry loop is bounded: from any connecting state, the remaining
/// attempts up to the bound all failing leaves the manager in the terminal
/// `Failed` state, so `start` never waits on an unbounded retry loop.
pub proof fn lemma_retry_bounded(attempts: u64, n: nat)
    requires
        attempts < MAX_CONNECT_ATTEMPTS,
        n == MAX_CONNECT_ATTEMPTS - attempts,
    ensures
        spec_after_failures(ConnState::Connecting { attempts }, n) == ConnState::Failed,
    decreases n,
{
    let c0 = ConnState::Connecting { attempts };
    if attempts + 1 >= MAX_CONNECT_ATTEMPTS {
        assert(n == 1);
        assert(spec_after_failures(c0, 1) == spec_after_failures(c0, 0).spec_after_attempt(
            false,
            false,
        ));
    } else {
        let c1 = ConnState::Connecting { attempts: (attempts + 1) as u64 };
        assert(c0.spec_after_attempt(false, false) == c1);
        lemma_retry_bounded((attempts + 1) as u64, (n - 1) as nat);
        lemma_after_failures_shift(c0, (n - 1) as nat);
        assert(spec_after_failures(c0, n) == spec_after_failures(c1, (n - 1) as nat));
    }
}

/// Unrolling `spec_after_failures` from the front instead of the back.
proof fn lemma_after_failures_shift(s: ConnState, n: nat)
    ensures
        spec_after_failures(s, n + 1) == spec_after_failures(
            s.spec_after_attempt(false, false),
            n,
        ),
    decreases n,
{
    let s1 = s.spec_after_attempt(false, false);
    if n == 0 {
        assert(spec_after_failures(s, 1) == spec_after_failures(s, 0).spec_after_attempt(
            false,
            false,
        ));
    } else {
        lemma_after_failures_shift(s, (n - 1) as nat);
        assert(spec_after_failures(s, n + 1) == spec_after_failures(s, n).spec_after_attempt(
            false,
            false,
        ));
        assert(spec_after_failures(s1, n) == spec_after_failures(
            s1,
            (n - 1) as nat,
        ).spec_after_attempt(false, false));
    }
}

/// What the caller-facing `start` decides while polling the connection
/// outcome: success as soon as the manager connects, failure as soon as it
/// fails, and — deliberately, for backward compatibility — success once the
/// bounded window has elapsed with neither flag observed. `None` means
/// "keep polling".
pub open spec fn spec_start_wait_decision(conn: ConnState, elapsed_ms: u64) -> Option<i32> {
    if conn is Connected {
        Some(STATUS_OK)
    } else if conn is Failed {
        Some(STATUS_CONNECT_FAILED)
    } else if elapsed_ms >= START_WAIT_WINDOW_MS {
        Some(STATUS_OK)
    } else {
        None
    }
}

/// Executable form of [`spec_start_wait_decision`].
pub fn start_wait_decision(conn: &ConnState, elapsed_ms: u64) -> (r: Option<i32>)
    ensures
        r == spec_start_wait_decision(*conn, elapsed_ms),
{
    match conn {
        ConnState::Connected => Some(STATUS_OK),
        ConnState::Failed => Some(STATUS_CONNECT_FAILED),
        _ => {
            if elapsed_ms >= START_WAIT_WINDOW_MS {
                Some(STATUS_OK)
            } else {
                None
            }
        },
    }
}

/// Liveness status reported by `poll`: success exactly when the worker
/// thread is alive and the manager reached `Connected`.
pub open spec fn spec_poll_status(worker_alive: bool, conn: ConnState) -> i32 {
    if worker_alive && conn is Connected {
        STATUS_OK
    } else {
        STATUS_NOT_LIVE
    }
}

/// Executable form of [`spec_poll_status`].
pub fn poll_status(worker_alive: bool, conn: &ConnState) -> (r: i32)
    ensures
        r == spec_poll_status(worker_alive, *conn),
{
    if worker_alive {
        match conn {
            ConnState::Connected => STATUS_OK,
            _ => STATUS_NOT_LIVE,
        }
    } else {
        STATUS_NOT_LIVE
    }
}

} // verus!
