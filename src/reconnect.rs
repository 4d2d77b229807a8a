//! The reconnection policy: a capped, growing delay between attempts, reset by
//! a welcome and switched off for good by a rejection of the credentials.

use vstd::prelude::*;

verus! {

/// The delay that a welcome from the server brings back.
pub const BASE_DELAY_MS: u64 = 1000;

/// The step by which the delay grows after each attempt.
pub const DELAY_STEP_MS: u64 = 1000;

/// The longest delay between two attempts.
pub const MAX_DELAY_MS: u64 = 60000;

/// What the session does once the connection is gone.
#[derive(Debug, Clone, Copy, PartialEq, Eq, Structural)]
pub enum Decision {
    /// Stop: no further attempt is made.
    Terminate,
    /// Wait `wait_ms` milliseconds (none when zero), then connect again.
    Reconnect { wait_ms: u64 },
}

/// A signal from the connection that the policy reacts to.
#[derive(Debug, Clone, Copy, PartialEq, Eq, Structural)]
pub enum Signal {
    Welcome,
    AuthRejected,
    Disconnected,
}

/// The reconnection state, as the contracts see it.
pub struct ReconnectModel {
    pub allow_reconnect: bool,
    pub delay_ms: u64,
    pub max_delay_ms: u64,
}

/// The reconnection state. Its fields change only through the transitions
/// below, so a rejection of the credentials cannot be undone.
#[derive(Debug, Clone, Copy, PartialEq, Eq, Structural)]
pub struct ReconnectState {
    allow_reconnect: bool,
    delay_ms: u64,
    max_delay_ms: u64,
}

pub open spec fn min_int(a: int, b: int) -> int {
    if a <= b { a } else { b }
}

impl ReconnectModel {
    pub open spec fn wf(self) -> bool {
        self.max_delay_ms == MAX_DELAY_MS && self.delay_ms <= self.max_delay_ms
    }

    /// The state before the first disconnect: no delay yet.
    pub open spec fn fresh() -> ReconnectModel {
        ReconnectModel { allow_reconnect: true, delay_ms: 0, max_delay_ms: MAX_DELAY_MS }
    }

    pub open spec fn welcomed(self) -> ReconnectModel {
        ReconnectModel { delay_ms: BASE_DELAY_MS, ..self }
    }

    pub open spec fn rejected(self) -> ReconnectModel {
        ReconnectModel { allow_reconnect: false, ..self }
    }

    pub open spec fn decision(self) -> Decision {
        if self.allow_reconnect {
            Decision::Reconnect { wait_ms: self.delay_ms }
        } else {
            Decision::Terminate
        }
    }

    pub open spec fn after_disconnect(self) -> ReconnectModel {
        if self.allow_reconnect {
            ReconnectModel {
                delay_ms: min_int(self.delay_ms + DELAY_STEP_MS, self.max_delay_ms as int) as u64,
                ..self
            }
        } else {
            self
        }
    }

    pub open spec fn apply(self, sig: Signal) -> ReconnectModel {
        match sig {
            Signal::Welcome => self.welcomed(),
            Signal::AuthRejected => self.rejected(),
            Signal::Disconnected => self.after_disconnect(),
        }
    }

    /// The state after each signal of `sigs` in turn.
    pub open spec fn run(self, sigs: Seq<Signal>) -> ReconnectModel
        decreases sigs.len(),
    {
        if sigs.len() == 0 {
            self
        } else {
            self.apply(sigs[0]).run(sigs.drop_first())
        }
    }

    /// The state after `n` disconnects in a row.
    pub open spec fn after_failures(self, n: nat) -> ReconnectModel
        decreases n,
    {
        if n == 0 {
            self
        } else {
            self.after_disconnect().after_failures((n - 1) as nat)
        }
    }
}

impl View for ReconnectState {
    type V = ReconnectModel;

    closed spec fn view(&self) -> ReconnectModel {
        ReconnectModel {
            allow_reconnect: self.allow_reconnect,
            delay_ms: self.delay_ms,
            max_delay_ms: self.max_delay_ms,
        }
    }
}

impl ReconnectState {
    /// Whether a lost connection is followed by another attempt.
    pub fn allow_reconnect(&self) -> (r: bool)
        ensures
            r == self@.allow_reconnect,
    {
        self.allow_reconnect
    }

    /// The wait before the next attempt, in milliseconds.
    pub fn delay_ms(&self) -> (r: u64)
        ensures
            r == self@.delay_ms,
    {
        self.delay_ms
    }

    pub fn new() -> (r: ReconnectState)
        ensures
            r@ == ReconnectModel::fresh(),
            r@.wf(),
    {
        ReconnectState { allow_reconnect: true, delay_ms: 0, max_delay_ms: MAX_DELAY_MS }
    }

    /// The server welcomed the session: the delay falls back to its base.
    pub fn on_welcome(&mut self)
        requires
            old(self)@.wf(),
        ensures
            final(self)@ == old(self)@.welcomed(),
            final(self)@.wf(),
    {
        self.delay_ms = BASE_DELAY_MS;
    }

    /// The server refused the credentials: no attempt is made from now on.
    pub fn on_auth_rejected(&mut self)
        requires
            old(self)@.wf(),
        ensures
            final(self)@ == old(self)@.rejected(),
            final(self)@.wf(),
    {
        self.allow_reconnect = false;
    }

    /// The connection is gone: stop, or reconnect after the current delay,
    /// which then grows by one step up to the cap.
    pub fn on_disconnect(&mut self) -> (r: Decision)
        requires
            old(self)@.wf(),
        ensures
            r == old(self)@.decision(),
            final(self)@ == old(self)@.after_disconnect(),
            final(self)@.wf(),
    {
        if !self.allow_reconnect {
            return Decision::Terminate;
        }
        let wait_ms = self.delay_ms;
        self.delay_ms = if self.delay_ms + DELAY_STEP_MS <= self.max_delay_ms {
            self.delay_ms + DELAY_STEP_MS
        } else {
            self.max_delay_ms
        };
        Decision::Reconnect { wait_ms }
    }
}

/// From a fresh state, the `n`-th failed attempt in a row waits
/// `min(n * 1000, 60000)` milliseconds, counting the first as the zeroth: 0,
/// 1000, 2000, and so on up to the cap.
pub proof fn lemma_backoff_sequence(n: nat)
    ensures
        ReconnectModel::fresh().after_failures(n).decision()
            == (Decision::Reconnect { wait_ms: min_int(n * DELAY_STEP_MS, MAX_DELAY_MS as int) as u64 }),
        ReconnectModel::fresh().after_failures(n).wf(),
        ReconnectModel::fresh().after_failures(n).allow_reconnect,
    decreases n,
{
    if n > 0 {
        lemma_after_failures_last(ReconnectModel::fresh(), (n - 1) as nat);
        lemma_backoff_sequence((n - 1) as nat);
    }
}

proof fn lemma_after_failures_last(s: ReconnectModel, n: nat)
    ensures
        s.after_failures(n + 1) == s.after_failures(n).after_disconnect(),
    decreases n,
{
    assert(s.after_failures(n + 1) == s.after_disconnect().after_failures(n));
    if n > 0 {
        lemma_after_failures_last(s.after_disconnect(), (n - 1) as nat);
        assert(s.after_failures(n) == s.after_disconnect().after_failures((n - 1) as nat));
    }
}

/// A welcome puts the delay back at its base at once, whatever came before:
/// the next attempt waits 1000 milliseconds.
pub proof fn lemma_welcome_resets(s: ReconnectModel)
    requires
        s.wf(),
        s.allow_reconnect,
    ensures
        s.welcomed().decision() == (Decision::Reconnect { wait_ms: BASE_DELAY_MS }),
{
}

/// Once the credentials were rejected, no signal that follows leads to
/// another attempt, whether reconnecting was allowed before or not.
pub proof fn lemma_no_attempt_after_rejection(s: ReconnectModel, later: Seq<Signal>)
    ensures
        s.rejected().run(later).decision() == Decision::Terminate,
        !s.rejected().run(later).allow_reconnect,
    decreases later.len(),
{
    if later.len() > 0 {
        let next = s.rejected().apply(later[0]);
        assert(!next.allow_reconnect);
        assert(next.rejected() == next);
        lemma_no_attempt_after_rejection(next, later.drop_first());
    }
}

} // verus!
