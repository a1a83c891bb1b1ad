//! The control-plane session: a three-state machine (connect, authenticate,
//! run) driven by connection events, with exponential backoff between
//! connection attempts. The surrounding process performs the returned
//! action (connect, sleep, send, read) and feeds the next event back in.

use vstd::prelude::*;
use vstd::arithmetic::div_mod::{lemma_div_is_ordered, lemma_div_multiples_vanish};

use crate::config::ConfigScheduler;
use crate::protocol::Frame;
use crate::text::{chars_eq_str, chars_of};

verus! {

/// The reconnect backoff: the period grows by `factor_hundredths / 100`
/// per failure and never exceeds `limit_secs`.
#[derive(Debug, Clone, Copy, PartialEq, Eq)]
pub struct Backoff {
    /// The next sleep, in seconds.
    pub period_secs: u64,
    /// Growth per failure, in hundredths; at least 100, so the period
    /// never shrinks.
    pub factor_hundredths: u64,
    /// Ceiling on the period, in seconds.
    pub limit_secs: u64,
}

impl Backoff {
    /// Well-formedness: a sane growth factor, a bounded ceiling, and a
    /// period at or below the ceiling.
    pub open spec fn wf(self) -> bool {
        &&& 100 <= self.factor_hundredths <= 10_000
        &&& self.limit_secs <= 1_000_000_000
        &&& self.period_secs <= self.limit_secs
    }

    /// The period after one more failure: scaled by the factor, rounded
    /// to the nearest second, capped at the ceiling.
    pub open spec fn spec_next_period(self) -> u64 {
        let scaled = (self.period_secs * self.factor_hundredths + 50) / 100;
        if scaled > self.limit_secs {
            self.limit_secs
        } else {
            scaled as u64
        }
    }

    /// The backoff after one more failure.
    pub open spec fn spec_advance(self) -> Backoff {
        Backoff { period_secs: self.spec_next_period(), ..self }
    }

    /// A backoff that starts at the given period, clamped to the ceiling.
    pub fn new(period_secs: u64, factor_hundredths: u64, limit_secs: u64) -> (r: Option<
        Backoff,
    >)
        ensures
            match r {
                Some(b) => {
                    &&& 100 <= factor_hundredths <= 10_000
                    &&& limit_secs <= 1_000_000_000
                    &&& b.factor_hundredths == factor_hundredths
                    &&& b.limit_secs == limit_secs
                    &&& b.period_secs == if period_secs <= limit_secs {
                        period_secs
                    } else {
                        limit_secs
                    }
                    &&& b.wf()
                },
                None => !(100 <= factor_hundredths <= 10_000 && limit_secs <= 1_000_000_000),
            },
    {
        if factor_hundredths < 100 || factor_hundredths > 10_000 || limit_secs > 1_000_000_000 {
            return None;
        }
        let period = if period_secs <= limit_secs {
            period_secs
        } else {
            limit_secs
        };
        Some(Backoff { period_secs: period, factor_hundredths, limit_secs })
    }

    /// Takes the current delay and advances the period for the next
    /// failure.
    pub fn next_delay(&mut self) -> (d: u64)
        requires
            old(self).wf(),
        ensures
            d == old(self).period_secs,
            d <= old(self).limit_secs,
            *final(self) == old(self).spec_advance(),
            final(self).wf(),
            final(self).period_secs >= old(self).period_secs,
    {
        let d = self.period_secs;
        proof {
            lemma_backoff_monotone(*self);
            assert(self.period_secs * self.factor_hundredths <= 1_000_000_000 * 10_000)
                by (nonlinear_arith)
                requires
                    self.period_secs <= 1_000_000_000,
                    self.factor_hundredths <= 10_000,
            ;
        }
        let scaled = (self.period_secs * self.factor_hundredths + 50) / 100;
        if scaled > self.limit_secs {
            self.period_secs = self.limit_secs;
        } else {
            self.period_secs = scaled;
        }
        d
    }
}

/// Backoff monotonicity: the period after a failure is no smaller than the
/// one before, and the period never exceeds the ceiling; both are kept by
/// every advance.
pub proof fn lemma_backoff_monotone(b: Backoff)
    requires
        b.wf(),
    ensures
        b.spec_next_period() >= b.period_secs,
        b.spec_next_period() <= b.limit_secs,
        b.spec_advance().wf(),
        b.period_secs <= b.limit_secs,
{
    let p = b.period_secs as int;
    let f = b.factor_hundredths as int;
    assert(p * f >= p * 100) by (nonlinear_arith)
        requires
            f >= 100,
            p >= 0,
    ;
    lemma_div_is_ordered(p * 100, p * f + 50, 100);
    lemma_div_multiples_vanish(p, 100);
    assert((p * 100) / 100 == p);
    assert((p * f + 50) / 100 >= p);
}

/// One phase of the control-plane session.
#[derive(Debug, Clone, Copy, PartialEq, Eq)]
pub enum SessionPhase {
    /// Trying to reach the scheduler, with the current backoff.
    Connecting(Backoff),
    /// Connected; the token has been sent and the reply is awaited.
    Authenticating,
    /// Authenticated; frames are being served.
    Running,
    /// Authentication was rejected; the runner must stop.
    Stopped,
}

/// What the surrounding process reports back into the state machine.
#[derive(Debug, Clone, PartialEq)]
pub enum SessionEvent {
    ConnectSucceeded,
    ConnectFailed,
    AuthAccepted,
    AuthRejected,
    FrameReceived(Frame),
    ReadFailed,
}

/// What the surrounding process must do next.
#[derive(Debug, Clone, PartialEq)]
pub enum SessionAction {
    /// Attempt a connection to the scheduler.
    TryConnect,
    /// Sleep for the given number of seconds, then attempt a connection.
    SleepSeconds(u64),
    /// Send the runner token as a text frame and await the reply.
    SendToken,
    /// Read the next frame from the socket.
    AwaitFrame,
    /// Decode and serve the received frame, then read on.
    ProcessFrame(Frame),
    /// Exit with a failure: the runner is misconfigured.
    StopFatal,
}

/// The session state machine, remembering the configured backoff so a
/// reconnect starts over from the initial period.
#[derive(Debug, Clone, PartialEq)]
pub struct Session {
    pub initial: Backoff,
    pub phase: SessionPhase,
}

impl Session {
    /// Well-formedness: the template backoff is sane and, while
    /// connecting, the live backoff only differs from it in a period that
    /// has grown within the ceiling.
    pub open spec fn wf(self) -> bool {
        &&& self.initial.wf()
        &&& match self.phase {
            SessionPhase::Connecting(b) => {
                &&& b.wf()
                &&& b.factor_hundredths == self.initial.factor_hundredths
                &&& b.limit_secs == self.initial.limit_secs
                &&& b.period_secs >= self.initial.period_secs
            },
            _ => true,
        }
    }

    /// A fresh session for the configured retry policy, starting in the
    /// connecting phase.
    pub fn new(config: &ConfigScheduler) -> (r: Option<Session>)
        ensures
            match r {
                Some(s) => {
                    &&& s.wf()
                    &&& s.phase == SessionPhase::Connecting(s.initial)
                    &&& s.initial.factor_hundredths == config.retry_scale_hundredths
                    &&& s.initial.limit_secs == config.retry_scale_limit
                    &&& s.initial.period_secs == if config.retry_period
                        <= config.retry_scale_limit {
                        config.retry_period
                    } else {
                        config.retry_scale_limit
                    }
                },
                None => !(100 <= config.retry_scale_hundredths <= 10_000
                    && config.retry_scale_limit <= 1_000_000_000),
            },
    {
        match Backoff::new(
            config.retry_period,
            config.retry_scale_hundredths,
            config.retry_scale_limit,
        ) {
            Some(b) => Some(Session { initial: b, phase: SessionPhase::Connecting(b) }),
            None => None,
        }
    }

    /// Feeds one event into the machine and says what to do next.
    ///
    /// Connection failures sleep for the current backoff period and retry
    /// with a grown period; a successful connection starts the handshake;
    /// a rejected handshake stops the runner; a read failure sleeps for
    /// the initial period and reconnects from a fresh backoff. An event
    /// that does not belong to the current phase leaves the machine where
    /// it is and asks for the phase's own action again.
    pub fn step(&mut self, event: SessionEvent) -> (action: SessionAction)
        requires
            old(self).wf(),
        ensures
            final(self).wf(),
            final(self).initial == old(self).initial,
            match old(self).phase {
                SessionPhase::Connecting(b) => match event {
                    SessionEvent::ConnectSucceeded => {
                        &&& final(self).phase == SessionPhase::Authenticating
                        &&& action == SessionAction::SendToken
                    },
                    SessionEvent::ConnectFailed => {
                        &&& final(self).phase == SessionPhase::Connecting(b.spec_advance())
                        &&& action == SessionAction::SleepSeconds(b.period_secs)
                        &&& b.period_secs <= b.limit_secs
                    },
                    _ => {
                        &&& final(self).phase == old(self).phase
                        &&& action == SessionAction::TryConnect
                    },
                },
                SessionPhase::Authenticating => match event {
                    SessionEvent::AuthAccepted => {
                        &&& final(self).phase == SessionPhase::Running
                        &&& action == SessionAction::AwaitFrame
                    },
                    SessionEvent::AuthRejected => {
                        &&& final(self).phase == SessionPhase::Stopped
                        &&& action == SessionAction::StopFatal
                    },
                    _ => {
                        &&& final(self).phase == old(self).phase
                        &&& action == SessionAction::SendToken
                    },
                },
                SessionPhase::Running => match event {
                    SessionEvent::FrameReceived(f) => {
                        &&& final(self).phase == SessionPhase::Running
                        &&& action == SessionAction::ProcessFrame(f)
                    },
                    SessionEvent::ReadFailed => {
                        &&& final(self).phase == SessionPhase::Connecting(old(self).initial)
                        &&& action == SessionAction::SleepSeconds(
                            old(self).initial.period_secs,
                        )
                    },
                    _ => {
                        &&& final(self).phase == old(self).phase
                        &&& action == SessionAction::AwaitFrame
                    },
                },
                SessionPhase::Stopped => {
                    &&& final(self).phase == SessionPhase::Stopped
                    &&& action == SessionAction::StopFatal
                },
            },
    {
        match self.phase {
            SessionPhase::Connecting(b) => match event {
                SessionEvent::ConnectSucceeded => {
                    self.phase = SessionPhase::Authenticating;
                    SessionAction::SendToken
                },
                SessionEvent::ConnectFailed => {
                    let mut backoff = b;
                    let delay = backoff.next_delay();
                    proof {
                        lemma_backoff_monotone(b);
                    }
                    self.phase = SessionPhase::Connecting(backoff);
                    SessionAction::SleepSeconds(delay)
                },
                _ => SessionAction::TryConnect,
            },
            SessionPhase::Authenticating => match event {
                SessionEvent::AuthAccepted => {
                    self.phase = SessionPhase::Running;
                    SessionAction::AwaitFrame
                },
                SessionEvent::AuthRejected => {
                    self.phase = SessionPhase::Stopped;
                    SessionAction::StopFatal
                },
                _ => SessionAction::SendToken,
            },
            SessionPhase::Running => match event {
                SessionEvent::FrameReceived(f) => SessionAction::ProcessFrame(f),
                SessionEvent::ReadFailed => {
                    self.phase = SessionPhase::Connecting(self.initial);
                    SessionAction::SleepSeconds(self.initial.period_secs)
                },
                _ => SessionAction::AwaitFrame,
            },
            SessionPhase::Stopped => SessionAction::StopFatal,
        }
    }
}

/// Whether a handshake reply accepts the runner: exactly the text frame
/// `auth-ok` does.
pub fn auth_reply_ok(reply: &Frame) -> (r: bool)
    ensures
        r == match reply {
            Frame::Text(t) => t@ == "auth-ok"@,
            _ => false,
        },
{
    match reply {
        Frame::Text(t) => {
            let c = chars_of(t.as_str());
            chars_eq_str(&c, "auth-ok")
        },
        _ => false,
    }
}

} // verus!
