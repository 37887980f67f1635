//! Decisions of the task that owns the outbound connection to one peer:
//! when to connect, send, back off, give up on a message, and report the
//! peer online or offline. The task itself (sockets, timers, channels) runs
//! these decisions and reports back what happened.

use vstd::prelude::*;

verus! {

/// How long one connection attempt or request may take.
pub const RPC_TIMEOUT_MS: u64 = 1000;

/// An open connection with no traffic for this long is closed.
pub const RPC_INACTIVITY_TIMEOUT: u64 = 300_000;

/// The longest wait between two connection attempts.
pub const RPC_MAX_BACKOFF_MS: u64 = 180_000;

/// After this many failed attempts the pending message is given up.
pub const RPC_MAX_CONNECT_ATTEMPTS: u32 = 5;

/// The random part of a backoff delay is below this.
pub const RPC_BACKOFF_JITTER_MS: u64 = 1000;

/// Capacity of the peer's mailbox.
pub const IPC_CHANNEL_BUFFER: usize = 1024;

pub open spec fn pow2(n: nat) -> nat
    decreases n,
{
    if n == 0 {
        1
    } else {
        2 * pow2((n - 1) as nat)
    }
}

pub open spec fn min_nat(a: nat, b: nat) -> nat {
    if a < b {
        a
    } else {
        b
    }
}

/// Truncated exponential backoff: `2^attempt` milliseconds plus the random
/// part, at most `RPC_MAX_BACKOFF_MS`.
pub open spec fn backoff_spec(attempt: u32, jitter_ms: u64) -> nat {
    min_nat(pow2(attempt as nat) + jitter_ms as nat, RPC_MAX_BACKOFF_MS as nat)
}

proof fn lemma_pow2_grows(a: nat, b: nat)
    requires
        a <= b,
    ensures
        pow2(a) <= pow2(b),
        pow2(b) >= 1,
    decreases b,
{
    if b > 0 {
        if a < b {
            lemma_pow2_grows(a, (b - 1) as nat);
        }
        lemma_pow2_grows(0, (b - 1) as nat);
    }
}

/// The wait before the next connection attempt after `attempt` failures.
pub fn backoff_delay(attempt: u32, jitter_ms: u64) -> (r: u64)
    requires
        jitter_ms < RPC_BACKOFF_JITTER_MS,
    ensures
        r == backoff_spec(attempt, jitter_ms),
{
    if attempt >= 18 {
        proof {
            lemma_pow2_grows(18, attempt as nat);
            reveal_with_fuel(pow2, 19);
            assert(pow2(18) == 262144);
        }
        return RPC_MAX_BACKOFF_MS;
    }
    let mut p: u64 = 1;
    let mut i: u32 = 0;
    while i < attempt
        invariant
            i <= attempt < 18,
            p == pow2(i as nat),
            p <= 131072,
        decreases attempt - i,
    {
        proof {
            lemma_pow2_grows((i + 1) as nat, 17);
            reveal_with_fuel(pow2, 18);
            assert(pow2(17) == 131072);
        }
        p = p * 2;
        i += 1;
    }
    if p + jitter_ms < RPC_MAX_BACKOFF_MS {
        p + jitter_ms
    } else {
        RPC_MAX_BACKOFF_MS
    }
}

/// Where the peer task stands.
#[derive(Debug, Clone, Copy, PartialEq, Eq, Structural)]
pub enum PeerPhase {
    /// Waiting for the next message; a connection may be open.
    Waiting,
    /// Connecting and authenticating.
    Connecting,
    /// Waiting before the next connection attempt.
    Backoff,
    /// A request is on the wire.
    Sending,
    /// The mailbox is closed; the task ends.
    Stopped,
}

/// What the task reports back.
#[derive(Debug, Clone, Copy, PartialEq, Eq, Structural)]
pub enum PeerEvent {
    /// A message came out of the mailbox, `elapsed_ms` into the current wait.
    /// A gossip message is a fire-and-forget peer-list update or ping.
    Message { gossip: bool, elapsed_ms: u64 },
    /// The mailbox is closed.
    MailboxClosed,
    /// The wait ran out: inactivity while waiting, the delay while backing off.
    TimedOut,
    /// The connection is up and the peer accepted our credentials.
    Connected,
    /// The connection attempt failed; `jitter_ms` is a random number below
    /// `RPC_BACKOFF_JITTER_MS`.
    ConnectFailed { jitter_ms: u64 },
    /// The request went out and its response came back.
    Sent,
    /// The request or its response failed.
    SendFailed,
}

/// What the task does next.
#[derive(Debug, Clone, Copy, PartialEq, Eq, Structural)]
pub enum PeerStep {
    /// Wait for a message, at most `RPC_INACTIVITY_TIMEOUT`.
    WaitMessage,
    /// Connect and authenticate, within `RPC_TIMEOUT_MS`.
    Connect,
    /// Send the pending message.
    Send,
    /// Wait this long for a message before trying again.
    Backoff { delay_ms: u64 },
    /// End the task.
    Exit,
}

/// The task's orders after one event.
#[derive(Debug, Clone, Copy, PartialEq, Eq, Structural)]
pub struct PeerAction {
    /// The message just received becomes the pending one.
    pub take_message: bool,
    /// Report the message just received as undeliverable.
    pub fail_message: bool,
    /// Report the pending message as undeliverable; it becomes a no-op.
    pub fail_pending: bool,
    /// Close the connection.
    pub close_connection: bool,
    /// Publish this online status.
    pub online: Option<bool>,
    pub next: PeerStep,
}

/// The peer task's state.
#[derive(Debug, Clone, Copy, PartialEq, Eq, Structural)]
pub struct PeerState {
    pub phase: PeerPhase,
    pub connected: bool,
    pub is_online: bool,
    /// Failed connection attempts for the pending message.
    pub attempts: u32,
    /// What is left of the current backoff delay.
    pub delay_ms: u64,
}

pub open spec fn action(
    take_message: bool,
    fail_message: bool,
    fail_pending: bool,
    close_connection: bool,
    online: Option<bool>,
    next: PeerStep,
) -> PeerAction {
    PeerAction { take_message, fail_message, fail_pending, close_connection, online, next }
}

/// The transition table of the peer task.
pub open spec fn peer_step(s: PeerState, e: PeerEvent) -> (PeerState, PeerAction) {
    let stay = (s, action(false, false, false, false, None, match s.phase {
        PeerPhase::Waiting => PeerStep::WaitMessage,
        PeerPhase::Connecting => PeerStep::Connect,
        PeerPhase::Backoff => PeerStep::Backoff { delay_ms: s.delay_ms },
        PeerPhase::Sending => PeerStep::Send,
        PeerPhase::Stopped => PeerStep::Exit,
    }));
    match (s.phase, e) {
        (PeerPhase::Stopped, _) => stay,
        (_, PeerEvent::MailboxClosed) => (
            PeerState { phase: PeerPhase::Stopped, ..s },
            action(false, false, false, false, None, PeerStep::Exit),
        ),
        (PeerPhase::Waiting, PeerEvent::Message { .. }) => if s.connected {
            (
                PeerState { phase: PeerPhase::Sending, attempts: 0, ..s },
                action(true, false, false, false, None, PeerStep::Send),
            )
        } else {
            (
                PeerState { phase: PeerPhase::Connecting, attempts: 0, ..s },
                action(true, false, false, false, None, PeerStep::Connect),
            )
        },
        (PeerPhase::Waiting, PeerEvent::TimedOut) => (
            PeerState { connected: false, ..s },
            action(false, false, false, s.connected, None, PeerStep::WaitMessage),
        ),
        (PeerPhase::Connecting, PeerEvent::Connected) => {
            let online = if s.is_online {
                None
            } else {
                Some(true)
            };
            if s.attempts < RPC_MAX_CONNECT_ATTEMPTS {
                (
                    PeerState { phase: PeerPhase::Sending, connected: true, is_online: true, ..s },
                    action(false, false, false, false, online, PeerStep::Send),
                )
            } else {
                (
                    PeerState { phase: PeerPhase::Waiting, connected: true, is_online: true, ..s },
                    action(false, false, false, false, online, PeerStep::WaitMessage),
                )
            }
        },
        (PeerPhase::Connecting, PeerEvent::ConnectFailed { jitter_ms }) => if jitter_ms
            < RPC_BACKOFF_JITTER_MS {
            let attempts = if s.attempts < u32::MAX {
                (s.attempts + 1) as u32
            } else {
                s.attempts
            };
            let delay = backoff_spec(attempts, jitter_ms) as u64;
            (
                PeerState { phase: PeerPhase::Backoff, attempts, delay_ms: delay, ..s },
                action(
                    false,
                    false,
                    attempts == RPC_MAX_CONNECT_ATTEMPTS && attempts != s.attempts,
                    false,
                    None,
                    PeerStep::Backoff { delay_ms: delay },
                ),
            )
        } else {
            stay
        },
        (PeerPhase::Backoff, PeerEvent::Message { gossip, elapsed_ms }) => if gossip {
            (
                PeerState { phase: PeerPhase::Connecting, attempts: 0, ..s },
                action(true, false, false, false, None, PeerStep::Connect),
            )
        } else if s.delay_ms > elapsed_ms {
            let left = (s.delay_ms - elapsed_ms) as u64;
            (
                PeerState { delay_ms: left, ..s },
                action(false, true, false, false, None, PeerStep::Backoff { delay_ms: left }),
            )
        } else {
            (
                PeerState { phase: PeerPhase::Connecting, ..s },
                action(false, true, false, false, None, PeerStep::Connect),
            )
        },
        (PeerPhase::Backoff, PeerEvent::TimedOut) => (
            PeerState { phase: PeerPhase::Connecting, ..s },
            action(false, false, false, false, None, PeerStep::Connect),
        ),
        (PeerPhase::Sending, PeerEvent::Sent) => (
            PeerState { phase: PeerPhase::Waiting, ..s },
            action(false, false, false, false, None, PeerStep::WaitMessage),
        ),
        (PeerPhase::Sending, PeerEvent::SendFailed) => (
            PeerState { phase: PeerPhase::Waiting, connected: false, is_online: false, ..s },
            action(false, false, false, true, Some(false), PeerStep::WaitMessage),
        ),
        _ => stay,
    }
}

impl PeerState {
    /// A task that has just started: no connection, offline.
    pub fn new() -> (r: Self)
        ensures
            r.phase == PeerPhase::Waiting,
            !r.connected,
            !r.is_online,
            r.attempts == 0,
            r.delay_ms == 0,
    {
        PeerState {
            phase: PeerPhase::Waiting,
            connected: false,
            is_online: false,
            attempts: 0,
            delay_ms: 0,
        }
    }

    /// Takes one event and tells what to do next. An event that does not
    /// fit the current phase changes nothing and repeats the current step.
    pub fn on_event(&mut self, event: PeerEvent) -> (r: PeerAction)
        ensures
            (*final(self), r) == peer_step(*old(self), event),
    {
        let s = *self;
        let stay = PeerAction {
            take_message: false,
            fail_message: false,
            fail_pending: false,
            close_connection: false,
            online: None,
            next: match s.phase {
                PeerPhase::Waiting => PeerStep::WaitMessage,
                PeerPhase::Connecting => PeerStep::Connect,
                PeerPhase::Backoff => PeerStep::Backoff { delay_ms: s.delay_ms },
                PeerPhase::Sending => PeerStep::Send,
                PeerPhase::Stopped => PeerStep::Exit,
            },
        };
        let quiet = PeerAction { next: PeerStep::Exit, ..stay };
        if s.phase == PeerPhase::Stopped {
            return stay;
        }
        match event {
            PeerEvent::MailboxClosed => {
                self.phase = PeerPhase::Stopped;
                PeerAction { next: PeerStep::Exit, ..quiet }
            },
            PeerEvent::Message { gossip, elapsed_ms } => {
                if s.phase == PeerPhase::Waiting {
                    self.attempts = 0;
                    if s.connected {
                        self.phase = PeerPhase::Sending;
                        PeerAction { take_message: true, next: PeerStep::Send, ..quiet }
                    } else {
                        self.phase = PeerPhase::Connecting;
                        PeerAction { take_message: true, next: PeerStep::Connect, ..quiet }
                    }
                } else if s.phase == PeerPhase::Backoff {
                    if gossip {
                        // The peer gossips, so it is probably back: try at once.
                        self.phase = PeerPhase::Connecting;
                        self.attempts = 0;
                        PeerAction { take_message: true, next: PeerStep::Connect, ..quiet }
                    } else if s.delay_ms > elapsed_ms {
                        self.delay_ms = s.delay_ms - elapsed_ms;
                        PeerAction {
                            fail_message: true,
                            next: PeerStep::Backoff { delay_ms: self.delay_ms },
                            ..quiet
                        }
                    } else {
                        self.phase = PeerPhase::Connecting;
                        PeerAction { fail_message: true, next: PeerStep::Connect, ..quiet }
                    }
                } else {
                    stay
                }
            },
            PeerEvent::TimedOut => {
                if s.phase == PeerPhase::Waiting {
                    self.connected = false;
                    PeerAction {
                        close_connection: s.connected,
                        next: PeerStep::WaitMessage,
                        ..quiet
                    }
                } else if s.phase == PeerPhase::Backoff {
                    self.phase = PeerPhase::Connecting;
                    PeerAction { next: PeerStep::Connect, ..quiet }
                } else {
                    stay
                }
            },
            PeerEvent::Connected => {
                if s.phase == PeerPhase::Connecting {
                    let online = if s.is_online {
                        None
                    } else {
                        Some(true)
                    };
                    self.connected = true;
                    self.is_online = true;
                    if s.attempts < RPC_MAX_CONNECT_ATTEMPTS {
                        self.phase = PeerPhase::Sending;
                        PeerAction { online, next: PeerStep::Send, ..quiet }
                    } else {
                        // The pending message was already reported as lost.
                        self.phase = PeerPhase::Waiting;
                        PeerAction { online, next: PeerStep::WaitMessage, ..quiet }
                    }
                } else {
                    stay
                }
            },
            PeerEvent::ConnectFailed { jitter_ms } => {
                if s.phase == PeerPhase::Connecting && jitter_ms < RPC_BACKOFF_JITTER_MS {
                    let attempts = if s.attempts < u32::MAX {
                        s.attempts + 1
                    } else {
                        s.attempts
                    };
                    let delay = backoff_delay(attempts, jitter_ms);
                    self.phase = PeerPhase::Backoff;
                    self.attempts = attempts;
                    self.delay_ms = delay;
                    PeerAction {
                        fail_pending: attempts == RPC_MAX_CONNECT_ATTEMPTS && attempts
                            != s.attempts,
                        next: PeerStep::Backoff { delay_ms: delay },
                        ..quiet
                    }
                } else {
                    stay
                }
            },
            PeerEvent::Sent => {
                if s.phase == PeerPhase::Sending {
                    self.phase = PeerPhase::Waiting;
                    PeerAction { next: PeerStep::WaitMessage, ..quiet }
                } else {
                    stay
                }
            },
            PeerEvent::SendFailed => {
                if s.phase == PeerPhase::Sending {
                    self.phase = PeerPhase::Waiting;
                    self.connected = false;
                    self.is_online = false;
                    PeerAction {
                        close_connection: true,
                        online: Some(false),
                        next: PeerStep::WaitMessage,
                        ..quiet
                    }
                } else {
                    stay
                }
            },
        }
    }
}


/// The delay after the `attempt`-th failure lies between `2^attempt` and
/// `2^attempt + RPC_BACKOFF_JITTER_MS` milliseconds, both capped at
/// `RPC_MAX_BACKOFF_MS`.
pub proof fn lemma_backoff_window(attempt: u32, jitter_ms: u64)
    requires
        jitter_ms < RPC_BACKOFF_JITTER_MS,
    ensures
        min_nat(pow2(attempt as nat), RPC_MAX_BACKOFF_MS as nat) <= backoff_spec(
            attempt,
            jitter_ms,
        ),
        backoff_spec(attempt, jitter_ms) <= min_nat(
            pow2(attempt as nat) + RPC_BACKOFF_JITTER_MS as nat,
            RPC_MAX_BACKOFF_MS as nat,
        ),
{
}

/// A peer that refuses connections: each attempt fails with the given random
/// part, and the backoff wait runs out before the next one. The state after
/// the run, and how many times the pending message was reported lost.
pub open spec fn refused_run(s: PeerState, jitters: Seq<u64>) -> (PeerState, nat)
    decreases jitters.len(),
{
    if jitters.len() == 0 {
        (s, 0)
    } else {
        let (s1, a1) = peer_step(s, PeerEvent::ConnectFailed { jitter_ms: jitters[0] });
        let (s2, _) = peer_step(s1, PeerEvent::TimedOut);
        let (s3, n) = refused_run(s2, jitters.drop_first());
        (
            s3,
            n + if a1.fail_pending {
                1nat
            } else {
                0nat
            },
        )
    }
}

proof fn lemma_refused_run_from(s: PeerState, jitters: Seq<u64>)
    requires
        s.phase == PeerPhase::Connecting,
        s.attempts + jitters.len() <= u32::MAX,
        forall|i: int| 0 <= i < jitters.len() ==> jitters[i] < RPC_BACKOFF_JITTER_MS,
    ensures
        refused_run(s, jitters).0.phase == PeerPhase::Connecting,
        refused_run(s, jitters).0.attempts == s.attempts + jitters.len(),
        refused_run(s, jitters).1 == if s.attempts < RPC_MAX_CONNECT_ATTEMPTS && s.attempts
            + jitters.len() >= RPC_MAX_CONNECT_ATTEMPTS {
            1nat
        } else {
            0nat
        },
    decreases jitters.len(),
{
    if jitters.len() > 0 {
        let (s1, a1) = peer_step(s, PeerEvent::ConnectFailed { jitter_ms: jitters[0] });
        let (s2, _) = peer_step(s1, PeerEvent::TimedOut);
        assert(s2.phase == PeerPhase::Connecting);
        assert(s2.attempts == s.attempts + 1);
        assert(a1.fail_pending == (s.attempts + 1 == RPC_MAX_CONNECT_ATTEMPTS));
        let rest = jitters.drop_first();
        assert forall|i: int| 0 <= i < rest.len() implies rest[i] < RPC_BACKOFF_JITTER_MS by {
            assert(rest[i] == jitters[i + 1]);
        }
        lemma_refused_run_from(s2, rest);
    }
}

/// Against a peer that refuses connections, the pending message is reported
/// lost exactly once when `RPC_MAX_CONNECT_ATTEMPTS` attempts have failed,
/// and never before.
pub proof fn lemma_refused_peer_fails_once(s: PeerState, jitters: Seq<u64>)
    requires
        s.phase == PeerPhase::Connecting,
        s.attempts == 0,
        jitters.len() <= u32::MAX,
        forall|i: int| 0 <= i < jitters.len() ==> jitters[i] < RPC_BACKOFF_JITTER_MS,
    ensures
        refused_run(s, jitters).1 == if jitters.len() >= RPC_MAX_CONNECT_ATTEMPTS {
            1nat
        } else {
            0nat
        },
{
    lemma_refused_run_from(s, jitters);
}

} // verus!
