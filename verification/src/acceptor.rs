//! The named-pipe acceptor, as an explicit state machine.
//!
//! On Windows a pipe instance serves exactly one client, so the listener
//! must create a fresh instance around every accepted connection, and
//! creating one can fail transiently with "pipe busy" when another
//! process's connect races the create.  The machine here makes that
//! lifecycle explicit: the surrounding loop performs each step it hands
//! out — create an instance, wait out a backoff delay, wait for a client —
//! and reports the outcome back.  Busy failures are retried without bound
//! under an exponential, capped backoff; any other failure is fatal and
//! ends the accept sequence for good.

use vstd::prelude::*;

verus! {

/// The first backoff delay, in milliseconds.
pub const BACKOFF_BASE_MILLIS: u64 = 50;

/// The largest backoff delay, in milliseconds.
pub const BACKOFF_CAP_MILLIS: u64 = 10000;

/// The uncapped backoff after `k` busy failures: the base raised to the
/// failures seen, growing by the base each time.
pub open spec fn raw_backoff(k: nat) -> int
    decreases k,
{
    if k == 0 {
        BACKOFF_BASE_MILLIS as int
    } else {
        raw_backoff((k - 1) as nat) * (BACKOFF_BASE_MILLIS as int)
    }
}

/// The delay waited after the `k`-th busy failure: exponential, capped.
pub open spec fn backoff_delay(k: nat) -> u64 {
    if raw_backoff(k) > BACKOFF_CAP_MILLIS {
        BACKOFF_CAP_MILLIS
    } else {
        raw_backoff(k) as u64
    }
}

/// The uncapped backoff never shrinks and stays positive.
proof fn lemma_raw_backoff_mono(k: nat)
    ensures
        BACKOFF_BASE_MILLIS <= raw_backoff(k) <= raw_backoff(k + 1),
    decreases k,
{
    if k == 0 {
    } else {
        lemma_raw_backoff_mono((k - 1) as nat);
        assert(raw_backoff(k) == raw_backoff((k - 1) as nat) * 50);
        assert(raw_backoff((k - 1) as nat) * 50 >= 50) by (nonlinear_arith)
            requires
                raw_backoff((k - 1) as nat) >= 1,
        ;
        assert(raw_backoff(k + 1) == raw_backoff(k) * 50);
        assert(raw_backoff(k) * 50 >= raw_backoff(k)) by (nonlinear_arith)
            requires
                raw_backoff(k) >= 0,
        ;
    }
}

/// Law: the backoff delays never decrease from one retry to the next, and
/// never exceed the cap.
pub proof fn lemma_backoff_monotone_capped(k: nat)
    ensures
        backoff_delay(k) <= backoff_delay(k + 1),
        BACKOFF_BASE_MILLIS <= backoff_delay(k) <= BACKOFF_CAP_MILLIS,
{
    lemma_raw_backoff_mono(k);
}

/// What creating a pipe instance came to.
pub enum CreateOutcome {
    /// The instance exists and can wait for a client.
    Created,
    /// Another connect raced the create; retry after a delay.
    Busy,
    /// Any other failure: fatal, the accept sequence ends.
    Fatal,
}

/// What the loop driving the acceptor must do next.
pub enum AcceptStep {
    /// Create a pipe instance; `first` says whether it is the address's
    /// first, which asserts exclusive ownership of the pipe name.
    Create { first: bool },
    /// Wait this many milliseconds, then create again.
    Wait { millis: u64 },
    /// Wait for a client on the created instance.
    WaitClient,
    /// Hand the connected instance to its serve loop, then create the
    /// next instance.
    HandOff,
    /// The acceptor is finished; no step follows.
    Stop,
}

/// The acceptor's phases.
#[derive(Clone, Copy, Debug, PartialEq, Eq, Structural)]
pub enum AcceptorPhase {
    /// Creating a pipe instance, possibly retrying busy failures.
    Creating,
    /// An instance exists and awaits its one client.
    AwaitingConnection,
    /// A fatal error ended the sequence; it does not restart.
    Failed,
}

/// The explicit acceptor state machine: an infinite, non-restartable
/// sequence of connections, with bounded-backoff retry on busy creates.
pub struct PipeAcceptor {
    /// Which phase the machine is in.
    pub phase: AcceptorPhase,
    /// Busy failures seen while creating the current instance.
    pub busy_failures: u64,
    /// Whether the next create is the first on this address.
    pub first: bool,
}

impl PipeAcceptor {
    /// A fresh acceptor: about to create the address's first instance.
    pub fn new() -> (r: PipeAcceptor)
        ensures
            r.phase == AcceptorPhase::Creating,
            r.busy_failures == 0,
            r.first,
    {
        PipeAcceptor { phase: AcceptorPhase::Creating, busy_failures: 0, first: true }
    }

    /// The step the loop must perform now.
    pub fn step(&self) -> (r: AcceptStep)
        ensures
            self.phase == AcceptorPhase::Creating ==> r == (AcceptStep::Create {
                first: self.first,
            }),
            self.phase == AcceptorPhase::AwaitingConnection ==> r == AcceptStep::WaitClient,
            self.phase == AcceptorPhase::Failed ==> r == AcceptStep::Stop,
    {
        match self.phase {
            AcceptorPhase::Creating => AcceptStep::Create { first: self.first },
            AcceptorPhase::AwaitingConnection => AcceptStep::WaitClient,
            AcceptorPhase::Failed => AcceptStep::Stop,
        }
    }

    /// Consumes the outcome of a create: success starts waiting for the
    /// client, a busy failure costs one capped exponential delay and
    /// another try, and any other failure is terminal.
    pub fn on_create(&mut self, outcome: CreateOutcome) -> (r: AcceptStep)
        requires
            old(self).phase == AcceptorPhase::Creating,
        ensures
            match outcome {
                CreateOutcome::Created => {
                    &&& final (self).phase == AcceptorPhase::AwaitingConnection
                    &&& final (self).busy_failures == 0
                    &&& final (self).first == old(self).first
                    &&& r == AcceptStep::WaitClient
                },
                CreateOutcome::Busy => {
                    &&& final (self).phase == AcceptorPhase::Creating
                    &&& final (self).busy_failures == (if old(self).busy_failures < u64::MAX {
                        old(self).busy_failures + 1
                    } else {
                        old(self).busy_failures as int
                    })
                    &&& final (self).first == old(self).first
                    &&& r == (AcceptStep::Wait {
                        millis: backoff_delay(old(self).busy_failures as nat),
                    })
                },
                CreateOutcome::Fatal => {
                    &&& final (self).phase == AcceptorPhase::Failed
                    &&& r == AcceptStep::Stop
                },
            },
    {
        match outcome {
            CreateOutcome::Created => {
                self.phase = AcceptorPhase::AwaitingConnection;
                self.busy_failures = 0;
                AcceptStep::WaitClient
            },
            CreateOutcome::Busy => {
                let millis = if self.busy_failures == 0 {
                    BACKOFF_BASE_MILLIS
                } else if self.busy_failures == 1 {
                    2500
                } else {
                    BACKOFF_CAP_MILLIS
                };
                proof {
                    lemma_backoff_big(self.busy_failures as nat);
                }
                if self.busy_failures < u64::MAX {
                    self.busy_failures = self.busy_failures + 1;
                }
                AcceptStep::Wait { millis }
            },
            CreateOutcome::Fatal => {
                self.phase = AcceptorPhase::Failed;
                AcceptStep::Stop
            },
        }
    }

    /// Consumes a client's arrival on the created instance: the
    /// connection is handed off, and the machine turns to creating the
    /// next instance, which is never again the address's first.
    pub fn on_client_connected(&mut self) -> (r: AcceptStep)
        requires
            old(self).phase == AcceptorPhase::AwaitingConnection,
        ensures
            final (self).phase == AcceptorPhase::Creating,
            final (self).busy_failures == 0,
            !final (self).first,
            r == AcceptStep::HandOff,
    {
        self.phase = AcceptorPhase::Creating;
        self.busy_failures = 0;
        self.first = false;
        AcceptStep::HandOff
    }
}

/// The concrete backoff values: the base once, then the squared base,
/// then the cap forever.
proof fn lemma_backoff_big(k: nat)
    ensures
        k == 0 ==> backoff_delay(k) == BACKOFF_BASE_MILLIS,
        k == 1 ==> backoff_delay(k) == 2500,
        k >= 2 ==> backoff_delay(k) == BACKOFF_CAP_MILLIS,
    decreases k,
{
    if k == 1 {
        assert(raw_backoff(1) == raw_backoff(0) * 50);
    } else if k == 2 {
        assert(raw_backoff(1) == raw_backoff(0) * 50);
        assert(raw_backoff(2) == raw_backoff(1) * 50);
    } else if k > 2 {
        lemma_backoff_big((k - 1) as nat);
        lemma_raw_backoff_mono((k - 1) as nat);
    }
}

} // verus!
