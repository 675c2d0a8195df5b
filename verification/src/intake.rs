//! Handing requests to a worker: the queue's gauge, the wait for a slot, and
//! what a request that found none is answered.

use vstd::prelude::*;

verus! {

/// How many frames a response channel holds. A buffered response is a head, a
/// chunk and an end back to back; this lets it, and a stray interim head, queue
/// without parking the worker.
pub const FRAME_CAP: usize = 4;

/// How many requests the intake holds.
pub const INTAKE_CAP: usize = 1024;

/// How long a request may wait for an intake slot before it is shed, in
/// seconds.
pub const INTAKE_WAIT_SECS: u64 = 30;

/// Why a request could not be handed to the pool.
#[derive(Clone, Copy, Debug, PartialEq, Eq, Structural)]
pub enum HandleError {
    /// The intake stayed full for the whole wait.
    Saturated,
    /// The pool is gone: draining or stopped.
    Stopped,
}

impl HandleError {
    /// The wording of the error.
    pub open spec fn text(self) -> Seq<char> {
        match self {
            HandleError::Saturated => "worker pool saturated for 30s"@,
            HandleError::Stopped => "worker pool stopped"@,
        }
    }

    /// The message that goes with the error.
    pub fn message(self) -> (m: &'static str)
        ensures
            m@ == self.text(),
    {
        match self {
            HandleError::Saturated => "worker pool saturated for 30s",
            HandleError::Stopped => "worker pool stopped",
        }
    }

    /// The status that answers the request: shedding is the host's own answer,
    /// not a gateway fault.
    pub fn status(self) -> (r: u16)
        ensures
            r == (match self {
                HandleError::Saturated => 503u16,
                HandleError::Stopped => 500u16,
            }),
    {
        match self {
            HandleError::Saturated => 503,
            HandleError::Stopped => 500,
        }
    }
}

/// A gauge after one more.
pub open spec fn raised(n: usize) -> usize {
    if n == usize::MAX {
        0
    } else {
        (n + 1) as usize
    }
}

/// A gauge after one less.
pub open spec fn dropped(n: usize) -> usize {
    if n == 0 {
        usize::MAX
    } else {
        (n - 1) as usize
    }
}

/// Holds a gauge's increment until the request is accepted.
pub struct PendingGuard {
    pub armed: bool,
}

impl PendingGuard {
    /// Raises the gauge and keeps the right to drop it again.
    pub fn arm(pending: &mut usize) -> (g: PendingGuard)
        ensures
            g.armed,
            *final(pending) == raised(*old(pending)),
    {
        *pending = pending.wrapping_add(1);
        PendingGuard { armed: true }
    }

    /// The request was accepted: its consumer drops the gauge.
    pub fn disarm(self) -> (g: PendingGuard)
        ensures
            !g.armed,
    {
        PendingGuard { armed: false }
    }

    /// The guard goes: the gauge drops unless it was disarmed.
    pub fn release(self, pending: &mut usize)
        ensures
            *final(pending) == (if self.armed {
                dropped(*old(pending))
            } else {
                *old(pending)
            }),
    {
        if self.armed {
            *pending = pending.wrapping_sub(1);
        }
    }
}

/// Giving up leaves the gauge as it was; an accepted request leaves it one
/// higher, and its consumer brings it back.
pub proof fn the_gauge_balances(n: usize)
    ensures
        dropped(raised(n)) == n,
{
}

/// Counts a request as in flight until its last holder goes.
pub struct InflightReqCount {
    pub counted: bool,
}

impl InflightReqCount {
    /// Counts one request.
    pub fn init(counter: &mut usize) -> (c: InflightReqCount)
        ensures
            c.counted,
            *final(counter) == raised(*old(counter)),
    {
        *counter = counter.wrapping_add(1);
        InflightReqCount { counted: true }
    }

    /// The last holder goes.
    pub fn release(self, counter: &mut usize)
        ensures
            *final(counter) == (if self.counted {
                dropped(*old(counter))
            } else {
                *old(counter)
            }),
    {
        if self.counted {
            *counter = counter.wrapping_sub(1);
        }
    }
}

/// What came of offering a request to the intake.
#[derive(Clone, Copy, Debug, PartialEq, Eq, Structural)]
pub enum IntakeOffer {
    Accepted,
    Full,
    Disconnected,
}

/// What the request does next.
#[derive(Clone, Copy, Debug, PartialEq, Eq, Structural)]
pub enum IntakeStep {
    /// Read the response.
    Serve,
    /// Try again in a millisecond.
    Retry,
    Refuse(HandleError),
}

/// What a request does after an offer; `late` says that its wait is over.
pub fn intake_step(offer: IntakeOffer, late: bool) -> (r: IntakeStep)
    ensures
        r == (match offer {
            IntakeOffer::Accepted => IntakeStep::Serve,
            IntakeOffer::Disconnected => IntakeStep::Refuse(HandleError::Stopped),
            IntakeOffer::Full => if late {
                IntakeStep::Refuse(HandleError::Saturated)
            } else {
                IntakeStep::Retry
            },
        }),
{
    match offer {
        IntakeOffer::Accepted => IntakeStep::Serve,
        IntakeOffer::Disconnected => IntakeStep::Refuse(HandleError::Stopped),
        IntakeOffer::Full => {
            if late {
                IntakeStep::Refuse(HandleError::Saturated)
            } else {
                IntakeStep::Retry
            }
        },
    }
}

/// How many times a parked send spins before it naps.
pub const PARK_SPINS: u32 = 64;

/// How long a parked send naps, in microseconds.
pub const PARK_NAP_US: u64 = 100;

/// How a parked send waits before its next try.
#[derive(Clone, Copy, Debug, PartialEq, Eq, Structural)]
pub enum ParkStep {
    Yield,
    Nap(u64),
}

/// How a parked send waits after `spins` tries, and the next count.
pub fn park_step(spins: u32) -> (r: (ParkStep, u32))
    ensures
        r.0 == (if spins < PARK_SPINS {
            ParkStep::Yield
        } else {
            ParkStep::Nap(PARK_NAP_US)
        }),
        r.1 == (if spins == u32::MAX {
            spins as int
        } else {
            spins + 1
        }),
{
    let step: ParkStep = if spins < PARK_SPINS {
        ParkStep::Yield
    } else {
        ParkStep::Nap(PARK_NAP_US)
    };
    (step, spins.saturating_add(1))
}

/// The execution time that is armed again after a park: what is left of the
/// budget, at least a second; `None` where no timer was armed.
pub fn rearm_secs(saved: i64, consumed_secs: u64) -> (r: Option<u64>)
    ensures
        r == (if saved <= 0 {
            None::<u64>
        } else if saved - consumed_secs < 1 {
            Some(1u64)
        } else {
            Some((saved - consumed_secs) as u64)
        }),
{
    if saved <= 0 {
        return None;
    }
    let left: u64 = (saved as u64).saturating_sub(consumed_secs);
    if left < 1 {
        Some(1)
    } else {
        Some(left)
    }
}

} // verus!
