//! The worker's request quota and its lifecycle hooks. A hook only announces;
//! draining is the host's job.

use vstd::prelude::*;
use crate::scoreboard::SharedSlot;

verus! {

/// An announcement the worker makes at most once.
#[derive(Clone, Copy, Debug, PartialEq, Eq, Structural)]
pub enum Hook {
    /// The request quota is reached.
    Quota,
    /// The consecutive-failboot limit is reached.
    Unhealthy,
}

/// Per-worker lifecycle hooks, installed before the first job.
#[derive(Clone, Copy, Debug)]
pub struct WorkerHooks {
    /// Effective request quota (jitter already applied); 0 is unlimited.
    pub max_requests: u64,
    /// Announce once when the quota is reached.
    pub on_quota: bool,
    /// Announce once when the worker hits the consecutive-failboot limit.
    pub on_unhealthy: bool,
    /// The scoreboard slot to report into; `None` asks for a private board.
    pub slot: Option<SharedSlot>,
}

/// The quota counter and the hooks that have not fired yet.
#[derive(Clone, Copy, Debug, PartialEq, Eq, Structural)]
pub struct QuotaState {
    pub served: u64,
    pub max: u64,
    pub on_quota: bool,
    pub on_unhealthy: bool,
}

impl QuotaState {
    /// Whether one more finished request reaches the quota and the hook is
    /// still there to fire.
    pub open spec fn reaches(self) -> bool {
        self.max != 0 && self.on_quota && self.served < u64::MAX && self.served + 1 == self.max
    }

    /// The counter after one more finished request.
    pub open spec fn ticked(self) -> QuotaState {
        if self.max == 0 {
            self
        } else {
            QuotaState {
                served: if self.served == u64::MAX {
                    0
                } else {
                    (self.served + 1) as u64
                },
                on_quota: self.on_quota && !self.reaches(),
                ..self
            }
        }
    }

    /// One fully finished request. True when the quota hook fires with it.
    pub fn tick(&mut self) -> (fires: bool)
        ensures
            *final(self) == old(self).ticked(),
            fires == old(self).reaches(),
    {
        if self.max == 0 {
            return false;
        }
        self.served = self.served.wrapping_add(1);
        if self.served == self.max && self.on_quota {
            self.on_quota = false;
            return true;
        }
        false
    }

    /// The worker declared itself unable to boot. True when the hook fires.
    pub fn fire_unhealthy(&mut self) -> (fires: bool)
        ensures
            fires == old(self).on_unhealthy,
            *final(self) == (QuotaState { on_unhealthy: false, ..*old(self) }),
    {
        let fires = self.on_unhealthy;
        self.on_unhealthy = false;
        fires
    }
}

/// The counter for a fresh worker.
pub fn install(max_requests: u64, on_quota: bool, on_unhealthy: bool) -> (q: QuotaState)
    ensures
        q == (QuotaState { served: 0, max: max_requests, on_quota, on_unhealthy }),
{
    QuotaState { served: 0, max: max_requests, on_quota, on_unhealthy }
}

/// The counter after `n` finished requests.
pub open spec fn ticked_times(q: QuotaState, n: nat) -> QuotaState
    decreases n,
{
    if n == 0 {
        q
    } else {
        ticked_times(q, (n - 1) as nat).ticked()
    }
}

/// How often the quota hook fires over `n` finished requests.
pub open spec fn fired(q: QuotaState, n: nat) -> nat
    decreases n,
{
    if n == 0 {
        0
    } else {
        fired(q, (n - 1) as nat) + if ticked_times(q, (n - 1) as nat).reaches() {
            1nat
        } else {
            0nat
        }
    }
}

/// The quota hook of a fresh worker fires with the request that completes the
/// quota, with no earlier one and with no later one, however many follow; the
/// other hook is left alone.
pub proof fn quota_fires_exactly_once(max: u64, on_unhealthy: bool, n: nat)
    ensures
        ({
            let q = QuotaState { served: 0, max, on_quota: true, on_unhealthy };
            &&& ticked_times(q, n).reaches() <==> max != 0 && n + 1 == max
            &&& fired(q, n) == (if max != 0 && n >= max {
                1nat
            } else {
                0nat
            })
            &&& ticked_times(q, n).on_unhealthy == on_unhealthy
        }),
    decreases n,
{
    let q = QuotaState { served: 0, max, on_quota: true, on_unhealthy };
    lemma_ticked_times(q, n);
    if n > 0 {
        quota_fires_exactly_once(max, on_unhealthy, (n - 1) as nat);
    }
}

/// A fresh counter after `n` finished requests: it is exact up to the quota, and
/// past the quota the hook is gone.
pub proof fn lemma_ticked_times(q: QuotaState, n: nat)
    requires
        q.served == 0,
        q.on_quota,
    ensures
        q.max == 0 ==> ticked_times(q, n) == q,
        q.max != 0 ==> {
            let t = ticked_times(q, n);
            &&& t.max == q.max
            &&& t.on_unhealthy == q.on_unhealthy
            &&& t.on_quota == (n < q.max)
            &&& n <= q.max ==> t.served == n
        },
    decreases n,
{
    if n > 0 {
        lemma_ticked_times(q, (n - 1) as nat);
    }
}

/// A quota that is zero never fires and never counts.
pub proof fn no_quota_never_fires(q: QuotaState)
    requires
        q.max == 0,
    ensures
        !q.reaches(),
        q.ticked() == q,
{
}

} // verus!
