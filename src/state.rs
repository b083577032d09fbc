use vstd::prelude::*;

use crate::args::Args;
use crate::reconcile::ReconcileError;

verus! {

/// Nanoseconds in a second, the unit of the clock readings handed in.
pub const NANOS_PER_SEC: u64 = 1_000_000_000;

/// The cache of the watchdog: the last endpoint resolved and the time of the
/// last reconciliation pass, in nanoseconds on a monotonic clock.
pub struct State {
    pub project_name: String,
    pub my_url: Option<String>,
    pub last_checked: Option<u64>,
}

impl State {
    /// A cache that holds no endpoint and has never been checked.
    pub fn new(project_name: String) -> (r: State)
        ensures
            r.project_name == project_name,
            r.my_url is None,
            r.last_checked is None,
    {
        State { last_checked: None, my_url: None, project_name }
    }

    /// Whether a pass is due at `now`: only with a descriptor to deploy, and
    /// then when no pass has run yet or more than `check_delay` seconds have
    /// gone by since the last one.
    pub open spec fn due(&self, flow_configured: bool, now: u64, check_delay: u16) -> bool {
        flow_configured && match self.last_checked {
            None => true,
            Some(t) => now - t > check_delay * NANOS_PER_SEC,
        }
    }

    /// The cache after a pass that ended at `now` with `result`: a resolved
    /// endpoint replaces the cached one, a failure leaves it as it was.
    pub open spec fn after_pass(self, result: Result<String, ReconcileError>, now: u64) -> State {
        State {
            project_name: self.project_name,
            my_url: match result {
                Ok(u) => Some(u),
                Err(_) => self.my_url,
            },
            last_checked: Some(now),
        }
    }

    /// Whether a request at `now` must run a reconciliation pass first.
    pub fn should_check(&self, args: &Args, now: u64) -> (r: bool)
        ensures
            r == self.due(args.flow_yml_path is Some, now, args.check_delay),
    {
        if args.flow_yml_path.is_none() {
            return false;
        }
        match self.last_checked {
            None => true,
            Some(t) => now > t && now - t > (args.check_delay as u64) * NANOS_PER_SEC,
        }
    }

    /// Records a pass that ended at `now`.
    pub fn finish_pass(&mut self, result: Result<String, ReconcileError>, now: u64)
        ensures
            *final(self) == old(self).after_pass(result, now),
    {
        match result {
            Ok(u) => {
                self.my_url = Some(u);
            },
            Err(_) => {},
        }
        self.last_checked = Some(now);
    }
}

/// A failed pass never clears the endpoint that an earlier pass resolved.
pub proof fn failed_pass_keeps_endpoint(state: State, error: ReconcileError, now: u64)
    ensures
        state.after_pass(Err(error), now).my_url == state.my_url,
{
}

/// The poll delay is respected: once a pass has ended at `t`, whatever its
/// outcome, no request up to `check_delay` seconds later is due for another.
pub proof fn poll_delay_respected(
    state: State,
    result: Result<String, ReconcileError>,
    flow_configured: bool,
    check_delay: u16,
    t: u64,
    later: u64,
)
    requires
        t <= later <= t + check_delay * NANOS_PER_SEC,
    ensures
        !state.after_pass(result, t).due(flow_configured, later, check_delay),
{
}

} // verus!
