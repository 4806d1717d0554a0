//! Daemon bookkeeping: the open-request counter and the idle timeout.
//!
//! The daemon exits after [`IDLE_TIMEOUT_MS`] without open requests.
//! While a portal request is in flight the timeout must not fire: every
//! tick that sees an open request restarts the idle window.

use vstd::prelude::*;

verus! {

/// Idle window before the daemon exits when no requests are open.
pub const IDLE_TIMEOUT_MS: u64 = 60000;

/// Number of portal requests in flight. Entering and leaving a request
/// wrap around like the atomic counter they stand for.
pub struct RequestCounter {
    open: usize,
}

impl View for RequestCounter {
    type V = usize;

    closed spec fn view(&self) -> usize {
        self.open
    }
}

impl RequestCounter {
    /// No request in flight.
    pub fn new() -> (c: RequestCounter)
        ensures
            c@ == 0,
    {
        RequestCounter { open: 0 }
    }

    /// A request handler was entered.
    pub fn track_request(&mut self)
        ensures
            final(self)@ == vstd::wrapping::usize_specs::wrapping_add(old(self)@, 1),
    {
        self.open = self.open.wrapping_add(1);
    }

    /// A request handler returned.
    pub fn release(&mut self)
        ensures
            final(self)@ == vstd::wrapping::usize_specs::wrapping_sub(old(self)@, 1),
    {
        self.open = self.open.wrapping_sub(1);
    }

    /// True if at least one request is in flight.
    pub fn has_open_requests(&self) -> (r: bool)
        ensures
            r == (self@ > 0),
    {
        self.open > 0
    }
}

/// Leaving a request undoes entering it.
pub proof fn lemma_release_undoes_track(n: usize)
    ensures
        vstd::wrapping::usize_specs::wrapping_sub(vstd::wrapping::usize_specs::wrapping_add(n, 1), 1) == n,
{
}

/// The counter after a run of steps from zero: `true` enters a request
/// (`track_request`), `false` leaves one (`release`).
pub open spec fn counter_after(steps: Seq<bool>) -> usize
    decreases steps.len(),
{
    if steps.len() == 0 {
        0
    } else {
        let prev = counter_after(steps.drop_last());
        if steps.last() {
            vstd::wrapping::usize_specs::wrapping_add(prev, 1)
        } else {
            vstd::wrapping::usize_specs::wrapping_sub(prev, 1)
        }
    }
}

/// Requests entered and not yet left after a run of steps: the number of
/// live request guards.
pub open spec fn live_requests(steps: Seq<bool>) -> int
    decreases steps.len(),
{
    if steps.len() == 0 {
        0
    } else {
        live_requests(steps.drop_last()) + if steps.last() {
            1int
        } else {
            -1int
        }
    }
}

/// Over any run of enters and leaves in which no request is left before
/// it was entered (and fewer than `usize::MAX` are open at once), the
/// counter equals the number of live requests, so "has open requests"
/// holds exactly while at least one is live. A fresh counter has none.
pub proof fn lemma_counter_counts_live_requests(steps: Seq<bool>)
    requires
        forall|k: int|
            0 <= k <= steps.len() ==> 0 <= #[trigger] live_requests(steps.take(k)) <= usize::MAX,
    ensures
        counter_after(steps) == live_requests(steps),
        (counter_after(steps) > 0) == (live_requests(steps) > 0),
    decreases steps.len(),
{
    if steps.len() > 0 {
        let prev = steps.drop_last();
        assert forall|k: int| 0 <= k <= prev.len() implies 0 <= #[trigger] live_requests(prev.take(k))
            <= usize::MAX by {
            assert(prev.take(k) =~= steps.take(k));
        }
        lemma_counter_counts_live_requests(prev);
        assert(steps.take(steps.len() as int) =~= steps);
        assert(steps.take(prev.len() as int) =~= prev);
        assert(0 <= live_requests(steps) <= usize::MAX);
        assert(0 <= live_requests(prev) <= usize::MAX);
    }
}

/// What the daemon does after an idle tick.
#[derive(Debug, Clone, Copy, PartialEq, Eq)]
pub enum IdleAction {
    /// Keep serving.
    Continue,
    /// The idle window has passed with no request open: exit.
    Exit,
}

/// When the daemon last had a request open (milliseconds on a monotonic
/// clock).
pub struct IdleTimer {
    last_active_ms: u64,
}

impl View for IdleTimer {
    type V = u64;

    closed spec fn view(&self) -> u64 {
        self.last_active_ms
    }
}

/// Time elapsed from `since` to `now`, zero if the clock reads earlier.
pub open spec fn elapsed(since: u64, now: u64) -> int {
    if now >= since {
        now - since
    } else {
        0
    }
}

/// One idle tick: the new last-active time and the action.
pub open spec fn idle_step(last_active: u64, now: u64, has_open: bool) -> (u64, IdleAction) {
    if has_open {
        (now, IdleAction::Continue)
    } else if elapsed(last_active, now) >= IDLE_TIMEOUT_MS {
        (last_active, IdleAction::Exit)
    } else {
        (last_active, IdleAction::Continue)
    }
}

impl IdleTimer {
    /// Start the idle window at `now_ms`.
    pub fn new(now_ms: u64) -> (t: IdleTimer)
        ensures
            t@ == now_ms,
    {
        IdleTimer { last_active_ms: now_ms }
    }

    /// Handle one tick of the idle loop at `now_ms`.
    pub fn tick(&mut self, now_ms: u64, has_open_requests: bool) -> (a: IdleAction)
        ensures
            (final(self)@, a) == idle_step(old(self)@, now_ms, has_open_requests),
    {
        if has_open_requests {
            self.last_active_ms = now_ms;
            return IdleAction::Continue;
        }
        let idle = if now_ms >= self.last_active_ms {
            now_ms - self.last_active_ms
        } else {
            0
        };
        if idle >= IDLE_TIMEOUT_MS {
            IdleAction::Exit
        } else {
            IdleAction::Continue
        }
    }
}

/// The daemon never exits on a tick that sees an open request.
pub proof fn lemma_no_exit_while_open(last_active: u64, now: u64)
    ensures
        idle_step(last_active, now, true).1 == IdleAction::Continue,
{
}

/// After a tick that saw an open request, the daemon exits only once a
/// full idle window has passed since that tick.
pub proof fn lemma_exit_needs_full_window(last_active: u64, t1: u64, t2: u64, open2: bool)
    requires
        idle_step(idle_step(last_active, t1, true).0, t2, open2).1 == IdleAction::Exit,
    ensures
        !open2,
        elapsed(t1, t2) >= IDLE_TIMEOUT_MS,
{
}

/// A tick without requests after a full idle window exits.
pub proof fn lemma_exit_after_window(last_active: u64, now: u64)
    requires
        elapsed(last_active, now) >= IDLE_TIMEOUT_MS,
    ensures
        idle_step(last_active, now, false).1 == IdleAction::Exit,
{
}

} // verus!
