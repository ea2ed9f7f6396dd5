//! A sliding-window rate limiter: at most `max_events` accepted requests whose age is
//! within the window.
//!
//! Times are nanoseconds on a monotonic clock that starts when the limiter is made.
use vstd::prelude::*;
use std::collections::VecDeque;
use std::time::Instant;

verus! {

/// `std::time::Instant`, a reading of the monotonic clock; opaque here.
#[verifier::external_type_specification]
#[verifier::external_body]
pub struct ExInstant(Instant);

/// `Instant::now`: the current reading of the monotonic clock. Nothing is stated of it.
#[verifier::external_body]
fn clock_now() -> (r: Instant) {
    Instant::now()
}

/// `Instant::elapsed`, in nanoseconds (`Duration::as_nanos`): the time since `origin`.
/// It depends on when it is called, so nothing is stated of it.
#[verifier::external_body]
fn nanos_since(origin: &Instant) -> (r: u128) {
    origin.elapsed().as_nanos()
}

/// An event at `e` is older than the window at time `now`; the age saturates at zero
/// for events that are not before `now` (as `Instant::duration_since` does).
pub open spec fn expired(e: u128, now: u128, window: u128) -> bool {
    now > e && now - e > window
}

/// `events` after dropping expired events from the front, stopping at the first one that
/// has not expired.
pub open spec fn evict(events: Seq<u128>, now: u128, window: u128) -> Seq<u128>
    decreases events.len(),
{
    if events.len() > 0 && expired(events[0], now, window) {
        evict(events.drop_first(), now, window)
    } else {
        events
    }
}

/// One request at `now`: the events after eviction, and whether the request is
/// accepted (then `now` is recorded).
pub open spec fn admit_at(events: Seq<u128>, max_events: usize, now: u128, window: u128) -> (
    Seq<u128>,
    bool,
) {
    let kept = evict(events, now, window);
    if kept.len() >= max_events {
        (kept, false)
    } else {
        (kept.push(now), true)
    }
}

/// The event times never decrease.
pub open spec fn nondecreasing(events: Seq<u128>) -> bool {
    forall|i: int, j: int| 0 <= i < j < events.len() ==> #[trigger] events[i] <= #[trigger] events[j]
}

/// A sliding-window rate limiter.
pub struct RateLimiter {
    window: u128,
    max_events: usize,
    events: VecDeque<u128>,
    origin: Instant,
    latest: u128,
    requests: Ghost<Seq<u128>>,
}

impl RateLimiter {
    /// The window length, in nanoseconds.
    pub closed spec fn window_nanos(&self) -> u128 {
        self.window
    }

    /// The most requests accepted within one window.
    pub closed spec fn limit(&self) -> usize {
        self.max_events
    }

    /// The times of the accepted requests still remembered, oldest first.
    pub closed spec fn recent(&self) -> Seq<u128> {
        self.events@
    }

    /// The times of all the requests decided so far, in the order they were made.
    pub closed spec fn requests(&self) -> Seq<u128> {
        self.requests@
    }

    /// The time of the last request decided (zero before the first).
    pub closed spec fn latest(&self) -> u128 {
        self.latest
    }

    /// The decisions taken so far, one per request, in order.
    pub open spec fn decisions(&self) -> Seq<bool> {
        run_requests(self.requests(), self.limit(), self.window_nanos()).1
    }

    /// No more than `limit()` requests are remembered, and what is remembered is what
    /// deciding the requests so far, in order, leaves.
    pub open spec fn wf(&self) -> bool {
        &&& self.recent().len() <= self.limit()
        &&& self.recent() == run_requests(self.requests(), self.limit(), self.window_nanos()).0
        &&& self.latest() == if self.requests().len() > 0 {
            self.requests().last()
        } else {
            0
        }
    }

    /// A limiter that accepts at most `max_events` requests per window of `window_nanos`
    /// nanoseconds.
    pub fn new(window_nanos: u128, max_events: usize) -> (r: RateLimiter)
        ensures
            r.wf(),
            r.window_nanos() == window_nanos,
            r.limit() == max_events,
            r.recent() == Seq::<u128>::empty(),
            r.requests() == Seq::<u128>::empty(),
    {
        RateLimiter {
            window: window_nanos,
            max_events,
            events: VecDeque::new(),
            origin: clock_now(),
            latest: 0,
            requests: Ghost(Seq::empty()),
        }
    }

    /// Decides a request made at time `now`: expired events are dropped from the front;
    /// the request is refused when `limit()` events remain, and otherwise accepted and
    /// recorded.
    pub fn allow_at(&mut self, now: u128) -> (accepted: bool)
        requires
            old(self).wf(),
        ensures
            final(self).wf(),
            final(self).window_nanos() == old(self).window_nanos(),
            final(self).limit() == old(self).limit(),
            (final(self).recent(), accepted) == admit_at(
                old(self).recent(),
                old(self).limit(),
                now,
                old(self).window_nanos(),
            ),
            final(self).requests() == old(self).requests().push(now),
            final(self).decisions() == old(self).decisions().push(accepted),
    {
        let ghost start = self.events@;
        let ghost before = self.requests@;
        loop
            invariant
                self.window == old(self).window,
                self.max_events == old(self).max_events,
                self.requests@ == old(self).requests@,
                self.events@.len() <= self.max_events,
                evict(start, now, self.window) == evict(self.events@, now, self.window),
            ensures
                self.window == old(self).window,
                self.max_events == old(self).max_events,
                self.requests@ == old(self).requests@,
                self.events@.len() <= self.max_events,
                evict(start, now, self.window) == self.events@,
            decreases self.events@.len(),
        {
            if self.events.len() == 0 {
                break;
            }
            let front = self.events[0];
            if !(now > front && now - front > self.window) {
                break;
            }
            let ghost cur = self.events@;
            self.events.pop_front();
            assert(self.events@ =~= cur.drop_first());
        }
        self.latest = now;
        self.requests = Ghost(before.push(now));
        proof {
            assert(before.push(now).drop_last() =~= before);
        }
        if self.events.len() >= self.max_events {
            return false;
        }
        self.events.push_back(now);
        true
    }

    /// Decides a request made now, by the limiter's monotonic clock. The reading is taken
    /// no earlier than the last request's time; the clock never goes back, so this only
    /// states what the clock already guarantees.
    pub fn allow(&mut self) -> (accepted: bool)
        requires
            old(self).wf(),
        ensures
            final(self).wf(),
            final(self).window_nanos() == old(self).window_nanos(),
            final(self).limit() == old(self).limit(),
            final(self).decisions() == old(self).decisions().push(accepted),
            nondecreasing(old(self).requests()) ==> nondecreasing(final(self).requests()),
            exists|now: u128|
                #![trigger old(self).requests().push(now)]
                {
                    &&& old(self).latest() <= now
                    &&& final(self).requests() == old(self).requests().push(now)
                    &&& (final(self).recent(), accepted) == admit_at(
                        old(self).recent(),
                        old(self).limit(),
                        now,
                        old(self).window_nanos(),
                    )
                },
    {
        let reading = nanos_since(&self.origin);
        let now = if reading < self.latest {
            self.latest
        } else {
            reading
        };
        let ghost before = self.requests@;
        let accepted = self.allow_at(now);
        proof {
            let after = before.push(now);
            if nondecreasing(before) {
                assert forall|i: int, j: int| 0 <= i < j < after.len() implies #[trigger] after[i]
                    <= #[trigger] after[j] by {
                    if j == after.len() - 1 {
                        assert(before[i] <= before.last() || i == before.len() - 1);
                    }
                }
            }
        }
        accepted
    }
}

/// Law of the limiter over its calls: when its requests came in time order (as through
/// [`RateLimiter::allow`]), each request was accepted exactly when fewer than the limit of
/// the earlier accepted requests fell within the window ending at its time, and no
/// accepted request has more than the limit of accepted requests, itself included,
/// within that window.
pub proof fn law_limiter_calls(l: &RateLimiter)
    requires
        l.wf(),
        nondecreasing(l.requests()),
    ensures
        ({
            let (times, acc) = (l.requests(), l.decisions());
            &&& acc.len() == times.len()
            &&& forall|k: int| 0 <= k < times.len() ==> #[trigger] acc[k] == (fresh_accepted(
                times,
                acc,
                k,
                times[k],
                l.window_nanos(),
            ).len() < l.limit())
            &&& forall|k: int| 0 <= k < times.len() && #[trigger] acc[k] ==> fresh_accepted(
                times,
                acc,
                k + 1,
                times[k],
                l.window_nanos(),
            ).len() <= l.limit()
            &&& nondecreasing(l.recent())
            &&& forall|i: int| 0 <= i < l.recent().len() ==> !expired(
                #[trigger] l.recent()[i],
                l.latest(),
                l.window_nanos(),
            )
        }),
{
    law_which_requests_pass(l.requests(), l.limit(), l.window_nanos());
    law_at_most_max_per_window(l.requests(), l.limit(), l.window_nanos());
    lemma_run_requests(l.requests(), l.limit(), l.window_nanos());
    let times = l.requests();
    if times.len() > 0 {
        let acc = l.decisions();
        lemma_fresh_in_order(times, acc, times.len() as int, times.last(), l.window_nanos());
        lemma_fresh_bounds(times, acc, times.len() as int, times.last(), l.window_nanos());
    }
}

/// Law of the limiter over its calls: with a limit of at least one, a request made more
/// than one window after every earlier accepted request is accepted, however many requests
/// came before it.
pub proof fn law_request_after_a_quiet_window_is_accepted(l: &RateLimiter)
    requires
        l.wf(),
        nondecreasing(l.requests()),
        l.limit() >= 1,
        l.requests().len() > 0,
        forall|k: int|
            0 <= k < l.requests().len() - 1 && #[trigger] l.decisions()[k] ==> l.requests()[k]
                < l.requests().last() && l.requests().last() - l.requests()[k] > l.window_nanos(),
    ensures
        l.decisions().last(),
{
    law_limiter_calls(l);
    let times = l.requests();
    let acc = l.decisions();
    let n = times.len() as int;
    lemma_fresh_all_expired(times, acc, n - 1, times[n - 1], l.window_nanos());
    assert(acc[n - 1] == (fresh_accepted(times, acc, n - 1, times[n - 1], l.window_nanos()).len()
        < l.limit()));
}

/// No accepted request among the first `m` is fresh when all of them have expired.
proof fn lemma_fresh_all_expired(times: Seq<u128>, acc: Seq<bool>, m: int, now: u128, window: u128)
    requires
        0 <= m <= times.len(),
        m <= acc.len(),
        forall|k: int| 0 <= k < m && #[trigger] acc[k] ==> expired(times[k], now, window),
    ensures
        fresh_accepted(times, acc, m, now, window).len() == 0,
    decreases m,
{
    if m > 0 {
        lemma_fresh_all_expired(times, acc, m - 1, now, window);
    }
}

/// The accepted, unexpired requests are in time order when the requests are.
proof fn lemma_fresh_in_order(times: Seq<u128>, acc: Seq<bool>, n: int, now: u128, window: u128)
    requires
        nondecreasing(times),
        0 <= n <= times.len(),
    ensures
        nondecreasing(fresh_accepted(times, acc, n, now, window)),
    decreases n,
{
    if n > 0 {
        lemma_fresh_in_order(times, acc, n - 1, now, window);
        let r = fresh_accepted(times, acc, n - 1, now, window);
        let f = fresh_accepted(times, acc, n, now, window);
        if n > 1 {
            lemma_fresh_bounds(times, acc, n - 1, now, window);
            assert(times[n - 2] <= times[n - 1]);
        } else {
            assert(r =~= Seq::<u128>::empty());
        }
        assert forall|i: int, j: int| 0 <= i < j < f.len() implies #[trigger] f[i] <= #[trigger] f[j] by {
            if j < r.len() {
                assert(f[i] == r[i] && f[j] == r[j]);
            } else {
                assert(f[i] == r[i]);
            }
        }
    }
}

/// Law of the limiter over its calls: when all its requests so far lie, in time order,
/// within one window, the first `limit()` of them were accepted and the rest refused.
pub proof fn law_limiter_first_calls(l: &RateLimiter)
    requires
        l.wf(),
        nondecreasing(l.requests()),
        l.requests().len() > 0,
        l.requests().last() - l.requests()[0] <= l.window_nanos(),
    ensures
        forall|k: int| 0 <= k < l.requests().len() ==> #[trigger] l.decisions()[k] == (k < l.limit()),
{
    law_first_requests_pass(l.requests(), l.limit(), l.window_nanos());
}

/// Eviction keeps a suffix of the events.
pub proof fn lemma_evict_suffix(events: Seq<u128>, now: u128, window: u128)
    ensures
        exists|k: int|
            0 <= k <= events.len() && #[trigger] events.skip(k) == evict(events, now, window),
    decreases events.len(),
{
    if events.len() > 0 && expired(events[0], now, window) {
        lemma_evict_suffix(events.drop_first(), now, window);
        let k = choose|k: int|
            0 <= k <= events.drop_first().len() && #[trigger] events.drop_first().skip(k) == evict(
                events.drop_first(),
                now,
                window,
            );
        assert(events.skip(k + 1) =~= events.drop_first().skip(k));
    } else {
        assert(events.skip(0) =~= events);
    }
}

/// One step of the limiter, when requests arrive in time order: afterwards every
/// remembered request is within the window of the latest one, the times stay in order,
/// no more than the limit are remembered, and an accepted request is remembered last.
pub proof fn law_window_bound(events: Seq<u128>, max_events: usize, now: u128, window: u128)
    requires
        nondecreasing(events),
        events.len() <= max_events,
        forall|i: int| 0 <= i < events.len() ==> #[trigger] events[i] <= now,
    ensures
        ({
            let (after, accepted) = admit_at(events, max_events, now, window);
            &&& nondecreasing(after)
            &&& after.len() <= max_events
            &&& forall|i: int| 0 <= i < after.len() ==> !expired(#[trigger] after[i], now, window)
            &&& accepted ==> after.last() == now
        }),
    decreases events.len(),
{
    lemma_evict_suffix(events, now, window);
    let kept = evict(events, now, window);
    let k = choose|k: int| 0 <= k <= events.len() && #[trigger] events.skip(k) == kept;
    assert forall|i: int| 0 <= i < kept.len() implies !expired(#[trigger] kept[i], now, window) by {
        assert(kept.len() > 0 ==> !expired(kept[0], now, window)) by {
            lemma_evict_head(events, now, window);
        }
        assert(kept[i] == events[k + i] && kept[0] == events[k]);
    }
    let (after, accepted) = admit_at(events, max_events, now, window);
    if accepted {
        assert forall|i: int| 0 <= i < after.len() implies !expired(#[trigger] after[i], now, window) by {
            if i < kept.len() {
                assert(after[i] == kept[i]);
            }
        }
        assert forall|i: int, j: int| 0 <= i < j < after.len() implies #[trigger] after[i]
            <= #[trigger] after[j] by {
            if j < kept.len() {
                assert(after[i] == events[k + i] && after[j] == events[k + j]);
            } else {
                assert(after[i] == events[k + i]);
            }
        }
    } else {
        assert forall|i: int, j: int| 0 <= i < j < after.len() implies #[trigger] after[i]
            <= #[trigger] after[j] by {
            assert(after[i] == events[k + i] && after[j] == events[k + j]);
        }
    }
}

/// After eviction, the first remaining event (if any) has not expired.
pub proof fn lemma_evict_head(events: Seq<u128>, now: u128, window: u128)
    ensures
        evict(events, now, window).len() > 0 ==> !expired(evict(events, now, window)[0], now, window),
    decreases events.len(),
{
    if events.len() > 0 && expired(events[0], now, window) {
        lemma_evict_head(events.drop_first(), now, window);
    }
}

/// The requests among the first `n` of `times` that were accepted (`acc`) and have not
/// expired at `now`, in order.
pub open spec fn fresh_accepted(times: Seq<u128>, acc: Seq<bool>, n: int, now: u128, window: u128) -> Seq<
    u128,
>
    decreases n,
{
    if n <= 0 {
        seq![]
    } else {
        let r = fresh_accepted(times, acc, n - 1, now, window);
        if acc[n - 1] && !expired(times[n - 1], now, window) {
            r.push(times[n - 1])
        } else {
            r
        }
    }
}

/// The limiter's memory and its decisions after requests at `times`, in order, starting
/// from a fresh limiter.
pub open spec fn run_requests(times: Seq<u128>, max_events: usize, window: u128) -> (Seq<u128>, Seq<bool>)
    decreases times.len(),
{
    if times.len() == 0 {
        (seq![], seq![])
    } else {
        let (mem, acc) = run_requests(times.drop_last(), max_events, window);
        let (next, ok) = admit_at(mem, max_events, times.last(), window);
        (next, acc.push(ok))
    }
}

/// [`fresh_accepted`] reads only the first `n` times and decisions.
proof fn lemma_fresh_agree(
    t1: Seq<u128>,
    a1: Seq<bool>,
    t2: Seq<u128>,
    a2: Seq<bool>,
    n: int,
    now: u128,
    window: u128,
)
    requires
        forall|j: int| 0 <= j < n ==> t1[j] == t2[j] && a1[j] == a2[j],
    ensures
        fresh_accepted(t1, a1, n, now, window) == fresh_accepted(t2, a2, n, now, window),
    decreases n,
{
    if n > 0 {
        lemma_fresh_agree(t1, a1, t2, a2, n - 1, now, window);
    }
}

/// Every request in [`fresh_accepted`] has not expired at `now` and is no later than the
/// `n`-th request.
proof fn lemma_fresh_bounds(times: Seq<u128>, acc: Seq<bool>, n: int, now: u128, window: u128)
    requires
        nondecreasing(times),
        1 <= n <= times.len(),
    ensures
        forall|i: int| 0 <= i < fresh_accepted(times, acc, n, now, window).len() ==> {
            &&& !expired(#[trigger] fresh_accepted(times, acc, n, now, window)[i], now, window)
            &&& fresh_accepted(times, acc, n, now, window)[i] <= times[n - 1]
        },
    decreases n,
{
    let f = fresh_accepted(times, acc, n, now, window);
    let r = fresh_accepted(times, acc, n - 1, now, window);
    if n > 1 {
        lemma_fresh_bounds(times, acc, n - 1, now, window);
        assert(times[n - 2] <= times[n - 1]);
    } else {
        assert(r =~= Seq::<u128>::empty());
    }
    assert forall|i: int| 0 <= i < f.len() implies !expired(#[trigger] f[i], now, window) && f[i]
        <= times[n - 1] by {
        if i < r.len() {
            assert(f[i] == r[i]);
        }
    }
}

/// Eviction of a sequence with one more request at its end.
proof fn lemma_evict_push(s: Seq<u128>, x: u128, now: u128, window: u128)
    ensures
        evict(s.push(x), now, window) == if evict(s, now, window).len() > 0 {
            evict(s, now, window).push(x)
        } else {
            evict(seq![x], now, window)
        },
    decreases s.len(),
{
    if s.len() == 0 {
        assert(s.push(x) =~= seq![x]);
    } else {
        assert(s.push(x)[0] == s[0]);
        assert(s.push(x).drop_first() =~= s.drop_first().push(x));
        lemma_evict_push(s.drop_first(), x, now, window);
    }
}

/// Once a request expires it stays expired, and older requests expire first.
proof fn lemma_expired_monotone(e1: u128, e2: u128, t1: u128, t2: u128, window: u128)
    requires
        e2 <= e1,
        t1 <= t2,
        expired(e1, t1, window),
    ensures
        expired(e2, t2, window),
{
}

/// Dropping the expired requests from the front of the memory kept at an earlier time
/// leaves exactly the accepted requests that have not expired at the later time.
proof fn lemma_evict_fresh(
    times: Seq<u128>,
    acc: Seq<bool>,
    n: int,
    before: u128,
    now: u128,
    window: u128,
)
    requires
        nondecreasing(times),
        0 <= n <= times.len(),
        before <= now,
    ensures
        evict(fresh_accepted(times, acc, n, before, window), now, window) == fresh_accepted(
            times,
            acc,
            n,
            now,
            window,
        ),
    decreases n,
{
    if n == 0 {
        assert(fresh_accepted(times, acc, 0, before, window) =~= Seq::<u128>::empty());
        assert(fresh_accepted(times, acc, 0, now, window) =~= Seq::<u128>::empty());
    } else {
        lemma_evict_fresh(times, acc, n - 1, before, now, window);
        let x = times[n - 1];
        let f_before = fresh_accepted(times, acc, n - 1, before, window);
        let f_now = fresh_accepted(times, acc, n - 1, now, window);
        if acc[n - 1] && !expired(x, before, window) {
            lemma_evict_push(f_before, x, now, window);
            assert(evict(seq![x], now, window) == if expired(x, now, window) {
                Seq::<u128>::empty()
            } else {
                seq![x]
            }) by {
                assert(seq![x][0] == x);
                assert(seq![x].drop_first() =~= Seq::<u128>::empty());
                assert(evict(Seq::<u128>::empty(), now, window) == Seq::<u128>::empty());
            }
            if expired(x, now, window) && f_now.len() > 0 {
                if n >= 2 {
                    lemma_fresh_bounds(times, acc, n - 1, now, window);
                    assert(times[n - 2] <= x);
                    lemma_expired_monotone(x, f_now[0], now, now, window);
                }
                assert(false);
            }
            if !expired(x, now, window) && f_now.len() == 0 {
                assert(f_now.push(x) =~= seq![x]);
            }
        } else if acc[n - 1] {
            lemma_expired_monotone(x, x, before, now, window);
        }
    }
}

/// The state of the limiter after a run of requests in time order.
proof fn lemma_run_requests(times: Seq<u128>, max_events: usize, window: u128)
    requires
        nondecreasing(times),
    ensures
        ({
            let (mem, acc) = run_requests(times, max_events, window);
            &&& acc.len() == times.len()
            &&& mem.len() <= max_events
            &&& times.len() == 0 ==> mem == Seq::<u128>::empty()
            &&& times.len() > 0 ==> mem == fresh_accepted(times, acc, times.len() as int, times.last(), window)
            &&& forall|k: int| 0 <= k < times.len() && #[trigger] acc[k] ==> fresh_accepted(
                times,
                acc,
                k + 1,
                times[k],
                window,
            ).len() <= max_events
            &&& forall|k: int| 0 <= k < times.len() ==> #[trigger] acc[k] == (fresh_accepted(
                times,
                acc,
                k,
                times[k],
                window,
            ).len() < max_events)
        }),
    decreases times.len(),
{
    if times.len() > 0 {
        let t = times.last();
        let prev = times.drop_last();
        let n = times.len() as int;
        assert(nondecreasing(prev));
        lemma_run_requests(prev, max_events, window);
        let (mem_p, acc_p) = run_requests(prev, max_events, window);
        let (mem, acc) = run_requests(times, max_events, window);
        let kept = evict(mem_p, t, window);
        lemma_evict_suffix(mem_p, t, window);
        assert(kept.len() <= mem_p.len()) by {
            let k = choose|k: int| 0 <= k <= mem_p.len() && #[trigger] mem_p.skip(k) == kept;
        }
        assert forall|j: int| 0 <= j < n - 1 implies prev[j] == times[j] && acc_p[j] == acc[j] by {}
        lemma_fresh_agree(prev, acc_p, times, acc, n - 1, t, window);
        if n == 1 {
            assert(kept =~= Seq::<u128>::empty());
            assert(fresh_accepted(times, acc, 0, t, window) =~= Seq::<u128>::empty());
        } else {
            lemma_fresh_agree(prev, acc_p, times, acc, n - 1, prev.last(), window);
            assert(prev.last() <= t);
            lemma_evict_fresh(prev, acc_p, n - 1, prev.last(), t, window);
        }
        assert(kept == fresh_accepted(times, acc, n - 1, t, window));
        assert(!expired(t, t, window));
        assert forall|k: int| 0 <= k < n && #[trigger] acc[k] implies fresh_accepted(
            times,
            acc,
            k + 1,
            times[k],
            window,
        ).len() <= max_events by {
            if k < n - 1 {
                assert(acc_p[k]);
                lemma_fresh_agree(prev, acc_p, times, acc, k + 1, prev[k], window);
            }
        }
        assert forall|k: int| 0 <= k < n implies #[trigger] acc[k] == (fresh_accepted(
            times,
            acc,
            k,
            times[k],
            window,
        ).len() < max_events) by {
            if k < n - 1 {
                lemma_fresh_agree(prev, acc_p, times, acc, k, prev[k], window);
            }
        }
    }
}

/// Law of the limiter: when requests arrive in time order, every accepted request has at
/// most `max_events` accepted requests, itself included, within the window that ends at
/// its time.
pub proof fn law_at_most_max_per_window(times: Seq<u128>, max_events: usize, window: u128)
    requires
        nondecreasing(times),
    ensures
        ({
            let acc = run_requests(times, max_events, window).1;
            &&& acc.len() == times.len()
            &&& forall|k: int| 0 <= k < times.len() && #[trigger] acc[k] ==> fresh_accepted(
                times,
                acc,
                k + 1,
                times[k],
                window,
            ).len() <= max_events
        }),
{
    lemma_run_requests(times, max_events, window);
}

/// Law of the limiter: when requests arrive in time order, a request is accepted exactly
/// when fewer than `max_events` earlier requests were accepted within the window that
/// ends at its time.
pub proof fn law_which_requests_pass(times: Seq<u128>, max_events: usize, window: u128)
    requires
        nondecreasing(times),
    ensures
        ({
            let acc = run_requests(times, max_events, window).1;
            &&& acc.len() == times.len()
            &&& forall|k: int| 0 <= k < times.len() ==> #[trigger] acc[k] == (fresh_accepted(
                times,
                acc,
                k,
                times[k],
                window,
            ).len() < max_events)
        }),
{
    lemma_run_requests(times, max_events, window);
}

/// While the first `k` requests are none expired and each is accepted exactly when it is
/// among the first `max_events`, `min(k, max_events)` of them are remembered as fresh.
proof fn lemma_fresh_len_within(
    times: Seq<u128>,
    acc: Seq<bool>,
    k: int,
    now: u128,
    window: u128,
    max_events: usize,
)
    requires
        0 <= k <= times.len(),
        forall|j: int| 0 <= j < k ==> !expired(#[trigger] times[j], now, window),
        forall|j: int| 0 <= j < k ==> #[trigger] acc[j] == (j < max_events),
    ensures
        fresh_accepted(times, acc, k, now, window).len() == if k < max_events {
            k
        } else {
            max_events as int
        },
    decreases k,
{
    if k > 0 {
        lemma_fresh_len_within(times, acc, k - 1, now, window, max_events);
        assert(!expired(times[k - 1], now, window));
        assert(acc[k - 1] == (k - 1 < max_events));
    }
}

/// Law of the limiter: requests whose times all lie within one window are accepted
/// exactly while fewer than `max_events` came before them: the first `max_events` pass
/// and the rest are refused.
pub proof fn law_first_requests_pass(times: Seq<u128>, max_events: usize, window: u128)
    requires
        nondecreasing(times),
        times.len() > 0,
        times.last() - times[0] <= window,
    ensures
        ({
            let acc = run_requests(times, max_events, window).1;
            &&& acc.len() == times.len()
            &&& forall|k: int| 0 <= k < times.len() ==> #[trigger] acc[k] == (k < max_events)
        }),
{
    lemma_run_requests(times, max_events, window);
    let acc = run_requests(times, max_events, window).1;
    let n = times.len() as int;
    assert forall|i: int, j: int| 0 <= i <= j < n implies !expired(
        #[trigger] times[i],
        #[trigger] times[j],
        window,
    ) by {
        assert(times[0] <= times[i]);
        assert(times[j] <= times[n - 1]);
    }
    lemma_first_decisions(times, acc, n, max_events, window);
}

/// The first `k` decisions of a run within one window.
proof fn lemma_first_decisions(times: Seq<u128>, acc: Seq<bool>, k: int, max_events: usize, window: u128)
    requires
        0 <= k <= times.len(),
        acc.len() == times.len(),
        forall|i: int, j: int| 0 <= i <= j < times.len() ==> !expired(
            #[trigger] times[i],
            #[trigger] times[j],
            window,
        ),
        forall|m: int| 0 <= m < times.len() ==> #[trigger] acc[m] == (fresh_accepted(
            times,
            acc,
            m,
            times[m],
            window,
        ).len() < max_events),
    ensures
        forall|j: int| 0 <= j < k ==> #[trigger] acc[j] == (j < max_events),
    decreases k,
{
    if k > 0 {
        lemma_first_decisions(times, acc, k - 1, max_events, window);
        let m = k - 1;
        assert forall|j: int| 0 <= j < m implies !expired(#[trigger] times[j], times[m], window) by {
            assert(!expired(times[j], times[m], window));
        }
        lemma_fresh_len_within(times, acc, m, times[m], window, max_events);
        assert(acc[m] == (fresh_accepted(times, acc, m, times[m], window).len() < max_events));
    }
}

} // verus!
