//! Decisions of a load-balancing proxy: which upstream server takes a
//! connection, and whether a client is within its request rate.
use vstd::prelude::*;
use std::collections::VecDeque;
use rand::Rng;

verus! {

/// The length of the rate-limiting window, in milliseconds.
pub const WINDOW_MS: u64 = 60_000;

/// `s` without its leading timestamps older than `cutoff`.
pub open spec fn drop_before(s: Seq<u64>, cutoff: u64) -> Seq<u64>
    decreases s.len(),
{
    if s.len() > 0 && s[0] < cutoff {
        drop_before(s.drop_first(), cutoff)
    } else {
        s
    }
}

/// The start of the window that ends at `now`.
pub open spec fn cutoff_of(now: u64) -> u64 {
    if now >= WINDOW_MS { (now - WINDOW_MS) as u64 } else { 0 }
}

/// The times, in milliseconds, of one client's requests in the last window,
/// oldest first.
pub struct RateWindow {
    stamps: VecDeque<u64>,
}

impl View for RateWindow {
    type V = Seq<u64>;

    closed spec fn view(&self) -> Seq<u64> {
        self.stamps@
    }
}

impl RateWindow {
    pub fn new() -> (r: RateWindow)
        ensures
            r@ == Seq::<u64>::empty(),
    {
        RateWindow { stamps: VecDeque::new() }
    }

    pub fn len(&self) -> (r: usize)
        ensures
            r == self@.len(),
    {
        self.stamps.len()
    }

    /// A request at time `now`: forgets requests older than the window, then
    /// lets this one through if fewer than `max` remain, and records it.
    pub fn allow_request(&mut self, now: u64, max: usize) -> (r: bool)
        ensures
            ({
                let kept = drop_before(old(self)@, cutoff_of(now));
                &&& r == (kept.len() < max)
                &&& final(self)@ == if r { kept.push(now) } else { kept }
            }),
    {
        let cutoff: u64 = if now >= WINDOW_MS { now - WINDOW_MS } else { 0 };
        loop
            invariant
                drop_before(self@, cutoff) == drop_before(old(self)@, cutoff),
                cutoff == cutoff_of(now),
            ensures
                self@ == drop_before(old(self)@, cutoff),
            decreases self@.len(),
        {
            if self.stamps.len() == 0 {
                break;
            }
            let front = self.stamps[0];
            if front >= cutoff {
                break;
            }
            self.stamps.pop_front();
        }
        if self.stamps.len() >= max {
            return false;
        }
        self.stamps.push_back(now);
        true
    }
}

/// Relies on `rand::Rng::gen_range` over the thread's generator: a value in
/// `0..n`, which must not be empty (the call panics then).
#[verifier::external_body]
fn random_below(n: usize) -> (r: usize)
    requires
        n > 0,
    ensures
        r < n,
{
    rand::thread_rng().gen_range(0..n)
}

/// The upstream servers that are believed alive.
pub struct UpstreamPool {
    live: Vec<String>,
}

/// The addresses, as character sequences.
pub open spec fn addrs_view(v: Seq<String>) -> Seq<Seq<char>> {
    v.map_values(|s: String| s@)
}

impl View for UpstreamPool {
    type V = Seq<Seq<char>>;

    closed spec fn view(&self) -> Seq<Seq<char>> {
        addrs_view(self.live@)
    }
}

impl UpstreamPool {
    pub fn new(addrs: Vec<String>) -> (r: UpstreamPool)
        ensures
            r@ == addrs_view(addrs@),
    {
        UpstreamPool { live: addrs }
    }

    pub fn len(&self) -> (r: usize)
        ensures
            r == self@.len(),
    {
        self.live.len()
    }

    /// Picks a live upstream at random: its position and address, or `None`
    /// when none is alive.
    pub fn pick(&self) -> (r: Option<(usize, String)>)
        ensures
            r.is_none() <==> self@.len() == 0,
            r matches Some((i, a)) ==> i < self@.len() && a@ == self@[i as int],
    {
        let n = self.live.len();
        if n == 0 {
            return None;
        }
        let i = random_below(n);
        Some((i, self.live[i].clone()))
    }

    /// An upstream at position `i` did not answer: it leaves the pool.
    pub fn remove(&mut self, i: usize)
        requires
            i < old(self)@.len(),
        ensures
            final(self)@ == old(self)@.remove(i as int),
    {
        self.live.remove(i);
        assert(addrs_view(self.live@) =~= addrs_view(old(self).live@).remove(i as int));
    }

    /// After a round of health checks: the pool is the upstreams that passed.
    pub fn replace(&mut self, healthy: Vec<String>)
        ensures
            final(self)@ == addrs_view(healthy@),
    {
        self.live = healthy;
    }
}

/// Whether a health check's response status shows a healthy upstream.
pub fn probe_ok(status: u16) -> (r: bool)
    ensures
        r == (status == 200),
{
    status == 200
}

} // verus!
