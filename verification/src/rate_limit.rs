//! How many requests a client may make.

use vstd::prelude::*;

use crate::response::{lemma_room_empty, Response, ResponseView};
use crate::text::{decimal, to_decimal_wide};
use crate::time::{since, Duration, Instant};
use crate::websocket::types::IpAddress;

verus! {

/// The requests of a client since the beginning of its window. Clients whose address is
/// not known count as one.
#[derive(Clone, Copy, Debug, PartialEq, Eq, Structural)]
pub struct Bucket {
    pub key: Option<IpAddress>,
    pub start: Instant,
    pub count: u32,
}

/// Lets each client make so many requests in a window of time.
#[derive(Debug)]
pub struct RateLimiter {
    pub max_requests: u32,
    pub window: Duration,
    pub buckets: Vec<Bucket>,
}

/// Whether a window is still open.
pub open spec fn is_open(b: Bucket, now: Instant, window: Duration) -> bool {
    since(now, b.start).nanos < window.nanos
}

/// The windows that are still open.
pub open spec fn still_open(b: Seq<Bucket>, now: Instant, window: Duration) -> Seq<Bucket>
    decreases b.len(),
{
    if b.len() == 0 {
        Seq::empty()
    } else if is_open(b.last(), now, window) {
        still_open(b.drop_last(), now, window).push(b.last())
    } else {
        still_open(b.drop_last(), now, window)
    }
}

/// The window of a client.
pub open spec fn bucket_of(b: Seq<Bucket>, key: Option<IpAddress>) -> Option<Bucket>
    decreases b.len(),
{
    if b.len() == 0 {
        None
    } else if b.last().key == key {
        Some(b.last())
    } else {
        bucket_of(b.drop_last(), key)
    }
}

/// One more, up to the largest number.
pub open spec fn one_more(n: u32) -> u32 {
    if n == u32::MAX {
        n
    } else {
        (n + 1) as u32
    }
}

/// The window of a client once it has made one more request.
pub open spec fn counted(
    was: Option<Bucket>,
    key: Option<IpAddress>,
    now: Instant,
    window: Duration,
) -> Bucket {
    match was {
        Some(b) => if is_open(b, now, window) {
            Bucket { count: one_more(b.count), ..b }
        } else {
            Bucket { key, start: now, count: 1 }
        },
        None => Bucket { key, start: now, count: 1 },
    }
}

/// How long a client has to wait that has used up its window.
pub open spec fn wait_of(b: Bucket, max: u32, now: Instant, window: Duration) -> Option<Duration> {
    if b.count > max {
        Some(
            Duration {
                nanos: if window.nanos < since(now, b.start).nanos {
                    0
                } else {
                    (window.nanos - since(now, b.start).nanos) as u128
                },
            },
        )
    } else {
        None
    }
}

/// Whether each client has one window at most.
pub open spec fn keys_differ(b: Seq<Bucket>) -> bool {
    forall|i: int, j: int| 0 <= i < j < b.len() ==> (#[trigger] b[i]).key != (#[trigger] b[j]).key
}

proof fn lemma_bucket(b: Seq<Bucket>, key: Option<IpAddress>)
    ensures
        match bucket_of(b, key) {
            Some(x) => x.key == key && b.contains(x),
            None => forall|i: int| 0 <= i < b.len() ==> (#[trigger] b[i]).key != key,
        },
    decreases b.len(),
{
    if b.len() > 0 {
        if b.last().key == key {
            assert(b[b.len() - 1] == b.last());
        } else {
            let d = b.drop_last();
            lemma_bucket(d, key);
            match bucket_of(d, key) {
                Some(x) => {
                    let i = choose|i: int| 0 <= i < d.len() && d[i] == x;
                    assert(b[i] == x);
                },
                None => {
                    assert forall|i: int| 0 <= i < b.len() implies (#[trigger] b[i]).key != key by {
                        if i < d.len() {
                            assert(d[i] == b[i]);
                        }
                    }
                },
            }
        }
    }
}

proof fn lemma_bucket_is(b: Seq<Bucket>, i: int)
    requires
        keys_differ(b),
        0 <= i < b.len(),
    ensures
        bucket_of(b, b[i].key) == Some(b[i]),
    decreases b.len(),
{
    if i < b.len() - 1 {
        let d = b.drop_last();
        assert(keys_differ(d));
        assert(b[i].key != b[b.len() - 1].key);
        lemma_bucket_is(d, i);
    }
}

proof fn lemma_still_open(b: Seq<Bucket>, now: Instant, window: Duration)
    requires
        keys_differ(b),
    ensures
        keys_differ(still_open(b, now, window)),
        forall|i: int|
            0 <= i < still_open(b, now, window).len() ==> b.contains(
                #[trigger] still_open(b, now, window)[i],
            ),
        forall|key: Option<IpAddress>| #[trigger]
            bucket_of(still_open(b, now, window), key) == (match bucket_of(b, key) {
                Some(x) => if is_open(x, now, window) {
                    Some(x)
                } else {
                    None
                },
                None => None,
            }),
    decreases b.len(),
{
    if b.len() > 0 {
        let d = b.drop_last();
        let s = still_open(b, now, window);
        let sd = still_open(d, now, window);
        assert(keys_differ(d));
        lemma_still_open(d, now, window);
        assert(b[b.len() - 1] == b.last());
        assert forall|i: int| 0 <= i < s.len() implies b.contains(#[trigger] s[i]) by {
            if i < sd.len() {
                assert(d.contains(sd[i]));
                let j = choose|j: int| 0 <= j < d.len() && d[j] == sd[i];
                assert(b[j] == s[i]);
            }
        }
        assert forall|i: int, j: int| 0 <= i < j < s.len() implies (#[trigger] s[i]).key != (
        #[trigger] s[j]).key by {
            if j == sd.len() {
                assert(d.contains(sd[i]));
                let k = choose|k: int| 0 <= k < d.len() && d[k] == sd[i];
                assert(b[k].key != b[b.len() - 1].key);
            }
        }
        assert forall|key: Option<IpAddress>| #[trigger]
            bucket_of(s, key) == (match bucket_of(b, key) {
                Some(x) => if is_open(x, now, window) {
                    Some(x)
                } else {
                    None
                },
                None => None,
            }) by {
            if is_open(b.last(), now, window) {
                assert(s.drop_last() =~= sd);
                assert(s.last() == b.last());
            } else if b.last().key == key {
                lemma_bucket(sd, key);
                if let Some(x) = bucket_of(sd, key) {
                    assert(sd.contains(x));
                    let n = choose|n: int| 0 <= n < sd.len() && sd[n] == x;
                    assert(d.contains(sd[n]));
                    let k = choose|k: int| 0 <= k < d.len() && d[k] == x;
                    assert(b[k].key != b[b.len() - 1].key);
                }
            }
        }
    }
}

impl RateLimiter {
    /// Whether each client has one window at most.
    pub open spec fn wf(&self) -> bool {
        keys_differ(self.buckets@)
    }

    /// The window of a client.
    pub open spec fn bucket(&self, key: Option<IpAddress>) -> Option<Bucket> {
        bucket_of(self.buckets@, key)
    }

    /// A limiter that has seen no request.
    pub fn new(max_requests: u32, window: Duration) -> (r: RateLimiter)
        ensures
            r.wf(),
            r.max_requests == max_requests,
            r.window == window,
            forall|key: Option<IpAddress>| #[trigger] r.bucket(key) is None,
    {
        RateLimiter { max_requests, window, buckets: Vec::new() }
    }

    /// Forgets the windows that are over.
    fn retain(&mut self, now: Instant)
        requires
            old(self).wf(),
        ensures
            final(self).wf(),
            final(self).max_requests == old(self).max_requests,
            final(self).window == old(self).window,
            final(self).buckets@ == still_open(old(self).buckets@, now, old(self).window),
    {
        let ghost was = self.buckets@;
        let mut kept: Vec<Bucket> = Vec::new();
        let mut i: usize = 0;
        assert(was.take(0) =~= Seq::empty());
        while i < self.buckets.len()
            invariant
                i <= self.buckets.len(),
                was == self.buckets@,
                kept@ == still_open(was.take(i as int), now, self.window),
            decreases self.buckets.len() - i,
        {
            assert(was.take(i + 1).drop_last() =~= was.take(i as int));
            assert(was.take(i + 1).last() == was[i as int]);
            let b: Bucket = self.buckets[i];
            if now.duration_since(b.start).nanos < self.window.nanos {
                kept.push(b);
            }
            i += 1;
        }
        assert(was.take(was.len() as int) =~= was);
        proof {
            lemma_still_open(was, now, self.window);
        }
        self.buckets = kept;
    }

    /// Counts a request, and says how long its client has to wait where it has made
    /// more than it may.
    pub fn check(&mut self, key: Option<IpAddress>, now: Instant) -> (r: Option<Duration>)
        requires
            old(self).wf(),
        ensures
            final(self).wf(),
            final(self).max_requests == old(self).max_requests,
            final(self).window == old(self).window,
            forall|k: Option<IpAddress>| #[trigger]
                final(self).bucket(k) == (if k == key {
                    Some(counted(old(self).bucket(key), key, now, old(self).window))
                } else {
                    match old(self).bucket(k) {
                        Some(b) => if is_open(b, now, old(self).window) {
                            Some(b)
                        } else {
                            None
                        },
                        None => None,
                    }
                }),
            r == wait_of(
                counted(old(self).bucket(key), key, now, old(self).window),
                old(self).max_requests,
                now,
                old(self).window,
            ),
    {
        let ghost was = self.buckets@;
        let ghost window = self.window;
        proof {
            lemma_still_open(was, now, window);
            lemma_bucket(was, key);
        }
        self.retain(now);
        let ghost kept = self.buckets@;
        let mut k: usize = 0;
        while k < self.buckets.len() && !same_key(&self.buckets[k].key, &key)
            invariant
                k <= self.buckets.len(),
                kept == self.buckets@,
                forall|i: int| 0 <= i < k ==> (#[trigger] kept[i]).key != key,
            decreases self.buckets.len() - k,
        {
            k += 1;
        }
        let bucket: Bucket = if k < self.buckets.len() {
            let b: Bucket = self.buckets[k];
            proof {
                lemma_bucket_is(kept, k as int);
            }
            let b: Bucket = Bucket { count: b.count.saturating_add(1), ..b };
            self.buckets.set(k, b);
            b
        } else {
            proof {
                lemma_bucket(kept, key);
                if let Some(x) = bucket_of(kept, key) {
                    let i = choose|i: int| 0 <= i < kept.len() && kept[i] == x;
                    assert(kept[i].key != key);
                }
            }
            let b: Bucket = Bucket { key, start: now, count: 1 };
            self.buckets.push(b);
            b
        };
        proof {
            let now_b = self.buckets@;
            assert(bucket == counted(bucket_of(was, key), key, now, window));
            assert(keys_differ(now_b));
            assert forall|q: Option<IpAddress>| #[trigger]
                bucket_of(now_b, q) == (if q == key {
                    Some(bucket)
                } else {
                    bucket_of(kept, q)
                }) by {
                lemma_put(kept, now_b, k as int, q);
            }
        }
        if bucket.count > self.max_requests {
            let used: Duration = now.duration_since(bucket.start);
            Some(Duration { nanos: self.window.nanos.saturating_sub(used.nanos) })
        } else {
            None
        }
    }
}

/// A window that is put in the place of one, or at the end, is that of its client.
proof fn lemma_put(was: Seq<Bucket>, now: Seq<Bucket>, k: int, q: Option<IpAddress>)
    requires
        keys_differ(was),
        keys_differ(now),
        0 <= k < now.len(),
        k <= was.len(),
        now == (if k < was.len() {
            was.update(k, now[k])
        } else {
            was.push(now[k])
        }),
        k < was.len() ==> was[k].key == now[k].key,
    ensures
        bucket_of(now, q) == (if q == now[k].key {
            Some(now[k])
        } else {
            bucket_of(was, q)
        }),
{
    lemma_bucket_is(now, k);
    if q != now[k].key {
        lemma_bucket(was, q);
        lemma_bucket(now, q);
        match bucket_of(was, q) {
            Some(x) => {
                let i = choose|i: int| 0 <= i < was.len() && was[i] == x;
                assert(now[i] == x);
                lemma_bucket_is(now, i);
            },
            None => {
                if let Some(y) = bucket_of(now, q) {
                    let i = choose|i: int| 0 <= i < now.len() && now[i] == y;
                    assert(i != k);
                    assert(was[i] == y);
                }
            },
        }
    }
}

/// Whether two clients are the same.
fn same_key(a: &Option<IpAddress>, b: &Option<IpAddress>) -> (r: bool)
    ensures
        r == (*a == *b),
{
    match (a, b) {
        (Some(x), Some(y)) => *x == *y,
        (None, None) => true,
        _ => false,
    }
}

/// The whole seconds that a client is told to wait: one at least.
pub open spec fn told_seconds(wait: Duration) -> nat {
    if wait.nanos / 1_000_000_000 == 0 {
        1
    } else {
        (wait.nanos / 1_000_000_000) as nat
    }
}

/// What a client is answered that has to wait.
pub fn rate_limit(wait: Option<Duration>) -> (r: Option<Response>)
    ensures
        match wait {
            None => r is None,
            Some(w) => r matches Some(res) && res@ == ResponseView::text(
                "Too Many Requests"@,
            ).with_status(429).with_header("retry-after"@, decimal(told_seconds(w))),
        },
{
    match wait {
        None => None,
        Some(w) => {
            let secs: u128 = w.nanos / 1_000_000_000;
            let secs: u128 = if secs == 0 {
                1
            } else {
                secs
            };
            let text: String = to_decimal_wide(secs);
            proof {
                lemma_room_empty(1);
            }
            Some(
                Response::send("Too Many Requests").status(429).header(
                    "retry-after",
                    text.as_str(),
                ),
            )
        },
    }
}

/// The window of a client after requests at the given times.
pub open spec fn after(
    was: Option<Bucket>,
    key: Option<IpAddress>,
    times: Seq<Instant>,
    window: Duration,
) -> Option<Bucket>
    decreases times.len(),
{
    if times.len() == 0 {
        was
    } else {
        Some(counted(after(was, key, times.drop_last(), window), key, times.last(), window))
    }
}

/// In one window a client is let through for its first requests, as many as it may
/// make, and made to wait for all others.
pub proof fn law_window_admits_the_first_requests(
    key: Option<IpAddress>,
    times: Seq<Instant>,
    window: Duration,
    max: u32,
)
    requires
        0 < times.len() < u32::MAX,
        forall|i: int|
            0 <= i < times.len() ==> times[0].nanos <= (#[trigger] times[i]).nanos
                && since(times[i], times[0]).nanos < window.nanos,
    ensures
        after(None, key, times, window) == Some(
            Bucket { key, start: times[0], count: times.len() as u32 },
        ),
        wait_of(
            after(None, key, times, window)->0,
            max,
            times.last(),
            window,
        ) is None <==> times.len() <= max,
{
    law_every_window_admits_the_first_requests(None, key, times, window, max);
}

/// Whatever a client did before, a request that finds its window over begins a window at
/// the moment of that request. In every window the client is let through for its first
/// requests, as many as it may make, and made to wait for all others until the window is
/// over.
pub proof fn law_every_window_admits_the_first_requests(
    was: Option<Bucket>,
    key: Option<IpAddress>,
    times: Seq<Instant>,
    window: Duration,
    max: u32,
)
    requires
        0 < times.len() < u32::MAX,
        was matches Some(b) ==> times[0].nanos >= b.start.nanos + window.nanos,
        forall|i: int|
            0 <= i < times.len() ==> times[0].nanos <= (#[trigger] times[i]).nanos
                && times[i].nanos < times[0].nanos + window.nanos,
    ensures
        after(was, key, times, window) == Some(
            Bucket { key, start: times[0], count: times.len() as u32 },
        ),
        times.len() <= max ==> wait_of(after(was, key, times, window)->0, max, times.last(), window)
            is None,
        times.len() > max ==> (wait_of(
            after(was, key, times, window)->0,
            max,
            times.last(),
            window,
        ) matches Some(wait) && times.last().nanos + wait.nanos == times[0].nanos + window.nanos),
    decreases times.len(),
{
    assert(times[times.len() - 1] == times.last());
    if times.len() > 1 {
        let d = times.drop_last();
        assert(d[0] == times[0]);
        assert forall|i: int| 0 <= i < d.len() implies d[0].nanos <= (#[trigger] d[i]).nanos
            && d[i].nanos < d[0].nanos + window.nanos by {
            assert(d[i] == times[i]);
        }
        law_every_window_admits_the_first_requests(was, key, d, window, max);
    } else {
        assert(after(was, key, times.drop_last(), window) == was);
    }
}

/// A client whose window ends a while after it was used up is let through again: the
/// request at the end of the window, or behind it, is the first of a new one.
pub proof fn law_clients_recover(
    was: Bucket,
    key: Option<IpAddress>,
    now: Instant,
    window: Duration,
    max: u32,
)
    requires
        max > 0,
        now.nanos >= was.start.nanos + window.nanos,
    ensures
        counted(Some(was), key, now, window) == (Bucket { key, start: now, count: 1 }),
        wait_of(counted(Some(was), key, now, window), max, now, window) is None,
{
}

/// The window of a client is the one with its key, where there is one, whatever other
/// clients there are.
pub proof fn law_clients_have_windows_of_their_own(b: Seq<Bucket>, i: int, key: Option<IpAddress>)
    requires
        keys_differ(b),
    ensures
        0 <= i < b.len() ==> bucket_of(b, b[i].key) == Some(b[i]),
        (forall|j: int| 0 <= j < b.len() ==> (#[trigger] b[j]).key != key) ==> bucket_of(b, key)
            is None,
{
    if 0 <= i < b.len() {
        lemma_bucket_is(b, i);
    }
    lemma_bucket(b, key);
    if let Some(x) = bucket_of(b, key) {
        let j = choose|j: int| 0 <= j < b.len() && b[j] == x;
        assert(b[j].key == key);
    }
}

/// A client that has to wait is told so with status 429 and whole seconds: one at least,
/// and no more than are left.
pub proof fn law_told_seconds(wait: Duration)
    ensures
        told_seconds(wait) >= 1,
        wait.nanos >= 1_000_000_000 ==> told_seconds(wait) * 1_000_000_000 <= wait.nanos
            < (told_seconds(wait) + 1) * 1_000_000_000,
        wait.nanos < 1_000_000_000 ==> told_seconds(wait) == 1,
{
}

/// A client that has used up its window waits for what is left of it, and one that has not
/// does not wait.
pub proof fn law_waits_last_to_the_end_of_the_window(
    b: Bucket,
    max: u32,
    now: Instant,
    window: Duration,
)
    requires
        b.start.nanos <= now.nanos,
    ensures
        b.count <= max ==> wait_of(b, max, now, window) is None,
        b.count > max && now.nanos <= b.start.nanos + window.nanos ==> (wait_of(b, max, now, window)
            matches Some(w) && now.nanos + w.nanos == b.start.nanos + window.nanos),
        b.count > max && now.nanos > b.start.nanos + window.nanos ==> wait_of(b, max, now, window)
            == Some(Duration { nanos: 0 }),
{
}

} // verus!
