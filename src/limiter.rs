//! A per-client rate limiter: a write is let through when the client has not
//! written within the minimum interval, and the time of each accepted write is
//! recorded. A rejected attempt leaves the record as it was, so the wait that
//! it reports runs from the last accepted write.
use vstd::prelude::*;
use crate::clock::now_millis;
use crate::shared_map::{stamp_entries, stamp_map_get, stamp_map_insert, stamp_map_new};

verus! {

/// The outcome of a rate check.
#[derive(Debug, PartialEq, Eq, Structural)]
pub enum RateDecision {
    Allowed,
    /// The whole seconds, rounded down, until the interval has passed.
    Rejected { retry_after_secs: u64 },
}

/// The time of the last accepted write of `id`, if there was one.
pub open spec fn last_of(m: Map<Seq<char>, i64>, id: Seq<char>) -> Option<i64> {
    if m.contains_key(id) {
        Some(m[id])
    } else {
        None
    }
}

/// The outcome of a check at `now` (milliseconds) for a client whose last
/// accepted write was at `last`, with an interval of `min_secs` seconds.
pub open spec fn rate_verdict(last: Option<i64>, now: int, min_secs: int) -> RateDecision {
    match last {
        None => RateDecision::Allowed,
        Some(t) => if now - t >= min_secs * 1000 {
            RateDecision::Allowed
        } else {
            RateDecision::Rejected { retry_after_secs: ((min_secs * 1000 - (now - t)) / 1000) as u64 }
        },
    }
}

/// Client identities and the time of their last accepted write.
pub struct RateLimiter {
    stamps: dashmap::DashMap<String, i64>,
    min_interval_secs: u32,
}

impl RateLimiter {
    /// The last accepted write of each client, in milliseconds.
    pub closed spec fn stamps(&self) -> Map<Seq<char>, i64> {
        stamp_entries(self.stamps)
    }

    /// The minimum interval between two writes of one client, in seconds.
    pub closed spec fn min_interval(&self) -> u32 {
        self.min_interval_secs
    }

    /// A limiter that has seen no client.
    pub fn new(min_interval_secs: u32) -> (r: Self)
        ensures
            r.stamps() == Map::<Seq<char>, i64>::empty(),
            r.min_interval() == min_interval_secs,
    {
        let r = RateLimiter { stamps: stamp_map_new(), min_interval_secs };
        proof {
            assert(r.stamps() =~= Map::empty());
        }
        r
    }

    /// Checks a write of `id` at `now` (milliseconds) and, when it is
    /// allowed, records `now` as its last write.
    pub fn check_and_record_at(&mut self, id: String, now: i64) -> (r: RateDecision)
        ensures
            r == rate_verdict(last_of(old(self).stamps(), id@), now as int, old(self).min_interval() as int),
            final(self).min_interval() == old(self).min_interval(),
            final(self).stamps() == (if r is Allowed {
                old(self).stamps().insert(id@, now)
            } else {
                old(self).stamps()
            }),
    {
        let min_ms: i128 = self.min_interval_secs as i128 * 1000;
        match stamp_map_get(&self.stamps, &id) {
            Some(last) => {
                let elapsed: i128 = now as i128 - last as i128;
                if elapsed < min_ms {
                    let retry = (min_ms - elapsed) / 1000;
                    return RateDecision::Rejected { retry_after_secs: retry as u64 };
                }
            },
            None => {},
        }
        stamp_map_insert(&mut self.stamps, id, now);
        RateDecision::Allowed
    }

    /// Checks a write of `id` as of now.
    pub fn check_and_record(&mut self, id: String) -> (r: RateDecision)
        ensures
            final(self).min_interval() == old(self).min_interval(),
            exists|now: i64|
                r == rate_verdict(last_of(old(self).stamps(), id@), now as int, old(self).min_interval() as int)
                && final(self).stamps() == (if r is Allowed {
                    old(self).stamps().insert(id@, now)
                } else {
                    old(self).stamps()
                }),
    {
        let now = now_millis();
        self.check_and_record_at(id, now)
    }
}

/// A client with no accepted write is never turned away, and the record of
/// one client leaves every other client's outcome as it was.
pub proof fn law_fresh_client_allowed(m: Map<Seq<char>, i64>, id: Seq<char>, other: Seq<char>, t: i64, now: int, min_secs: int)
    requires
        id != other,
    ensures
        !m.contains_key(id) ==> rate_verdict(last_of(m, id), now, min_secs) == RateDecision::Allowed,
        rate_verdict(last_of(m.insert(other, t), id), now, min_secs) == rate_verdict(last_of(m, id), now, min_secs),
{
}

/// A second write of one client `d` milliseconds after an accepted one, with
/// `d` under the interval, is turned away with the rest of the interval in
/// whole seconds.
pub proof fn law_repeat_within_interval(m: Map<Seq<char>, i64>, id: Seq<char>, t: i64, d: int, min_secs: int)
    requires
        0 <= d < min_secs * 1000,
    ensures
        rate_verdict(last_of(m.insert(id, t), id), t + d, min_secs)
            == (RateDecision::Rejected { retry_after_secs: ((min_secs * 1000 - d) / 1000) as u64 }),
{
}

} // verus!
