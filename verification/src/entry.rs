//! A stored value together with the instant at which it stops being alive.

use crate::time::{now, Timestamp};
use vstd::prelude::*;

verus! {

/// A value record: the payload and, where it has a time-to-live, the absolute
/// instant after which it is dead. An entry is never changed once made; a new
/// one takes its place.
#[derive(Debug)]
pub struct Entry {
    pub value: String,
    pub expire_at: Option<Timestamp>,
}

impl Clone for Entry {
    fn clone(&self) -> (copy: Entry)
        ensures
            copy == *self,
    {
        Entry { value: self.value.clone(), expire_at: self.expire_at }
    }
}

impl Entry {
    /// The expiration instant, where there is one, is a valid instant.
    pub open spec fn wf(&self) -> bool {
        self.expire_at matches Some(at) ==> at.wf()
    }

    /// The expiration instant of an entry made at `now` with `ttl_secs`. A
    /// clock that reads before the epoch counts as the epoch itself.
    pub open spec fn spec_deadline(ttl_secs: Option<u64>, now: Option<Timestamp>) -> Option<
        Timestamp,
    > {
        match ttl_secs {
            None => None,
            Some(ttl) => match now {
                Some(at) => Some(at.spec_plus_secs(ttl)),
                None => Some(Timestamp { secs: 0, nanos: 0 }.spec_plus_secs(ttl)),
            },
        }
    }

    /// Whether the entry is alive at `now`: always without an expiration
    /// instant, otherwise as long as `now` is not past it. A clock that
    /// cannot be read makes every entry with a deadline dead.
    pub open spec fn alive_at(&self, now: Option<Timestamp>) -> bool {
        match self.expire_at {
            None => true,
            Some(deadline) => match now {
                Some(at) => !at.spec_is_after(&deadline),
                None => false,
            },
        }
    }

    /// Makes the entry that a clock reading of `now` gives.
    pub fn new_at(value: String, ttl_secs: Option<u64>, now: Option<Timestamp>) -> (e: Entry)
        requires
            now matches Some(at) ==> at.wf(),
        ensures
            e.value == value,
            e.expire_at == Self::spec_deadline(ttl_secs, now),
            e.wf(),
    {
        let expire_at = match ttl_secs {
            None => None,
            Some(ttl) => {
                let base = match now {
                    Some(at) => at,
                    None => Timestamp::new(0, 0),
                };
                Some(base.plus_secs(ttl))
            },
        };
        Entry { value, expire_at }
    }

    /// Makes an entry from a value and an optional time-to-live in seconds,
    /// counted from the current wall-clock time.
    pub fn new(value: String, ttl_secs: Option<u64>) -> (e: Entry)
        ensures
            e.value == value,
            e.wf(),
            ttl_secs is None <==> e.expire_at is None,
            exists|at: Option<Timestamp>|
                (at matches Some(t) ==> t.wf()) && e.expire_at == #[trigger] Self::spec_deadline(
                    ttl_secs,
                    at,
                ),
    {
        let at = now();
        let e = Entry::new_at(value, ttl_secs, at);
        assert(e.expire_at == Self::spec_deadline(ttl_secs, at));
        e
    }

    /// Decides whether the entry is alive at a given clock reading.
    pub fn is_alive_at(&self, now: Option<Timestamp>) -> (alive: bool)
        requires
            self.wf(),
            now matches Some(at) ==> at.wf(),
        ensures
            alive == self.alive_at(now),
    {
        match self.expire_at {
            None => true,
            Some(deadline) => match now {
                Some(at) => !at.is_after(&deadline),
                None => false,
            },
        }
    }

    /// The payload.
    pub fn value(&self) -> (v: &String)
        ensures
            *v == self.value,
    {
        &self.value
    }

    /// The expiration instant, if the entry has one.
    pub fn expire_at(&self) -> (at: Option<Timestamp>)
        ensures
            at == self.expire_at,
    {
        self.expire_at
    }
}

/// An entry made at `now` with a time-to-live of `ttl_secs` is alive at
/// `later` exactly when `later` lies no more than `ttl_secs` seconds after
/// `now`; in particular it is alive at `now` itself.
pub proof fn law_ttl_window(value: String, ttl_secs: u64, now: Timestamp, later: Timestamp)
    requires
        now.wf(),
        later.wf(),
    ensures
        (Entry { value, expire_at: Entry::spec_deadline(Some(ttl_secs), Some(now)) }).alive_at(
            Some(later),
        ) <==> later.as_nanos() <= now.as_nanos() + ttl_secs as int * 1_000_000_000,
        (Entry { value, expire_at: Entry::spec_deadline(Some(ttl_secs), Some(now)) }).alive_at(
            Some(now),
        ),
{
    crate::time::lemma_plus_secs(now, ttl_secs, later);
    crate::time::lemma_plus_secs(now, ttl_secs, now);
    assert(ttl_secs as int * 1_000_000_000 >= 0);
}

/// An entry without a time-to-live is alive at every clock reading.
pub proof fn law_no_ttl_never_dies(value: String, now: Option<Timestamp>, later: Option<Timestamp>)
    ensures
        (Entry { value, expire_at: Entry::spec_deadline(None, now) }).alive_at(later),
{
}

} // verus!
