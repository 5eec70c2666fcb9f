//! The limit on handshakes from one address.

use vstd::prelude::*;
use crate::net::limit;
use crate::net::limit::{Source, Sources};
use crate::util::IpAddr;

verus! {

/// Handshake attempts allowed per source address per minute.
pub const HANDSHAKES_PER_MINUTE: u32 = 10;

/// One minute, in nanoseconds.
pub const MINUTE: u64 = 60_000_000_000;

/// Addresses remembered before all others are turned away.
pub const MAX_GUARDED: usize = 512;

pub struct ConnGuard {
    pub seen: Sources,
}

/// Whether a handshake of an address is let in.
pub open spec fn lets_in(es: Seq<Source>, ip: IpAddr, now: u64) -> bool {
    &&& limit::fresh(es, now, MINUTE).len() <= MAX_GUARDED
    &&& limit::current(limit::fresh(es, now, MINUTE), ip, now, MINUTE).1 < HANDSHAKES_PER_MINUTE
}

/// The addresses remembered after a handshake was let in or not.
pub open spec fn after_attempt(es: Seq<Source>, ip: IpAddr, now: u64) -> Seq<Source> {
    let kept = limit::fresh(es, now, MINUTE);
    if kept.len() <= MAX_GUARDED {
        limit::bumped(kept, ip, now, MINUTE)
    } else {
        kept
    }
}

impl ConnGuard {
    pub open spec fn wf(&self) -> bool {
        self.seen.wf()
    }

    pub fn new() -> (r: Self)
        ensures
            r.wf(),
            r.seen.entries@ == Seq::<Source>::empty(),
    {
        ConnGuard { seen: Sources::new() }
    }

    /// Whether a handshake of `ip` is let in now, which counts it.
    pub fn allow(&mut self, ip: IpAddr, now: u64) -> (r: bool)
        requires
            old(self).wf(),
            old(self).seen.countable(ip, now, MINUTE),
        ensures
            final(self).wf(),
            r == lets_in(old(self).seen.entries@, ip, now),
            final(self).seen.entries@ == after_attempt(old(self).seen.entries@, ip, now),
    {
        proof {
            limit::lemma_current_of_fresh(self.seen.entries@, ip, now, MINUTE, MINUTE);
        }
        self.seen.retain_fresh(now, MINUTE);
        if self.seen.entries.len() > MAX_GUARDED {
            return false;
        }
        let n: u32 = self.seen.bump(ip, now, MINUTE);
        n <= HANDSHAKES_PER_MINUTE
    }
}

/// How many of the handshakes that an address attempts at the given times are
/// let in.
pub open spec fn let_in(es: Seq<Source>, ip: IpAddr, times: Seq<u64>) -> nat
    decreases times.len(),
{
    if times.len() == 0 {
        0
    } else {
        (if lets_in(es, ip, times[0]) {
            1nat
        } else {
            0nat
        }) + let_in(after_attempt(es, ip, times[0]), ip, times.skip(1))
    }
}

/// How many attempts an address has left in its minute.
pub open spec fn attempts_left(count: u32) -> nat {
    if count < HANDSHAKES_PER_MINUTE {
        (HANDSHAKES_PER_MINUTE - count) as nat
    } else {
        0
    }
}

/// Of a burst that an address starts and sends within one minute, no more is
/// let in than the limit; exactly that much while there is room in the table.
pub proof fn law_burst_is_limited(es: Seq<Source>, ip: IpAddr, start: u64, times: Seq<u64>)
    requires
        limit::distinct(es),
        limit::index_of(es, ip) < 0,
        times.len() < u32::MAX,
        forall|i: int| 0 <= i < times.len() ==> start <= #[trigger] times[i] < start + MINUTE,
    ensures
        let_in(es, ip, times) <= HANDSHAKES_PER_MINUTE,
        es.len() < MAX_GUARDED ==> let_in(es, ip, times) == if times.len()
            < HANDSHAKES_PER_MINUTE {
            times.len()
        } else {
            HANDSHAKES_PER_MINUTE as nat
        },
    decreases times.len(),
{
    if times.len() > 0 {
        let now = times[0];
        let kept = limit::fresh(es, now, MINUTE);
        limit::lemma_fresh_distinct(es, now, MINUTE);
        limit::lemma_index_of(es, ip);
        limit::lemma_index_of(kept, ip);
        if limit::index_of(kept, ip) >= 0 {
            let e = kept[limit::index_of(kept, ip)];
            assert(kept.contains(e));
            let k = choose|k: int| 0 <= k < es.len() && es[k] == e;
            assert(es[k].ip == ip);
        }
        let rest = times.skip(1);
        assert forall|i: int| 0 <= i < rest.len() implies start <= #[trigger] rest[i] < start
            + MINUTE by {
            assert(rest[i] == times[i + 1]);
        }
        let next = after_attempt(es, ip, now);
        if kept.len() <= MAX_GUARDED {
            limit::lemma_bumped_self(kept, ip, now, MINUTE);
            lemma_burst(next, ip, now, 1, start, rest);
        } else {
            law_burst_is_limited(next, ip, start, rest);
        }
    }
}

proof fn lemma_burst(
    es: Seq<Source>,
    ip: IpAddr,
    since: u64,
    count: u32,
    start: u64,
    times: Seq<u64>,
)
    requires
        limit::distinct(es),
        limit::index_of(es, ip) >= 0,
        es[limit::index_of(es, ip)] == (Source { ip, since, count }),
        start <= since < start + MINUTE,
        count + times.len() <= u32::MAX,
        forall|i: int| 0 <= i < times.len() ==> start <= #[trigger] times[i] < start + MINUTE,
    ensures
        let_in(es, ip, times) <= attempts_left(count),
        es.len() <= MAX_GUARDED ==> let_in(es, ip, times) == if times.len() < attempts_left(
            count,
        ) {
            times.len()
        } else {
            attempts_left(count)
        },
    decreases times.len(),
{
    if times.len() > 0 {
        let now = times[0];
        let kept = limit::fresh(es, now, MINUTE);
        limit::lemma_fresh_distinct(es, now, MINUTE);
        limit::lemma_index_of(es, ip);
        limit::lemma_current_of_fresh(es, ip, now, MINUTE, MINUTE);
        assert(limit::spec_elapsed(now, since) < MINUTE);
        assert(limit::current(es, ip, now, MINUTE) == (since, count));
        let rest = times.skip(1);
        assert forall|i: int| 0 <= i < rest.len() implies start <= #[trigger] rest[i] < start
            + MINUTE by {
            assert(rest[i] == times[i + 1]);
        }
        let next = after_attempt(es, ip, now);
        let keep = |e: Source| limit::spec_elapsed(now, e.since) < MINUTE;
        let i = limit::index_of(es, ip);
        assert(keep(es[i]));
        es.lemma_filter_contains(keep, i);
        let k = choose|k: int| 0 <= k < kept.len() && kept[k] == es[i];
        limit::lemma_index_unique(kept, k);
        if kept.len() <= MAX_GUARDED {
            limit::lemma_bumped_self(kept, ip, now, MINUTE);
            lemma_burst(next, ip, since, (count + 1) as u32, start, rest);
        } else {
            lemma_burst(next, ip, since, count, start, rest);
        }
    }
}

} // verus!
