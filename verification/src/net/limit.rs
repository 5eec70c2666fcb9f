//! Counting what each source address does within a window of time.
//!
//! Times are nanoseconds of a clock that never runs backwards.

use vstd::prelude::*;
use crate::util::IpAddr;

verus! {

/// One second, in nanoseconds.
pub const SECOND: u64 = 1_000_000_000;

/// The time from `then` to `now`; zero where `then` is not in the past.
pub open spec fn spec_elapsed(now: u64, then: u64) -> int {
    if now >= then {
        now - then
    } else {
        0
    }
}

/// See [`spec_elapsed`].
pub fn elapsed(now: u64, then: u64) -> (r: u64)
    ensures
        r == spec_elapsed(now, then),
{
    if now >= then {
        now - then
    } else {
        0
    }
}

/// What one address did since the start of its window.
#[derive(Clone, Copy, PartialEq, Eq, Debug, Structural)]
pub struct Source {
    pub ip: IpAddr,
    pub since: u64,
    pub count: u32,
}

/// The sources seen lately, each address once.
pub struct Sources {
    pub entries: Vec<Source>,
}

/// No address occurs twice.
pub open spec fn distinct(es: Seq<Source>) -> bool {
    forall|i: int, j: int| 0 <= i < j < es.len() ==> (#[trigger] es[i]).ip != (#[trigger] es[j]).ip
}

/// The index of an address, or `-1`.
pub open spec fn index_of(es: Seq<Source>, ip: IpAddr) -> int
    decreases es.len(),
{
    if es.len() == 0 {
        -1
    } else if es.last().ip == ip {
        es.len() - 1
    } else {
        index_of(es.drop_last(), ip)
    }
}

/// The sources whose window started less than `window` ago.
pub open spec fn fresh(es: Seq<Source>, now: u64, window: u64) -> Seq<Source> {
    es.filter(|e: Source| spec_elapsed(now, e.since) < window)
}

/// What an address did in its current window, before it does something now: a
/// window that has run out starts again.
pub open spec fn current(es: Seq<Source>, ip: IpAddr, now: u64, window: u64) -> (u64, u32) {
    let i = index_of(es, ip);
    if i >= 0 && spec_elapsed(now, es[i].since) < window {
        (es[i].since, es[i].count)
    } else {
        (now, 0)
    }
}

/// The sources after an address did something now.
pub open spec fn bumped(es: Seq<Source>, ip: IpAddr, now: u64, window: u64) -> Seq<Source> {
    let i = index_of(es, ip);
    let (since, count) = current(es, ip, now, window);
    let e = Source { ip, since, count: (count + 1) as u32 };
    if i >= 0 {
        es.update(i, e)
    } else {
        es.push(e)
    }
}

pub proof fn lemma_index_of(es: Seq<Source>, ip: IpAddr)
    ensures
        -1 <= index_of(es, ip) < es.len(),
        index_of(es, ip) >= 0 ==> es[index_of(es, ip)].ip == ip,
        index_of(es, ip) < 0 ==> forall|i: int| 0 <= i < es.len() ==> (#[trigger] es[i]).ip != ip,
    decreases es.len(),
{
    if es.len() > 0 && es.last().ip != ip {
        lemma_index_of(es.drop_last(), ip);
        if index_of(es, ip) < 0 {
            assert forall|i: int| 0 <= i < es.len() implies (#[trigger] es[i]).ip != ip by {
                if i < es.len() - 1 {
                    assert(es[i] == es.drop_last()[i]);
                }
            }
        }
    }
}

/// In a list without repetitions an address is found wherever it stands.
pub proof fn lemma_index_unique(es: Seq<Source>, i: int)
    requires
        distinct(es),
        0 <= i < es.len(),
    ensures
        index_of(es, es[i].ip) == i,
{
    lemma_index_of(es, es[i].ip);
}

pub proof fn lemma_fresh_distinct(es: Seq<Source>, now: u64, window: u64)
    requires
        distinct(es),
    ensures
        distinct(fresh(es, now, window)),
        fresh(es, now, window).len() <= es.len(),
        forall|e: Source|
            #[trigger] fresh(es, now, window).contains(e) ==> es.contains(e) && spec_elapsed(
                now,
                e.since,
            ) < window,
    decreases es.len(),
{
    reveal(Seq::filter);
    let keep = |e: Source| spec_elapsed(now, e.since) < window;
    let f = fresh(es, now, window);
    if es.len() > 0 {
        let t = es.drop_last();
        assert forall|i: int, j: int| 0 <= i < j < t.len() implies (#[trigger] t[i]).ip != (
        #[trigger] t[j]).ip by {
            assert(t[i] == es[i] && t[j] == es[j]);
        }
        lemma_fresh_distinct(t, now, window);
        let g = fresh(t, now, window);
        assert forall|i: int, j: int| 0 <= i < j < f.len() implies (#[trigger] f[i]).ip != (
        #[trigger] f[j]).ip by {
            if j == g.len() {
                assert(f[j] == es.last());
                assert(f[i] == g[i]);
                assert(g.contains(g[i]));
                let k = choose|k: int| 0 <= k < t.len() && t[k] == g[i];
                assert(es[k] == g[i]);
                assert(es[es.len() - 1] == es.last());
            } else {
                assert(f[i] == g[i] && f[j] == g[j]);
            }
        }
        assert forall|e: Source| #[trigger] f.contains(e) implies es.contains(e) && spec_elapsed(
            now,
            e.since,
        ) < window by {
            let i = choose|i: int| 0 <= i < f.len() && f[i] == e;
            if i < g.len() {
                assert(g[i] == e);
                assert(g.contains(e));
                let k = choose|k: int| 0 <= k < t.len() && t[k] == e;
                assert(es[k] == e);
            } else {
                assert(e == es.last());
                assert(es[es.len() - 1] == e);
            }
        }
    }
}

/// Forgetting old sources does not change what an address did in its current
/// window, as long as no window is longer than the memory.
pub proof fn lemma_current_of_fresh(es: Seq<Source>, ip: IpAddr, now: u64, window: u64, memory: u64)
    requires
        distinct(es),
        window <= memory,
    ensures
        current(fresh(es, now, memory), ip, now, window) == current(es, ip, now, window),
{
    let f = fresh(es, now, memory);
    let keep = |e: Source| spec_elapsed(now, e.since) < memory;
    lemma_fresh_distinct(es, now, memory);
    lemma_index_of(es, ip);
    lemma_index_of(f, ip);
    let i = index_of(es, ip);
    let j = index_of(f, ip);
    if i >= 0 && spec_elapsed(now, es[i].since) < window {
        assert(keep(es[i]));
        es.lemma_filter_contains(keep, i);
        let k = choose|k: int| 0 <= k < f.len() && f[k] == es[i];
        lemma_index_unique(f, k);
    } else if j >= 0 {
        assert(f.contains(f[j]));
        let k = choose|k: int| 0 <= k < es.len() && es[k] == f[j];
        lemma_index_unique(es, k);
    }
}

/// What one address does is not counted against another.
pub proof fn lemma_bumped_others(es: Seq<Source>, ip: IpAddr, now: u64, window: u64, other: IpAddr)
    requires
        distinct(es),
        other != ip,
    ensures
        distinct(bumped(es, ip, now, window)),
        forall|t: u64, w: u64|
            #[trigger] current(bumped(es, ip, now, window), other, t, w) == current(
                es,
                other,
                t,
                w,
            ),
{
    lemma_index_of(es, ip);
    lemma_index_of(es, other);
    let b = bumped(es, ip, now, window);
    assert(distinct(b));
    lemma_index_of(b, other);
    let i = index_of(es, other);
    let j = index_of(b, other);
    if i >= 0 {
        assert(b[i] == es[i]);
        lemma_index_unique(b, i);
    } else if j >= 0 {
        assert(j < es.len() ==> b[j].ip == es[j].ip);
    }
}

/// After an address did something, it is found with its new count.
pub proof fn lemma_bumped_self(es: Seq<Source>, ip: IpAddr, now: u64, window: u64)
    requires
        distinct(es),
    ensures
        distinct(bumped(es, ip, now, window)),
        ({
            let b = bumped(es, ip, now, window);
            let k = index_of(b, ip);
            let (since, count) = current(es, ip, now, window);
            0 <= k < b.len() && b[k] == (Source { ip, since, count: (count + 1) as u32 })
        }),
{
    lemma_index_of(es, ip);
    let b = bumped(es, ip, now, window);
    assert(distinct(b));
    let k = if index_of(es, ip) >= 0 {
        index_of(es, ip)
    } else {
        es.len() as int
    };
    lemma_index_unique(b, k);
}

impl Sources {
    pub open spec fn wf(&self) -> bool {
        distinct(self.entries@)
    }

    pub fn new() -> (r: Self)
        ensures
            r.wf(),
            r.entries@ == Seq::<Source>::empty(),
    {
        Sources { entries: Vec::new() }
    }

    /// Forgets the sources whose window started `window` ago or earlier.
    pub fn retain_fresh(&mut self, now: u64, window: u64)
        requires
            old(self).wf(),
        ensures
            final(self).wf(),
            final(self).entries@ == fresh(old(self).entries@, now, window),
    {
        let ghost es = self.entries@;
        let ghost keep = |e: Source| spec_elapsed(now, e.since) < window;
        let mut kept: Vec<Source> = Vec::new();
        let mut i: usize = 0;
        proof {
            reveal(Seq::filter);
            assert(es.take(0) =~= Seq::<Source>::empty());
        }
        while i < self.entries.len()
            invariant
                i <= self.entries@.len(),
                self.entries@ == es,
                keep == (|e: Source| spec_elapsed(now, e.since) < window),
                kept@ == es.take(i as int).filter(keep),
            decreases self.entries.len() - i,
        {
            proof {
                reveal(Seq::filter);
                assert(es.take(i + 1).drop_last() =~= es.take(i as int));
            }
            let e = self.entries[i];
            if elapsed(now, e.since) < window {
                kept.push(e);
            }
            i = i + 1;
        }
        proof {
            assert(es.take(es.len() as int) =~= es);
            lemma_fresh_distinct(es, now, window);
        }
        self.entries = kept;
    }

    /// The index of an address, if it was seen.
    fn find(&self, ip: IpAddr) -> (r: Option<usize>)
        ensures
            match r {
                Some(i) => i == index_of(self.entries@, ip) && i < self.entries@.len(),
                None => index_of(self.entries@, ip) == -1,
            },
    {
        let mut i: usize = self.entries.len();
        proof {
            assert(self.entries@.take(i as int) =~= self.entries@);
        }
        while i > 0
            invariant
                i <= self.entries@.len(),
                index_of(self.entries@, ip) == index_of(self.entries@.take(i as int), ip),
            decreases i,
        {
            proof {
                assert(self.entries@.take(i as int).drop_last() =~= self.entries@.take(i - 1));
            }
            if self.entries[i - 1].ip == ip {
                return Some(i - 1);
            }
            i = i - 1;
        }
        None
    }

    /// Whether the count of an address can still grow.
    pub open spec fn countable(&self, ip: IpAddr, now: u64, window: u64) -> bool {
        current(self.entries@, ip, now, window).1 < u32::MAX
    }

    /// See [`Sources::countable`].
    pub fn can_count(&self, ip: IpAddr, now: u64, window: u64) -> (r: bool)
        ensures
            r == self.countable(ip, now, window),
    {
        match self.find(ip) {
            Some(i) => elapsed(now, self.entries[i].since) >= window || self.entries[i].count
                < u32::MAX,
            None => true,
        }
    }

    /// Counts one more act of an address, and returns the count of its window.
    pub fn bump(&mut self, ip: IpAddr, now: u64, window: u64) -> (r: u32)
        requires
            old(self).wf(),
            old(self).countable(ip, now, window),
        ensures
            final(self).wf(),
            final(self).entries@ == bumped(old(self).entries@, ip, now, window),
            r == current(old(self).entries@, ip, now, window).1 + 1,
    {
        let ghost es = self.entries@;
        proof {
            lemma_index_of(es, ip);
        }
        match self.find(ip) {
            Some(i) => {
                let e = self.entries[i];
                let next = if elapsed(now, e.since) >= window {
                    Source { ip, since: now, count: 1 }
                } else {
                    Source { ip, since: e.since, count: e.count + 1 }
                };
                self.entries.set(i, next);
                next.count
            },
            None => {
                self.entries.push(Source { ip, since: now, count: 1 });
                1
            },
        }
    }
}

} // verus!
