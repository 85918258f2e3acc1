//! Bounded per-target ping history and windowed statistics.
//!
//! Each target owns an append-only, time-ordered sequence of samples;
//! once the sequence would exceed the store's capacity the oldest samples
//! are evicted from the front. Statistics are computed over a trailing
//! time window chosen by the caller.
use vstd::prelude::*;

verus! {

/// How a latency measurement was obtained: true ICMP echo, or a TCP
/// connect to port 53, 443 or 80 as fallback.
#[derive(Debug, Clone, Copy, PartialEq, Eq, Structural)]
pub enum ProbeMethod {
    Icmp,
    TcpDns,
    TcpHttps,
    TcpHttp,
}

/// One latency measurement. `latency_ms == None` records a probe where
/// every strategy failed. Immutable once created.
#[derive(Debug)]
pub struct PingResult {
    /// Epoch milliseconds at which the probe completed.
    pub timestamp_ms: u64,
    /// Whole milliseconds of measured latency, absent on failure.
    pub latency_ms: Option<u32>,
    /// The probed host or address.
    pub target: String,
    /// The strategy that succeeded, absent on failure.
    pub method: Option<ProbeMethod>,
}

impl Clone for PingResult {
    fn clone(&self) -> (res: Self)
        ensures
            res == *self,
    {
        PingResult {
            timestamp_ms: self.timestamp_ms,
            latency_ms: self.latency_ms,
            target: self.target.clone(),
            method: self.method,
        }
    }
}

/// Windowed statistics over one target's samples. The loss ratio is
/// carried in hundredths of a percent so that one failure out of three
/// computes to 3333 rather than a rounded whole percent.
#[derive(Debug, Clone, PartialEq)]
pub struct PingStatistics {
    pub min_ms: Option<u32>,
    pub max_ms: Option<u32>,
    /// Mean of the successful samples, rounded down.
    pub avg_ms: Option<u64>,
    /// failed / total, in hundredths of a percent; 0 over an empty window.
    pub packet_loss_pct_hundredths: u32,
    pub total_pings: usize,
    pub failed_pings: usize,
}

/// True when the sample falls inside the trailing window that starts
/// strictly after `cutoff_ms` (an `int`, so a window reaching before the
/// epoch admits every sample).
pub open spec fn in_window(p: PingResult, cutoff_ms: int) -> bool {
    p.timestamp_ms > cutoff_ms
}

/// Number of samples inside the window.
pub open spec fn spec_total(s: Seq<PingResult>, cutoff_ms: int) -> nat
    decreases s.len(),
{
    if s.len() == 0 {
        0
    } else {
        (if in_window(s[0], cutoff_ms) {
            1nat
        } else {
            0nat
        }) + spec_total(s.drop_first(), cutoff_ms)
    }
}

/// Number of failed samples inside the window.
pub open spec fn spec_failed(s: Seq<PingResult>, cutoff_ms: int) -> nat
    decreases s.len(),
{
    if s.len() == 0 {
        0
    } else {
        (if in_window(s[0], cutoff_ms) && s[0].latency_ms is None {
            1nat
        } else {
            0nat
        }) + spec_failed(s.drop_first(), cutoff_ms)
    }
}

/// Number of successful samples inside the window.
pub open spec fn spec_succ(s: Seq<PingResult>, cutoff_ms: int) -> nat
    decreases s.len(),
{
    if s.len() == 0 {
        0
    } else {
        (if in_window(s[0], cutoff_ms) && s[0].latency_ms is Some {
            1nat
        } else {
            0nat
        }) + spec_succ(s.drop_first(), cutoff_ms)
    }
}

/// Sum of the measured latencies inside the window.
pub open spec fn spec_sum(s: Seq<PingResult>, cutoff_ms: int) -> int
    decreases s.len(),
{
    if s.len() == 0 {
        0
    } else {
        (if in_window(s[0], cutoff_ms) && s[0].latency_ms is Some {
            s[0].latency_ms->Some_0 as int
        } else {
            0
        }) + spec_sum(s.drop_first(), cutoff_ms)
    }
}

/// Least measured latency inside the window, absent when no sample in the
/// window succeeded.
pub open spec fn spec_min(s: Seq<PingResult>, cutoff_ms: int) -> Option<u32>
    decreases s.len(),
{
    if s.len() == 0 {
        None
    } else {
        let rest = spec_min(s.drop_first(), cutoff_ms);
        if in_window(s[0], cutoff_ms) && s[0].latency_ms is Some {
            let l = s[0].latency_ms->Some_0;
            match rest {
                None => Some(l),
                Some(m) => Some(
                    if l < m {
                        l
                    } else {
                        m
                    },
                ),
            }
        } else {
            rest
        }
    }
}

/// Greatest measured latency inside the window, absent when no sample in
/// the window succeeded.
pub open spec fn spec_max(s: Seq<PingResult>, cutoff_ms: int) -> Option<u32>
    decreases s.len(),
{
    if s.len() == 0 {
        None
    } else {
        let rest = spec_max(s.drop_first(), cutoff_ms);
        if in_window(s[0], cutoff_ms) && s[0].latency_ms is Some {
            let l = s[0].latency_ms->Some_0;
            match rest {
                None => Some(l),
                Some(m) => Some(
                    if l > m {
                        l
                    } else {
                        m
                    },
                ),
            }
        } else {
            rest
        }
    }
}

/// The statistics owed over `s` for the window after `cutoff_ms`: counts
/// over the filtered samples, min/max/avg only over the successful ones
/// (absent if none), loss ratio 0 over an empty window.
pub open spec fn spec_statistics(s: Seq<PingResult>, cutoff_ms: int) -> PingStatistics {
    PingStatistics {
        min_ms: spec_min(s, cutoff_ms),
        max_ms: spec_max(s, cutoff_ms),
        avg_ms: if spec_succ(s, cutoff_ms) == 0 {
            None
        } else {
            Some((spec_sum(s, cutoff_ms) / spec_succ(s, cutoff_ms) as int) as u64)
        },
        packet_loss_pct_hundredths: if spec_total(s, cutoff_ms) == 0 {
            0
        } else {
            (spec_failed(s, cutoff_ms) * 10000 / spec_total(s, cutoff_ms)) as u32
        },
        total_pings: spec_total(s, cutoff_ms) as usize,
        failed_pings: spec_failed(s, cutoff_ms) as usize,
    }
}

/// The last `cap` elements of `s` (all of `s` when it is no longer).
pub open spec fn keep_last<T>(s: Seq<T>, cap: nat) -> Seq<T> {
    if s.len() <= cap {
        s
    } else {
        s.skip(s.len() - cap)
    }
}

/// One bounded append at the sequence level: push to the tail, then evict
/// from the front down to `cap`.
pub open spec fn spec_append1(s: Seq<PingResult>, p: PingResult, cap: nat) -> Seq<PingResult> {
    keep_last(s.push(p), cap)
}

/// All of `ps` appended in order, each step bounded by `cap`.
pub open spec fn spec_append_seq(
    s: Seq<PingResult>,
    ps: Seq<PingResult>,
    cap: nat,
) -> Seq<PingResult>
    decreases ps.len(),
{
    if ps.len() == 0 {
        s
    } else {
        spec_append_seq(spec_append1(s, ps[0], cap), ps.drop_first(), cap)
    }
}

/// One target's samples.
#[derive(Debug)]
pub struct TargetEntry {
    pub target: String,
    pub samples: Vec<PingResult>,
}

impl Clone for TargetEntry {
    fn clone(&self) -> (res: Self)
        ensures
            res.target == self.target,
            res.samples@ == self.samples@,
    {
        let mut samples: Vec<PingResult> = Vec::new();
        let mut i: usize = 0;
        while i < self.samples.len()
            invariant
                0 <= i <= self.samples@.len(),
                samples@ =~= self.samples@.take(i as int),
            decreases self.samples@.len() - i,
        {
            samples.push(self.samples[i].clone());
            proof {
                assert(samples@ =~= self.samples@.take(i + 1 as int));
            }
            i = i + 1;
        }
        proof {
            assert(self.samples@.take(self.samples@.len() as int) =~= self.samples@);
        }
        TargetEntry { target: self.target.clone(), samples }
    }
}

/// The bounded per-target history store. Targets are kept as an
/// association list with unique keys.
#[derive(Debug)]
pub struct HistoryStore {
    pub cap: usize,
    pub entries: Vec<TargetEntry>,
}

impl HistoryStore {
    /// Well-formedness: a positive capacity; unique, plain targets (the
    /// persisted document carries them verbatim); no sequence longer than
    /// the capacity; and every stored sample keyed like its entry.
    pub open spec fn wf(&self) -> bool {
        &&& self.cap >= 1
        &&& forall|i: int, j: int|
            0 <= i < j < self.entries@.len() ==> self.entries@[i].target@
                != self.entries@[j].target@
        &&& forall|i: int|
            0 <= i < self.entries@.len() ==> (#[trigger] self.entries@[i]).samples@.len()
                <= self.cap
        &&& forall|i: int|
            0 <= i < self.entries@.len() ==> crate::codec::plain_str(
                (#[trigger] self.entries@[i]).target@,
            )
        &&& forall|i: int, j: int|
            0 <= i < self.entries@.len() && 0 <= j < self.entries@[i].samples@.len() ==> (
            #[trigger] self.entries@[i].samples@[j]).target@ == self.entries@[i].target@
    }

    /// The samples stored for `target`, if it is known.
    pub open spec fn spec_find(&self, target: Seq<char>) -> Option<Seq<PingResult>> {
        Self::spec_find_in(self.entries@, target)
    }

    pub open spec fn spec_find_in(entries: Seq<TargetEntry>, target: Seq<char>) -> Option<
        Seq<PingResult>,
    >
        decreases entries.len(),
    {
        if entries.len() == 0 {
            None
        } else if entries[0].target@ == target {
            Some(entries[0].samples@)
        } else {
            Self::spec_find_in(entries.drop_first(), target)
        }
    }

    /// An empty store with capacity `cap`.
    pub fn new(cap: usize) -> (r: HistoryStore)
        requires
            cap >= 1,
        ensures
            r.wf(),
            r.cap == cap,
            r.entries@.len() == 0,
            forall|t: Seq<char>| r.spec_find(t) is None,
    {
        HistoryStore { cap, entries: Vec::new() }
    }

    /// Index of the entry holding `target`, if any.
    fn find_index(&self, target: &String) -> (r: Option<usize>)
        ensures
            match r {
                Some(i) => {
                    &&& i < self.entries@.len()
                    &&& self.entries@[i as int].target@ == target@
                    &&& self.spec_find(target@) == Some(self.entries@[i as int].samples@)
                },
                None => self.spec_find(target@) is None,
            },
    {
        proof {
            assert(self.entries@.skip(0) =~= self.entries@);
        }
        let mut i: usize = 0;
        while i < self.entries.len()
            invariant
                0 <= i <= self.entries@.len(),
                forall|k: int| 0 <= k < i ==> self.entries@[k].target@ != target@,
                Self::spec_find_in(self.entries@.skip(i as int), target@) == self.spec_find(
                    target@,
                ),
            decreases self.entries@.len() - i,
        {
            if self.entries[i].target == *target {
                proof {
                    assert(self.entries@.skip(i as int)[0] == self.entries@[i as int]);
                }
                return Some(i);
            }
            proof {
                assert(self.entries@.skip(i as int).drop_first() =~= self.entries@.skip(
                    i + 1 as int,
                ));
            }
            i = i + 1;
        }
        None
    }

    /// Adds an empty entry for `target` if none exists yet; otherwise
    /// leaves the store unchanged. The target must be plain: the
    /// persisted document carries it verbatim.
    pub fn ensure_target(&mut self, target: &String)
        requires
            old(self).wf(),
            crate::codec::plain_str(target@),
        ensures
            final(self).wf(),
            final(self).cap == old(self).cap,
            old(self).spec_find(target@) is Some ==> *final(self) == *old(self),
            old(self).spec_find(target@) is None ==> final(self).spec_find(target@) == Some(
                Seq::<PingResult>::empty(),
            ),
            forall|t: Seq<char>|
                t != target@ ==> final(self).spec_find(t) == old(self).spec_find(t),
    {
        if self.find_index(target).is_none() {
            let entry = TargetEntry { target: target.clone(), samples: Vec::new() };
            proof {
                Self::lemma_absent_when_find_none(self.entries@, target@);
                Self::lemma_find_push(self.entries@, entry, target@);
                assert forall|t: Seq<char>| t != target@ implies Self::spec_find_in(
                    self.entries@.push(entry),
                    t,
                ) == old(self).spec_find(t) by {
                    Self::lemma_find_push(self.entries@, entry, t);
                }
            }
            self.entries.push(entry);
        }
    }

    /// Drops `target`'s entry, if present.
    pub fn remove_target(&mut self, target: &String)
        requires
            old(self).wf(),
        ensures
            final(self).wf(),
            final(self).cap == old(self).cap,
            final(self).spec_find(target@) is None,
            forall|t: Seq<char>|
                t != target@ ==> final(self).spec_find(t) == old(self).spec_find(t),
    {
        match self.find_index(target) {
            Some(i) => {
                proof {
                    Self::lemma_find_remove(self.entries@, i as int, target@);
                    assert forall|t: Seq<char>| t != target@ implies Self::spec_find_in(
                        self.entries@.remove(i as int),
                        t,
                    ) == old(self).spec_find(t) by {
                        Self::lemma_find_remove_other(self.entries@, i as int, target@, t);
                    }
                }
                self.entries.remove(i);
            },
            None => {},
        }
    }

    /// Appends one sample to `target`'s sequence (creating the entry if
    /// needed), evicting from the front so the bound `cap` holds. The
    /// target must be plain and the sample keyed by it, as the original
    /// measurements are built.
    pub fn append(&mut self, target: &String, sample: PingResult)
        requires
            old(self).wf(),
            crate::codec::plain_str(target@),
            sample.target@ == target@,
        ensures
            final(self).wf(),
            final(self).cap == old(self).cap,
            final(self).spec_find(target@) == Some(
                spec_append1(
                    match old(self).spec_find(target@) {
                        Some(s) => s,
                        None => Seq::<PingResult>::empty(),
                    },
                    sample,
                    old(self).cap as nat,
                ),
            ),
            forall|t: Seq<char>|
                t != target@ ==> final(self).spec_find(t) == old(self).spec_find(t),
    {
        self.ensure_target(target);
        let i = match self.find_index(target) {
            Some(i) => i,
            None => {
                proof {
                    assert(false);
                }
                0
            },
        };
        let ghost mid = *self;
        let ghost old_samples = self.entries@[i as int].samples@;
        let mut entry = self.entries.remove(i);
        entry.samples.push(sample);
        if entry.samples.len() > self.cap {
            entry.samples.remove(0);
        }
        proof {
            assert(entry.samples@ =~= spec_append1(old_samples, sample, old(self).cap as nat));
        }
        let ghost new_entry = entry;
        self.entries.insert(i, entry);
        proof {
            assert(self.entries@ =~= mid.entries@.update(i as int, new_entry));
            Self::lemma_find_update(mid.entries@, i as int, new_entry, target@);
            assert forall|t: Seq<char>| t != target@ implies Self::spec_find_in(
                mid.entries@.update(i as int, new_entry),
                t,
            ) == mid.spec_find(t) by {
                Self::lemma_find_update_other(mid.entries@, i as int, new_entry, target@, t);
            }
        }
    }

    /// The samples stored for `target`, copied out; empty when unknown.
    pub fn samples_of(&self, target: &String) -> (r: Vec<PingResult>)
        ensures
            r@ == match self.spec_find(target@) {
                Some(s) => s,
                None => Seq::<PingResult>::empty(),
            },
    {
        match self.find_index(target) {
            Some(i) => {
                let samples = &self.entries[i].samples;
                let mut out: Vec<PingResult> = Vec::new();
                let mut j: usize = 0;
                while j < samples.len()
                    invariant
                        0 <= j <= samples@.len(),
                        out@ =~= samples@.take(j as int),
                    decreases samples@.len() - j,
                {
                    out.push(samples[j].clone());
                    proof {
                        assert(out@ =~= samples@.take(j + 1 as int));
                    }
                    j = j + 1;
                }
                proof {
                    assert(samples@.take(samples@.len() as int) =~= samples@);
                }
                out
            },
            None => Vec::new(),
        }
    }

    /// The most recent sample for `target`, if any.
    pub fn latest_of(&self, target: &String) -> (r: Option<PingResult>)
        ensures
            r == match self.spec_find(target@) {
                Some(s) => if s.len() == 0 {
                    None::<PingResult>
                } else {
                    Some(s.last())
                },
                None => None::<PingResult>,
            },
    {
        match self.find_index(target) {
            Some(i) => {
                let samples = &self.entries[i].samples;
                if samples.len() == 0 {
                    None
                } else {
                    Some(samples[samples.len() - 1].clone())
                }
            },
            None => None,
        }
    }

    /// Windowed statistics for `target`: the window is the trailing
    /// `window_minutes` minutes before `now_ms`. An unknown target is an
    /// empty window.
    pub fn stats(&self, target: &String, now_ms: u64, window_minutes: u32) -> (r: PingStatistics)
        ensures
            r == spec_statistics(
                match self.spec_find(target@) {
                    Some(s) => s,
                    None => Seq::<PingResult>::empty(),
                },
                now_ms - window_minutes * 60_000,
            ),
    {
        let samples = self.samples_of(target);
        compute_statistics(&samples, now_ms, window_minutes)
    }

    pub(crate) proof fn lemma_find_push(entries: Seq<TargetEntry>, e: TargetEntry, t: Seq<char>)
        ensures
            Self::spec_find_in(entries.push(e), t) == if Self::spec_find_in(entries, t) is Some {
                Self::spec_find_in(entries, t)
            } else if e.target@ == t {
                Some(e.samples@)
            } else {
                None
            },
        decreases entries.len(),
    {
        if entries.len() == 0 {
            assert(entries.push(e)[0] == e);
            assert(entries.push(e).drop_first() =~= Seq::<TargetEntry>::empty());
        } else {
            assert(entries.push(e).drop_first() =~= entries.drop_first().push(e));
            Self::lemma_find_push(entries.drop_first(), e, t);
        }
    }

    proof fn lemma_find_remove(entries: Seq<TargetEntry>, i: int, t: Seq<char>)
        requires
            0 <= i < entries.len(),
            entries[i].target@ == t,
            forall|a: int, b: int|
                0 <= a < b < entries.len() ==> entries[a].target@ != entries[b].target@,
        ensures
            Self::spec_find_in(entries.remove(i), t) is None,
        decreases entries.len(),
    {
        if i == 0 {
            assert(entries.remove(0) =~= entries.drop_first());
            Self::lemma_find_none_when_absent(entries.drop_first(), t);
        } else {
            assert(entries.remove(i).drop_first() =~= entries.drop_first().remove(i - 1));
            Self::lemma_find_remove(entries.drop_first(), i - 1, t);
        }
    }

    pub(crate) proof fn lemma_absent_when_find_none(entries: Seq<TargetEntry>, t: Seq<char>)
        requires
            Self::spec_find_in(entries, t) is None,
        ensures
            forall|a: int| 0 <= a < entries.len() ==> (#[trigger] entries[a]).target@ != t,
        decreases entries.len(),
    {
        if entries.len() > 0 {
            Self::lemma_absent_when_find_none(entries.drop_first(), t);
            assert forall|a: int| 0 <= a < entries.len() implies (#[trigger] entries[a]).target@
                != t by {
                if a > 0 {
                    assert(entries.drop_first()[a - 1] == entries[a]);
                }
            }
        }
    }

    pub(crate) proof fn lemma_find_none_when_absent(entries: Seq<TargetEntry>, t: Seq<char>)
        requires
            forall|a: int| 0 <= a < entries.len() ==> (#[trigger] entries[a]).target@ != t,
        ensures
            Self::spec_find_in(entries, t) is None,
        decreases entries.len(),
    {
        if entries.len() > 0 {
            Self::lemma_find_none_when_absent(entries.drop_first(), t);
        }
    }

    proof fn lemma_find_remove_other(entries: Seq<TargetEntry>, i: int, t: Seq<char>, u: Seq<char>)
        requires
            0 <= i < entries.len(),
            entries[i].target@ == t,
            u != t,
        ensures
            Self::spec_find_in(entries.remove(i), u) == Self::spec_find_in(entries, u),
        decreases entries.len(),
    {
        if i == 0 {
            assert(entries.remove(0) =~= entries.drop_first());
        } else {
            assert(entries.remove(i)[0] == entries[0]);
            assert(entries.remove(i).drop_first() =~= entries.drop_first().remove(i - 1));
            Self::lemma_find_remove_other(entries.drop_first(), i - 1, t, u);
        }
    }

    proof fn lemma_find_update(entries: Seq<TargetEntry>, i: int, e: TargetEntry, t: Seq<char>)
        requires
            0 <= i < entries.len(),
            entries[i].target@ == t,
            e.target@ == t,
            forall|a: int, b: int|
                0 <= a < b < entries.len() ==> entries[a].target@ != entries[b].target@,
        ensures
            Self::spec_find_in(entries.update(i, e), t) == Some(e.samples@),
        decreases entries.len(),
    {
        if i == 0 {
        } else {
            assert(entries.update(i, e)[0] == entries[0]);
            assert(entries.update(i, e).drop_first() =~= entries.drop_first().update(i - 1, e));
            Self::lemma_find_update(entries.drop_first(), i - 1, e, t);
        }
    }

    proof fn lemma_find_update_other(
        entries: Seq<TargetEntry>,
        i: int,
        e: TargetEntry,
        t: Seq<char>,
        u: Seq<char>,
    )
        requires
            0 <= i < entries.len(),
            entries[i].target@ == t,
            e.target@ == t,
            u != t,
        ensures
            Self::spec_find_in(entries.update(i, e), u) == Self::spec_find_in(entries, u),
        decreases entries.len(),
    {
        if i == 0 {
            assert(entries.update(0, e).drop_first() =~= entries.drop_first());
        } else {
            assert(entries.update(i, e)[0] == entries[0]);
            assert(entries.update(i, e).drop_first() =~= entries.drop_first().update(i - 1, e));
            Self::lemma_find_update_other(entries.drop_first(), i - 1, e, t, u);
        }
    }
}

/// Law: a bounded append never leaves a sequence longer than the
/// capacity, and it preserves every sample it keeps in order.
pub proof fn lemma_append1_bounded(s: Seq<PingResult>, p: PingResult, cap: nat)
    requires
        cap >= 1,
        s.len() <= cap,
    ensures
        spec_append1(s, p, cap).len() <= cap,
        spec_append1(s, p, cap).len() == if s.len() < cap {
            s.len() + 1
        } else {
            cap
        },
{
}

/// Appending a run of samples one by one, each step bounded, keeps
/// exactly the last `cap` elements of the whole concatenation.
pub proof fn lemma_append_seq_keeps_last(s: Seq<PingResult>, ps: Seq<PingResult>, cap: nat)
    requires
        cap >= 1,
        s.len() <= cap,
    ensures
        spec_append_seq(s, ps, cap) == keep_last(s + ps, cap),
        spec_append_seq(s, ps, cap).len() <= cap,
    decreases ps.len(),
{
    if ps.len() == 0 {
        assert(s + ps =~= s);
    } else {
        let p0 = ps[0];
        let rest = ps.drop_first();
        let a1 = spec_append1(s, p0, cap);
        lemma_append_seq_keeps_last(a1, rest, cap);
        if s.len() < cap {
            assert(a1 =~= s.push(p0));
            assert(a1 + rest =~= s + ps);
        } else {
            assert(a1 + rest =~= (s + ps).skip(1));
            assert(keep_last((s + ps).skip(1), cap) =~= keep_last(s + ps, cap));
        }
    }
}

/// Law: appending `N >= cap` samples to any well-formed start retains
/// exactly the most recent `cap` of them, in their original order.
pub proof fn lemma_append_seq_retains_recent(s: Seq<PingResult>, ps: Seq<PingResult>, cap: nat)
    requires
        cap >= 1,
        s.len() <= cap,
        ps.len() >= cap,
    ensures
        spec_append_seq(s, ps, cap) == ps.skip(ps.len() - cap),
{
    lemma_append_seq_keeps_last(s, ps, cap);
    assert(keep_last(s + ps, cap) =~= ps.skip(ps.len() - cap));
}

/// Statistics over `samples` for the trailing window of `window_minutes`
/// minutes before `now_ms`.
pub fn compute_statistics(samples: &Vec<PingResult>, now_ms: u64, window_minutes: u32) -> (r:
    PingStatistics)
    ensures
        r == spec_statistics(samples@, now_ms - window_minutes * 60_000),
{
    let ghost cutoff: int = now_ms - window_minutes * 60_000;
    let window_ms: u64 = (window_minutes as u64) * 60_000;
    let mut total: usize = 0;
    let mut failed: usize = 0;
    let mut succ: usize = 0;
    let mut sum: u128 = 0;
    let mut min: Option<u32> = None;
    let mut max: Option<u32> = None;
    let mut i: usize = 0;
    while i < samples.len()
        invariant
            0 <= i <= samples@.len(),
            window_ms == window_minutes * 60_000,
            cutoff == now_ms - window_ms,
            total == spec_total(samples@.take(i as int), cutoff),
            failed == spec_failed(samples@.take(i as int), cutoff),
            succ == spec_succ(samples@.take(i as int), cutoff),
            sum == spec_sum(samples@.take(i as int), cutoff),
            min == spec_min(samples@.take(i as int), cutoff),
            max == spec_max(samples@.take(i as int), cutoff),
        decreases samples@.len() - i,
    {
        proof {
            lemma_stats_take_step(samples@, cutoff, i as int);
            lemma_stats_bounds(samples@.take(i + 1 as int), cutoff);
            assert(spec_sum(samples@.take(i + 1 as int), cutoff) <= (i + 1) * 0xffff_ffff);
            assert((i + 1) * 0xffff_ffff <= 0x1_0000_0000_0000_0000 * 0xffff_ffff)
                by (nonlinear_arith)
                requires
                    0 <= i,
                    i + 1 <= 0x1_0000_0000_0000_0000,
            ;
        }
        let p = &samples[i];
        let in_w = if window_ms > now_ms {
            true
        } else {
            p.timestamp_ms > now_ms - window_ms
        };
        if in_w {
            total = total + 1;
            match p.latency_ms {
                None => {
                    failed = failed + 1;
                },
                Some(l) => {
                    succ = succ + 1;
                    sum = sum + l as u128;
                    min = match min {
                        None => Some(l),
                        Some(m) => Some(
                            if l < m {
                                l
                            } else {
                                m
                            },
                        ),
                    };
                    max = match max {
                        None => Some(l),
                        Some(m) => Some(
                            if l > m {
                                l
                            } else {
                                m
                            },
                        ),
                    };
                },
            }
        }
        i = i + 1;
    }
    proof {
        assert(samples@.take(samples@.len() as int) =~= samples@);
        lemma_stats_bounds(samples@, cutoff);
        if spec_succ(samples@, cutoff) > 0 {
            assert(spec_sum(samples@, cutoff) / (spec_succ(samples@, cutoff) as int)
                <= 0xffff_ffff) by (nonlinear_arith)
                requires
                    spec_sum(samples@, cutoff) <= spec_succ(samples@, cutoff) * 0xffff_ffff,
                    spec_succ(samples@, cutoff) >= 1,
            ;
        }
        if spec_total(samples@, cutoff) > 0 {
            assert(spec_failed(samples@, cutoff) * 10000 / spec_total(samples@, cutoff)
                <= 10000) by (nonlinear_arith)
                requires
                    spec_failed(samples@, cutoff) <= spec_total(samples@, cutoff),
                    spec_total(samples@, cutoff) >= 1,
            ;
        }
    }
    let avg_ms: Option<u64> = if succ == 0 {
        None
    } else {
        Some((sum / (succ as u128)) as u64)
    };
    let packet_loss_pct_hundredths: u32 = if total == 0 {
        0
    } else {
        (((failed as u128) * 10000) / (total as u128)) as u32
    };
    PingStatistics {
        min_ms: min,
        max_ms: max,
        avg_ms,
        packet_loss_pct_hundredths,
        total_pings: total,
        failed_pings: failed,
    }
}

/// Counters never exceed the sequence length, the failed and successful
/// counts partition the total, and the sum is bounded by the length times
/// the largest latency.
proof fn lemma_stats_bounds(s: Seq<PingResult>, cutoff: int)
    ensures
        spec_total(s, cutoff) <= s.len(),
        spec_failed(s, cutoff) <= spec_total(s, cutoff),
        spec_succ(s, cutoff) <= spec_total(s, cutoff),
        spec_failed(s, cutoff) + spec_succ(s, cutoff) == spec_total(s, cutoff),
        0 <= spec_sum(s, cutoff),
        spec_sum(s, cutoff) <= spec_succ(s, cutoff) * 0xffff_ffff,
        spec_sum(s, cutoff) <= s.len() * 0xffff_ffff,
    decreases s.len(),
{
    if s.len() > 0 {
        lemma_stats_bounds(s.drop_first(), cutoff);
        let rest_succ = spec_succ(s.drop_first(), cutoff) as int;
        let rest_len = s.drop_first().len() as int;
        assert((rest_succ + 1) * 0xffff_ffff == rest_succ * 0xffff_ffff + 0xffff_ffff)
            by (nonlinear_arith);
        assert((rest_len + 1) * 0xffff_ffff == rest_len * 0xffff_ffff + 0xffff_ffff)
            by (nonlinear_arith);
        assert(rest_succ * 0xffff_ffff <= rest_len * 0xffff_ffff) by (nonlinear_arith)
            requires
                rest_succ <= rest_len,
        ;
    }
}

/// Extending the processed prefix by one element advances every counter
/// by that element's contribution.
proof fn lemma_stats_take_step(s: Seq<PingResult>, cutoff: int, i: int)
    requires
        0 <= i < s.len(),
    ensures
        spec_total(s.take(i + 1), cutoff) == spec_total(s.take(i), cutoff) + (if in_window(
            s[i],
            cutoff,
        ) {
            1int
        } else {
            0int
        }),
        spec_failed(s.take(i + 1), cutoff) == spec_failed(s.take(i), cutoff) + (if in_window(
            s[i],
            cutoff,
        ) && s[i].latency_ms is None {
            1int
        } else {
            0int
        }),
        spec_succ(s.take(i + 1), cutoff) == spec_succ(s.take(i), cutoff) + (if in_window(
            s[i],
            cutoff,
        ) && s[i].latency_ms is Some {
            1int
        } else {
            0int
        }),
        spec_sum(s.take(i + 1), cutoff) == spec_sum(s.take(i), cutoff) + (if in_window(s[i], cutoff)
            && s[i].latency_ms is Some {
            s[i].latency_ms->Some_0 as int
        } else {
            0int
        }),
        spec_min(s.take(i + 1), cutoff) == (if in_window(s[i], cutoff) && s[i].latency_ms is Some {
            match spec_min(s.take(i), cutoff) {
                None => Some(s[i].latency_ms->Some_0),
                Some(m) => Some(
                    if s[i].latency_ms->Some_0 < m {
                        s[i].latency_ms->Some_0
                    } else {
                        m
                    },
                ),
            }
        } else {
            spec_min(s.take(i), cutoff)
        }),
        spec_max(s.take(i + 1), cutoff) == (if in_window(s[i], cutoff) && s[i].latency_ms is Some {
            match spec_max(s.take(i), cutoff) {
                None => Some(s[i].latency_ms->Some_0),
                Some(m) => Some(
                    if s[i].latency_ms->Some_0 > m {
                        s[i].latency_ms->Some_0
                    } else {
                        m
                    },
                ),
            }
        } else {
            spec_max(s.take(i), cutoff)
        }),
{
    lemma_stats_snoc(s.take(i + 1), cutoff);
    assert(s.take(i + 1).drop_last() =~= s.take(i));
    assert(s.take(i + 1).last() == s[i]);
}

/// Peeling the last element off a non-empty sequence.
proof fn lemma_stats_snoc(s: Seq<PingResult>, cutoff: int)
    requires
        s.len() > 0,
    ensures
        spec_total(s, cutoff) == spec_total(s.drop_last(), cutoff) + (if in_window(
            s.last(),
            cutoff,
        ) {
            1int
        } else {
            0int
        }),
        spec_failed(s, cutoff) == spec_failed(s.drop_last(), cutoff) + (if in_window(
            s.last(),
            cutoff,
        ) && s.last().latency_ms is None {
            1int
        } else {
            0int
        }),
        spec_succ(s, cutoff) == spec_succ(s.drop_last(), cutoff) + (if in_window(s.last(), cutoff)
            && s.last().latency_ms is Some {
            1int
        } else {
            0int
        }),
        spec_sum(s, cutoff) == spec_sum(s.drop_last(), cutoff) + (if in_window(s.last(), cutoff)
            && s.last().latency_ms is Some {
            s.last().latency_ms->Some_0 as int
        } else {
            0int
        }),
        spec_min(s, cutoff) == (if in_window(s.last(), cutoff) && s.last().latency_ms is Some {
            match spec_min(s.drop_last(), cutoff) {
                None => Some(s.last().latency_ms->Some_0),
                Some(m) => Some(
                    if s.last().latency_ms->Some_0 < m {
                        s.last().latency_ms->Some_0
                    } else {
                        m
                    },
                ),
            }
        } else {
            spec_min(s.drop_last(), cutoff)
        }),
        spec_max(s, cutoff) == (if in_window(s.last(), cutoff) && s.last().latency_ms is Some {
            match spec_max(s.drop_last(), cutoff) {
                None => Some(s.last().latency_ms->Some_0),
                Some(m) => Some(
                    if s.last().latency_ms->Some_0 > m {
                        s.last().latency_ms->Some_0
                    } else {
                        m
                    },
                ),
            }
        } else {
            spec_max(s.drop_last(), cutoff)
        }),
    decreases s.len(),
{
    if s.len() == 1 {
        assert(s.drop_last() =~= Seq::<PingResult>::empty());
        assert(s.drop_first() =~= Seq::<PingResult>::empty());
    } else {
        lemma_stats_snoc(s.drop_first(), cutoff);
        assert(s.drop_first().drop_last() =~= s.drop_last().drop_first());
        assert(s.drop_first().last() == s.last());
        assert(s.drop_last()[0] == s[0]);
    }
}

} // verus!
