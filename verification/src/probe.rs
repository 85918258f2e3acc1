//! Probe engine decisions: the fixed fallback chain of latency probe
//! strategies and the first-success rule. The sockets themselves live
//! outside; they report each attempt's outcome back to this state machine.
use vstd::prelude::*;
use crate::history::{PingResult, ProbeMethod};
use crate::strutil::{digit_run, digits_value, has_prefix, is_digit, string_to_chars,
    char_to_digit};

verus! {

/// The marker before the round-trip time in the system ping's output.
pub open spec fn time_marker() -> Seq<char> {
    seq!['t', 'i', 'm', 'e', '=']
}

/// Index of the first occurrence of the marker, if any.
pub open spec fn spec_find_marker(s: Seq<char>) -> Option<int>
    decreases s.len(),
{
    if s.len() < time_marker().len() {
        None
    } else if has_prefix(s, time_marker()) {
        Some(0)
    } else {
        match spec_find_marker(s.drop_first()) {
            Some(i) => Some(i + 1),
            None => None,
        }
    }
}

/// The unit that must follow the measured number.
pub open spec fn ms_suffix() -> Seq<char> {
    seq![' ', 'm', 's']
}

/// The whole milliseconds the system ping reported: after the first
/// "time=" marker, a number — digits, optionally '.' and more digits —
/// must be followed by " ms"; the value is the integer part (the
/// fraction is truncated). Anything else, a missing marker, or a value
/// that does not fit is nothing.
pub open spec fn spec_ping_time_ms(s: Seq<char>) -> Option<u32> {
    match spec_find_marker(s) {
        None => None,
        Some(i) => {
            let after = s.skip(i + time_marker().len());
            let k = digit_run(after);
            let j = if k < after.len() && after[k] == '.' {
                k + 1 + digit_run(after.skip(k + 1))
            } else {
                k
            };
            if k == 0 || digits_value(after.take(k)) > u32::MAX || !has_prefix(
                after.skip(j),
                ms_suffix(),
            ) {
                None
            } else {
                Some(digits_value(after.take(k)) as u32)
            }
        },
    }
}

/// Reads the measured time out of one line of the system ping's output,
/// truncated to whole milliseconds.
#[verifier::rlimit(100)]
pub fn parse_ping_time_ms(output: &str) -> (r: Option<u32>)
    ensures
        r == spec_ping_time_ms(output@),
{
    let chars = string_to_chars(output);
    let n = chars.len();
    proof {
        assert(chars@.skip(0) =~= chars@);
    }
    let mut i: usize = 0;
    let mut found: Option<usize> = None;
    while found.is_none() && n >= 5 && i <= n - 5
        invariant
            0 <= i <= chars@.len(),
            n == chars@.len(),
            chars@ == output@,
            match found {
                Some(at) => at + 5 <= n && spec_find_marker(chars@) == Some(at as int),
                None => spec_find_marker(chars@) == match spec_find_marker(
                    chars@.skip(i as int),
                ) {
                    Some(j) => Some(j + i),
                    None => None::<int>,
                },
            },
        decreases chars@.len() - i + (if found is None {
            1int
        } else {
            0int
        }),
    {
        if chars[i] == 't' && chars[i + 1] == 'i' && chars[i + 2] == 'm' && chars[i + 3] == 'e'
            && chars[i + 4] == '=' {
            proof {
                assert(chars@.skip(i as int).take(5) =~= time_marker());
            }
            found = Some(i);
        } else {
            proof {
                if has_prefix(chars@.skip(i as int), time_marker()) {
                    assert(chars@.skip(i as int).take(5)[0] == chars@[i as int]);
                    assert(chars@.skip(i as int).take(5)[1] == chars@[i + 1]);
                    assert(chars@.skip(i as int).take(5)[2] == chars@[i + 2]);
                    assert(chars@.skip(i as int).take(5)[3] == chars@[i + 3]);
                    assert(chars@.skip(i as int).take(5)[4] == chars@[i + 4]);
                    assert(false);
                }
                assert(chars@.skip(i as int).drop_first() =~= chars@.skip(i + 1 as int));
            }
            i = i + 1;
        }
    }
    proof {
        if found is None {
            lemma_marker_none_when_short(chars@.skip(i as int));
        }
    }
    match found {
        None => None,
        Some(at) => {
            let start = at + 5;
            let ghost after = chars@.skip(start as int);
            proof {
                assert(after =~= chars@.skip(at as int).skip(5));
                assert(chars@.skip(at as int).skip(5) =~= chars@.skip(start as int));
                assert(after.skip(0) =~= after);
                crate::strutil::lemma_digit_run(after);
            }
            let mut j: usize = start;
            let mut value: u64 = 0;
            while j < n
                invariant
                    start <= j <= chars@.len(),
                    n == chars@.len(),
                    after == chars@.skip(start as int),
                    forall|k: int| 0 <= k < j - start ==> is_digit(#[trigger] after[k]),
                    digit_run(after) == (j - start) + digit_run(after.skip(j - start as int)),
                    value == digits_value(after.take(j - start as int)),
                    value <= 0xffff_ffff,
                decreases chars@.len() - j,
            {
                let c = chars[j];
                proof {
                    assert(after[j - start as int] == chars@[j as int]);
                    assert(after.skip(j - start as int)[0] == after[j - start as int]);
                    assert(after.skip(j - start as int).drop_first() =~= after.skip(
                        j + 1 - start as int,
                    ));
                }
                match char_to_digit(c) {
                    None => {
                        break ;
                    },
                    Some(d) => {
                        proof {
                            assert(after.take(j + 1 - start as int).drop_last() =~= after.take(
                                j - start as int,
                            ));
                            assert(after.take(j + 1 - start as int).last() == after[j
                                - start as int]);
                        }
                        let next = value * 10 + d;
                        if next > 0xffff_ffff {
                            proof {
                                let k = digit_run(after);
                                assert(k >= j + 1 - start);
                                assert(after.take(k).take(j + 1 - start as int) =~= after.take(
                                    j + 1 - start as int,
                                ));
                                crate::strutil::lemma_digits_value_monotonic(
                                    after.take(k),
                                    j + 1 - start as int,
                                );
                            }
                            return None;
                        }
                        value = next;
                        j = j + 1;
                    },
                }
            }
            proof {
                if j < chars@.len() {
                    assert(!is_digit(after[j - start as int]));
                    assert(digit_run(after.skip(j - start as int)) == 0);
                } else {
                    assert(after.skip(j - start as int).len() == 0);
                }
                assert(digit_run(after) == j - start);
            }
            if j == start {
                return None;
            }
            let ghost run: int = j - start;
            let mut fin: usize = j;
            if j < n && chars[j] == '.' {
                proof {
                    assert(after[run] == chars@[j as int]);
                }
                let ghost frac = after.skip(run + 1);
                proof {
                    assert(frac =~= chars@.skip(j + 1 as int));
                    assert(frac.skip(0) =~= frac);
                    crate::strutil::lemma_digit_run(frac);
                }
                let mut f: usize = j + 1;
                while f < n
                    invariant
                        j + 1 <= f <= chars@.len(),
                        n == chars@.len(),
                        frac == chars@.skip(j + 1 as int),
                        digit_run(frac) == (f - (j + 1)) + digit_run(frac.skip(f - (j + 1) as int)),
                    decreases chars@.len() - f,
                {
                    proof {
                        assert(frac[f - (j + 1) as int] == chars@[f as int]);
                        assert(frac.skip(f - (j + 1) as int)[0] == frac[f - (j + 1) as int]);
                        assert(frac.skip(f - (j + 1) as int).drop_first() =~= frac.skip(
                            f - j as int,
                        ));
                    }
                    if char_to_digit(chars[f]).is_none() {
                        break ;
                    }
                    f = f + 1;
                }
                proof {
                    if f < chars@.len() {
                        assert(!is_digit(frac[f - (j + 1) as int]));
                        assert(digit_run(frac.skip(f - (j + 1) as int)) == 0);
                    } else {
                        assert(frac.skip(f - (j + 1) as int).len() == 0);
                    }
                    assert(digit_run(frac) == f - (j + 1));
                }
                fin = f;
            } else {
                proof {
                    if run < after.len() {
                        assert(after[run] == chars@[j as int]);
                    }
                }
            }
            let ghost jj: int = fin - start;
            proof {
                assert(after.skip(jj) =~= chars@.skip(fin as int));
            }
            let ok = n >= 3 && fin <= n - 3 && chars[fin] == ' ' && chars[fin + 1] == 'm'
                && chars[fin + 2] == 's';
            proof {
                if ok {
                    assert(after.skip(jj).take(3) =~= ms_suffix());
                } else if has_prefix(after.skip(jj), ms_suffix()) {
                    assert(after.skip(jj).take(3)[0] == chars@[fin as int]);
                    assert(after.skip(jj).take(3)[1] == chars@[fin + 1]);
                    assert(after.skip(jj).take(3)[2] == chars@[fin + 2]);
                    assert(false);
                }
            }
            if ok {
                Some(value as u32)
            } else {
                None
            }
        },
    }
}

proof fn lemma_marker_none_when_short(s: Seq<char>)
    requires
        s.len() < 5,
    ensures
        spec_find_marker(s) is None,
    decreases s.len(),
{
    if s.len() > 0 {
        lemma_marker_none_when_short(s.drop_first());
    }
}

/// Number of strategies in the fallback chain.
pub const PROBE_CHAIN_LEN: usize = 4;

/// The fixed strategy order: true ICMP first, then TCP connects to the
/// DNS, HTTPS and HTTP ports — the ports most likely open on common
/// target types.
pub open spec fn spec_method_order() -> Seq<ProbeMethod> {
    seq![ProbeMethod::Icmp, ProbeMethod::TcpDns, ProbeMethod::TcpHttps, ProbeMethod::TcpHttp]
}

/// The strategy tried at position `i` of the chain.
pub fn method_at(i: usize) -> (r: ProbeMethod)
    requires
        i < PROBE_CHAIN_LEN,
    ensures
        r == spec_method_order()[i as int],
{
    match i {
        0 => ProbeMethod::Icmp,
        1 => ProbeMethod::TcpDns,
        2 => ProbeMethod::TcpHttps,
        _ => ProbeMethod::TcpHttp,
    }
}

/// The TCP port a strategy connects to; the ICMP strategy uses none.
pub fn probe_port(m: ProbeMethod) -> (r: Option<u16>)
    ensures
        r == match m {
            ProbeMethod::Icmp => None::<u16>,
            ProbeMethod::TcpDns => Some(53u16),
            ProbeMethod::TcpHttps => Some(443u16),
            ProbeMethod::TcpHttp => Some(80u16),
        },
{
    match m {
        ProbeMethod::Icmp => None,
        ProbeMethod::TcpDns => Some(53),
        ProbeMethod::TcpHttps => Some(443),
        ProbeMethod::TcpHttp => Some(80),
    }
}

/// The overall timeout of a strategy in milliseconds: 3 s for the ICMP
/// attempt (2 s inner send/receive budget), 2 s for each TCP connect.
pub fn probe_timeout_ms(m: ProbeMethod) -> (r: u64)
    ensures
        r == match m {
            ProbeMethod::Icmp => 3000u64,
            ProbeMethod::TcpDns => 2000u64,
            ProbeMethod::TcpHttps => 2000u64,
            ProbeMethod::TcpHttp => 2000u64,
        },
{
    match m {
        ProbeMethod::Icmp => 3000,
        ProbeMethod::TcpDns => 2000,
        ProbeMethod::TcpHttps => 2000,
        ProbeMethod::TcpHttp => 2000,
    }
}

/// The first successful outcome of the chain, with the position that
/// produced it.
pub open spec fn spec_first_success(outcomes: Seq<Option<u32>>) -> Option<(nat, u32)>
    decreases outcomes.len(),
{
    if outcomes.len() == 0 {
        None
    } else {
        match outcomes[0] {
            Some(l) => Some((0nat, l)),
            None => match spec_first_success(outcomes.drop_first()) {
                Some((i, l)) => Some(((i + 1) as nat, l)),
                None => None,
            },
        }
    }
}

/// One in-flight probe of a single target: how many strategies were
/// tried and the first success, if any.
#[derive(Debug, Clone, Copy)]
pub struct ProbeState {
    pub tried: usize,
    pub outcome: Option<(u32, ProbeMethod)>,
}

impl ProbeState {
    pub open spec fn wf(&self) -> bool {
        self.tried <= PROBE_CHAIN_LEN
    }

    /// A fresh probe: nothing tried, nothing measured.
    pub fn start() -> (r: ProbeState)
        ensures
            r.wf(),
            r.tried == 0,
            r.outcome is None,
    {
        ProbeState { tried: 0, outcome: None }
    }

    /// The next strategy to attempt, or nothing when the probe is over
    /// (a success was measured, or every strategy failed).
    pub fn pending(&self) -> (r: Option<ProbeMethod>)
        requires
            self.wf(),
        ensures
            r == if self.outcome is None && self.tried < PROBE_CHAIN_LEN {
                Some(spec_method_order()[self.tried as int])
            } else {
                None::<ProbeMethod>
            },
    {
        if self.outcome.is_none() && self.tried < PROBE_CHAIN_LEN {
            Some(method_at(self.tried))
        } else {
            None
        }
    }

    /// Records the outcome of the pending strategy: the first success
    /// ends the probe with that latency and method; a failure moves on
    /// to the next strategy.
    pub fn advance(&mut self, latency_ms: Option<u32>)
        requires
            old(self).wf(),
            old(self).outcome is None,
            old(self).tried < PROBE_CHAIN_LEN,
        ensures
            final(self).wf(),
            final(self).tried == old(self).tried + 1,
            final(self).outcome == match latency_ms {
                Some(l) => Some((l, spec_method_order()[old(self).tried as int])),
                None => None::<(u32, ProbeMethod)>,
            },
    {
        let m = method_at(self.tried);
        self.tried = self.tried + 1;
        if let Some(l) = latency_ms {
            self.outcome = Some((l, m));
        }
    }

    /// The sample this probe yields for `target` at `now_ms`: the
    /// measured latency and method, or a failed sample when every
    /// strategy failed.
    pub fn finish(&self, target: &String, now_ms: u64) -> (r: PingResult)
        ensures
            r.timestamp_ms == now_ms,
            r.target@ == target@,
            r.latency_ms == match self.outcome {
                Some((l, _)) => Some(l),
                None => None::<u32>,
            },
            r.method == match self.outcome {
                Some((_, m)) => Some(m),
                None => None::<ProbeMethod>,
            },
    {
        match self.outcome {
            Some((l, m)) => PingResult {
                timestamp_ms: now_ms,
                latency_ms: Some(l),
                target: target.clone(),
                method: Some(m),
            },
            None => PingResult {
                timestamp_ms: now_ms,
                latency_ms: None,
                target: target.clone(),
                method: None,
            },
        }
    }
}

/// Batch form of the same decision: given the outcome every strategy
/// would have had, the probe returns the first success and its method,
/// or nothing when all four failed.
pub fn select_probe_result(outcomes: &Vec<Option<u32>>) -> (r: (Option<u32>, Option<ProbeMethod>))
    requires
        outcomes@.len() == PROBE_CHAIN_LEN,
    ensures
        r == match spec_first_success(outcomes@) {
            Some((i, l)) => (Some(l), Some(spec_method_order()[i as int])),
            None => (None::<u32>, None::<ProbeMethod>),
        },
{
    proof {
        assert(outcomes@.skip(0) =~= outcomes@);
    }
    let mut i: usize = 0;
    while i < outcomes.len()
        invariant
            0 <= i <= outcomes@.len(),
            outcomes@.len() == PROBE_CHAIN_LEN,
            forall|k: int| 0 <= k < i ==> outcomes@[k] is None,
            spec_first_success(outcomes@) == match spec_first_success(outcomes@.skip(i as int)) {
                Some((j, l)) => Some(((j + i) as nat, l)),
                None => None::<(nat, u32)>,
            },
        decreases outcomes@.len() - i,
    {
        if let Some(l) = outcomes[i] {
            proof {
                assert(outcomes@.skip(i as int)[0] == outcomes@[i as int]);
            }
            return (Some(l), Some(method_at(i)));
        }
        proof {
            assert(outcomes@.skip(i as int)[0] == outcomes@[i as int]);
            assert(outcomes@.skip(i as int).drop_first() =~= outcomes@.skip(i + 1 as int));
        }
        i = i + 1;
    }
    proof {
        assert(outcomes@.skip(outcomes@.len() as int) =~= Seq::<Option<u32>>::empty());
    }
    (None, None)
}

} // verus!
