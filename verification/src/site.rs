//! Auxiliary site uptime monitoring: URL to (host, port) derivation,
//! per-site status records, and edge-triggered down detection.
use vstd::prelude::*;
use crate::strutil::{all_digits, digits_value, is_digit, char_to_digit, string_to_chars,
    chars_to_string, has_prefix, chars_have_prefix, find_char_from, spec_find_char};

verus! {

/// Most site monitors a configuration may hold.
pub const SITE_MONITOR_CAP: usize = 10;

/// One monitored site: its URL, an optional display name, and whether the
/// sweep currently checks it.
#[derive(Debug)]
pub struct SiteMonitorConfig {
    pub url: String,
    pub name: Option<String>,
    pub enabled: bool,
}

impl Clone for SiteMonitorConfig {
    fn clone(&self) -> (res: Self)
        ensures
            res == *self,
    {
        SiteMonitorConfig {
            url: self.url.clone(),
            name: crate::identity::clone_opt_string(&self.name),
            enabled: self.enabled,
        }
    }
}

/// The last observed state of one site. `last_down_ms` keeps the time of
/// the most recent down transition even after the site recovers.
#[derive(Debug)]
pub struct SiteStatus {
    pub url: String,
    pub is_up: bool,
    pub latency_ms: Option<u32>,
    pub last_check_ms: u64,
    pub last_down_ms: Option<u64>,
}

impl Clone for SiteStatus {
    fn clone(&self) -> (res: Self)
        ensures
            res == *self,
    {
        SiteStatus {
            url: self.url.clone(),
            is_up: self.is_up,
            latency_ms: self.latency_ms,
            last_check_ms: self.last_check_ms,
            last_down_ms: self.last_down_ms,
        }
    }
}

pub open spec fn https_prefix() -> Seq<char> {
    seq!['h', 't', 't', 'p', 's', ':', '/', '/']
}

pub open spec fn http_prefix() -> Seq<char> {
    seq!['h', 't', 't', 'p', ':', '/', '/']
}

/// The URL with any recognized scheme prefix removed.
pub open spec fn spec_after_scheme(s: Seq<char>) -> Seq<char> {
    if has_prefix(s, https_prefix()) {
        s.skip(https_prefix().len() as int)
    } else if has_prefix(s, http_prefix()) {
        s.skip(http_prefix().len() as int)
    } else {
        s
    }
}

/// The port the scheme implies: 80 for explicit http, otherwise 443
/// (an absent scheme assumes https).
pub open spec fn spec_scheme_port(s: Seq<char>) -> u16 {
    if has_prefix(s, https_prefix()) {
        443
    } else if has_prefix(s, http_prefix()) {
        80
    } else {
        443
    }
}

/// The authority part of the URL: everything after the scheme and before
/// the first '/'.
pub open spec fn spec_host_region(s: Seq<char>) -> Seq<char> {
    let a = spec_after_scheme(s);
    match spec_find_char(a, '/') {
        Some(i) => a.take(i),
        None => a,
    }
}

/// The host: the authority up to an explicit ':port' suffix.
pub open spec fn spec_site_host(s: Seq<char>) -> Seq<char> {
    let h = spec_host_region(s);
    match spec_find_char(h, ':') {
        Some(i) => h.take(i),
        None => h,
    }
}

/// The port to probe: an explicit all-digit ':port' suffix that fits a
/// port number overrides the scheme-derived default.
pub open spec fn spec_site_port(s: Seq<char>) -> u16 {
    let h = spec_host_region(s);
    match spec_find_char(h, ':') {
        Some(i) => {
            let d = h.skip(i + 1);
            if d.len() > 0 && all_digits(d) && digits_value(d) <= 65535 {
                digits_value(d) as u16
            } else {
                spec_scheme_port(s)
            }
        },
        None => spec_scheme_port(s),
    }
}

/// Host and port to which the reachability probe connects.
#[derive(Debug, Clone)]
pub struct HostPort {
    pub host: String,
    pub port: u16,
}

/// Derives where the reachability probe should connect: an explicit
/// scheme maps to its port (443 for https, 80 for http), a missing scheme
/// assumes 443, and an explicit ':port' suffix overrides both. The path,
/// if any, is discarded.
pub fn parse_site_url(url: &str) -> (r: HostPort)
    ensures
        r.host@ == spec_site_host(url@),
        r.port == spec_site_port(url@),
{
    let chars = string_to_chars(url);
    let mut https_p: Vec<char> = Vec::new();
    https_p.push('h');
    https_p.push('t');
    https_p.push('t');
    https_p.push('p');
    https_p.push('s');
    https_p.push(':');
    https_p.push('/');
    https_p.push('/');
    let mut http_p: Vec<char> = Vec::new();
    http_p.push('h');
    http_p.push('t');
    http_p.push('t');
    http_p.push('p');
    http_p.push(':');
    http_p.push('/');
    http_p.push('/');
    proof {
        assert(https_p@ =~= https_prefix());
        assert(http_p@ =~= http_prefix());
    }
    let is_https = chars_have_prefix(&chars, &https_p);
    let is_http = if is_https {
        false
    } else {
        chars_have_prefix(&chars, &http_p)
    };
    let start: usize = if is_https {
        8
    } else if is_http {
        7
    } else {
        0
    };
    let default_port: u16 = if is_http {
        80
    } else {
        443
    };
    proof {
        assert(chars@.skip(start as int) =~= spec_after_scheme(url@));
        assert(default_port == spec_scheme_port(url@));
    }
    let region_end: usize = match find_char_from(&chars, start, '/') {
        Some(i) => i,
        None => chars.len(),
    };
    let ghost region = chars@.subrange(start as int, region_end as int);
    proof {
        lemma_find_take(chars@.skip(start as int), '/');
        assert(region =~= spec_host_region(url@));
    }
    let colon: Option<usize> = find_port_colon(&chars, start, region_end);
    let host_end: usize = match colon {
        Some(i) => i,
        None => region_end,
    };
    let ghost host_seq = chars@.subrange(start as int, host_end as int);
    proof {
        lemma_find_take(region, ':');
        match colon {
            Some(i) => {
                assert(region.take(i - start) =~= host_seq);
            },
            None => {},
        }
        assert(host_seq =~= spec_site_host(url@));
    }
    let mut host_chars: Vec<char> = Vec::new();
    let mut i: usize = start;
    while i < host_end
        invariant
            start <= i <= host_end <= chars@.len(),
            host_chars@ =~= chars@.subrange(start as int, i as int),
        decreases host_end - i,
    {
        host_chars.push(chars[i]);
        proof {
            assert(host_chars@ =~= chars@.subrange(start as int, i + 1 as int));
        }
        i = i + 1;
    }
    let host = chars_to_string(&host_chars);
    let port: u16 = match colon {
        Some(ci) => {
            let ghost digits = region.skip(ci - start + 1);
            proof {
                assert(digits =~= chars@.subrange(ci + 1 as int, region_end as int));
            }
            parse_port_digits(&chars, ci + 1, region_end, default_port)
        },
        None => default_port,
    };
    HostPort { host, port }
}

/// Finds the ':' inside the host region, if any.
fn find_port_colon(v: &Vec<char>, start: usize, region_end: usize) -> (r: Option<usize>)
    requires
        start <= region_end <= v@.len(),
    ensures
        match r {
            Some(i) => {
                &&& start <= i < region_end
                &&& spec_find_char(v@.subrange(start as int, region_end as int), ':') == Some(
                    i - start,
                )
            },
            None => spec_find_char(v@.subrange(start as int, region_end as int), ':') is None,
        },
{
    let ghost region = v@.subrange(start as int, region_end as int);
    proof {
        assert(region.skip(0) =~= region);
    }
    let mut i: usize = start;
    while i < region_end
        invariant
            start <= i <= region_end <= v@.len(),
            region == v@.subrange(start as int, region_end as int),
            spec_find_char(region, ':') == match spec_find_char(
                region.skip(i - start as int),
                ':',
            ) {
                Some(j) => Some(j + i - start),
                None => None::<int>,
            },
        decreases region_end - i,
    {
        if v[i] == ':' {
            proof {
                assert(region.skip(i - start as int)[0] == ':');
            }
            return Some(i);
        }
        proof {
            assert(region.skip(i - start as int)[0] != ':');
            assert(region.skip(i - start as int).drop_first() =~= region.skip(
                i + 1 - start as int,
            ));
        }
        i = i + 1;
    }
    proof {
        assert(region.skip(region_end - start as int) =~= Seq::<char>::empty());
    }
    None
}

/// Parses the explicit port digits `v[from..to]`; any non-digit, an empty
/// run, or a value over 65535 falls back to the scheme default.
fn parse_port_digits(v: &Vec<char>, from: usize, to: usize, default_port: u16) -> (r: u16)
    requires
        from <= to <= v@.len(),
    ensures
        ({
            let d = v@.subrange(from as int, to as int);
            r == if d.len() > 0 && all_digits(d) && digits_value(d) <= 65535 {
                digits_value(d) as u16
            } else {
                default_port
            }
        }),
{
    let ghost d = v@.subrange(from as int, to as int);
    if from == to {
        proof {
            assert(d.len() == 0);
        }
        return default_port;
    }
    let mut value: u64 = 0;
    let mut i: usize = from;
    while i < to
        invariant
            from <= i <= to <= v@.len(),
            d == v@.subrange(from as int, to as int),
            all_digits(d.take(i - from as int)),
            value == digits_value(d.take(i - from as int)),
            value <= 65535,
        decreases to - i,
    {
        let c = v[i];
        match char_to_digit(c) {
            None => {
                proof {
                    assert(d[i - from as int] == c);
                    assert(!is_digit(d[i - from as int]));
                }
                return default_port;
            },
            Some(dv) => {
                proof {
                    assert(d.take(i + 1 - from as int).drop_last() =~= d.take(i - from as int));
                    assert(d.take(i + 1 - from as int).last() == d[i - from as int]);
                    assert(d[i - from as int] == c);
                }
                let next = value * 10 + dv;
                if next > 65535 {
                    proof {
                        crate::strutil::lemma_digits_value_monotonic(d, i + 1 - from as int);
                        if all_digits(d) {
                            assert(digits_value(d) > 65535);
                        }
                    }
                    return default_port;
                }
                value = next;
            },
        }
        i = i + 1;
    }
    proof {
        assert(d.take(to - from as int) =~= d);
    }
    value as u16
}

/// What one recorded check reported back to the sweep.
#[derive(Debug, Clone, Copy, PartialEq, Eq, Structural)]
pub struct CheckDelta {
    /// The up/down state differs from the previously recorded one (a
    /// first check always counts as changed).
    pub flipped: bool,
    /// The site was up and is now down: the edge that notifies.
    pub down_transition: bool,
}

/// The status `url` should hold after a check that returned `result` at
/// `now_ms`, given the prior status. `last_down_ms` is set only on a
/// down transition (or a first check that is already down) and preserved
/// otherwise, also across recoveries.
pub open spec fn spec_next_status(
    prior: Option<SiteStatus>,
    url: Seq<char>,
    new_url: String,
    result: Option<u32>,
    now_ms: u64,
) -> SiteStatus {
    let up = result is Some;
    SiteStatus {
        url: new_url,
        is_up: up,
        latency_ms: result,
        last_check_ms: now_ms,
        last_down_ms: match prior {
            None => if up {
                None
            } else {
                Some(now_ms)
            },
            Some(p) => if up {
                p.last_down_ms
            } else if p.is_up {
                Some(now_ms)
            } else {
                p.last_down_ms
            },
        },
    }
}

/// The delta a check produces against the prior status.
pub open spec fn spec_check_delta(prior: Option<SiteStatus>, result: Option<u32>) -> CheckDelta {
    let up = result is Some;
    match prior {
        None => CheckDelta { flipped: true, down_transition: false },
        Some(p) => CheckDelta { flipped: p.is_up != up, down_transition: p.is_up && !up },
    }
}

/// The configured monitors and the last observed status per site.
#[derive(Debug)]
pub struct SiteMonitor {
    pub configs: Vec<SiteMonitorConfig>,
    pub statuses: Vec<SiteStatus>,
}

impl SiteMonitor {
    /// Well-formedness: at most `SITE_MONITOR_CAP` monitors, each URL
    /// unique among the configurations and among the statuses.
    pub open spec fn wf(&self) -> bool {
        &&& self.configs@.len() <= SITE_MONITOR_CAP
        &&& forall|i: int, j: int|
            0 <= i < j < self.configs@.len() ==> self.configs@[i].url@ != self.configs@[j].url@
        &&& forall|i: int, j: int|
            0 <= i < j < self.statuses@.len() ==> self.statuses@[i].url@ != self.statuses@[j].url@
    }

    /// The configuration stored for `url`, if any.
    pub open spec fn spec_find_config(&self, url: Seq<char>) -> Option<SiteMonitorConfig> {
        spec_find_config_in(self.configs@, url)
    }

    /// The status stored for `url`, if any.
    pub open spec fn spec_find_status(&self, url: Seq<char>) -> Option<SiteStatus> {
        spec_find_status_in(self.statuses@, url)
    }

    pub fn new() -> (r: SiteMonitor)
        ensures
            r.wf(),
            r.configs@.len() == 0,
            r.statuses@.len() == 0,
    {
        SiteMonitor { configs: Vec::new(), statuses: Vec::new() }
    }

    fn find_config_index(&self, url: &String) -> (r: Option<usize>)
        ensures
            match r {
                Some(i) => {
                    &&& i < self.configs@.len()
                    &&& self.configs@[i as int].url@ == url@
                    &&& self.spec_find_config(url@) == Some(self.configs@[i as int])
                },
                None => self.spec_find_config(url@) is None,
            },
    {
        proof {
            assert(self.configs@.skip(0) =~= self.configs@);
        }
        let mut i: usize = 0;
        while i < self.configs.len()
            invariant
                0 <= i <= self.configs@.len(),
                forall|k: int| 0 <= k < i ==> self.configs@[k].url@ != url@,
                spec_find_config_in(self.configs@.skip(i as int), url@) == self.spec_find_config(
                    url@,
                ),
            decreases self.configs@.len() - i,
        {
            if self.configs[i].url == *url {
                proof {
                    assert(self.configs@.skip(i as int)[0] == self.configs@[i as int]);
                }
                return Some(i);
            }
            proof {
                assert(self.configs@.skip(i as int).drop_first() =~= self.configs@.skip(
                    i + 1 as int,
                ));
            }
            i = i + 1;
        }
        None
    }

    fn find_status_index(&self, url: &String) -> (r: Option<usize>)
        ensures
            match r {
                Some(i) => {
                    &&& i < self.statuses@.len()
                    &&& self.statuses@[i as int].url@ == url@
                    &&& self.spec_find_status(url@) == Some(self.statuses@[i as int])
                },
                None => self.spec_find_status(url@) is None,
            },
    {
        proof {
            assert(self.statuses@.skip(0) =~= self.statuses@);
        }
        let mut i: usize = 0;
        while i < self.statuses.len()
            invariant
                0 <= i <= self.statuses@.len(),
                forall|k: int| 0 <= k < i ==> self.statuses@[k].url@ != url@,
                spec_find_status_in(self.statuses@.skip(i as int), url@) == self.spec_find_status(
                    url@,
                ),
            decreases self.statuses@.len() - i,
        {
            if self.statuses[i].url == *url {
                proof {
                    assert(self.statuses@.skip(i as int)[0] == self.statuses@[i as int]);
                }
                return Some(i);
            }
            proof {
                assert(self.statuses@.skip(i as int).drop_first() =~= self.statuses@.skip(
                    i + 1 as int,
                ));
            }
            i = i + 1;
        }
        None
    }

    /// Adds a monitor. Rejected when the URL is already monitored or the
    /// cap is reached, leaving the set unchanged.
    pub fn add_monitor(&mut self, cfg: SiteMonitorConfig) -> (r: Result<(), SiteMonitorError>)
        requires
            old(self).wf(),
        ensures
            final(self).wf(),
            r is Ok <==> (old(self).spec_find_config(cfg.url@) is None && old(
                self,
            ).configs@.len() < SITE_MONITOR_CAP),
            r is Ok ==> (final(self).configs@ == old(self).configs@.push(cfg)
                && final(self).statuses@ == old(self).statuses@),
            r is Err ==> *final(self) == *old(self),
            r == Err::<(), SiteMonitorError>(SiteMonitorError::DuplicateUrl) <==> old(
                self,
            ).spec_find_config(cfg.url@) is Some,
            r == Err::<(), SiteMonitorError>(SiteMonitorError::TooMany) <==> (old(
                self,
            ).spec_find_config(cfg.url@) is None && old(self).configs@.len()
                >= SITE_MONITOR_CAP),
    {
        if self.find_config_index(&cfg.url).is_some() {
            return Err(SiteMonitorError::DuplicateUrl);
        }
        if self.configs.len() >= SITE_MONITOR_CAP {
            return Err(SiteMonitorError::TooMany);
        }
        proof {
            lemma_config_absent_when_none(self.configs@, cfg.url@);
        }
        self.configs.push(cfg);
        Ok(())
    }

    /// Removes the monitor and any status for `url`. Rejected when the
    /// URL is not monitored.
    pub fn remove_monitor(&mut self, url: &String) -> (r: Result<(), SiteMonitorError>)
        requires
            old(self).wf(),
        ensures
            final(self).wf(),
            r is Ok <==> old(self).spec_find_config(url@) is Some,
            r is Err ==> *final(self) == *old(self) && r == Err::<(), SiteMonitorError>(
                SiteMonitorError::UnknownUrl,
            ),
            r is Ok ==> final(self).spec_find_config(url@) is None && final(self).spec_find_status(
                url@,
            ) is None,
            r is Ok ==> exists|i: int|
                0 <= i < old(self).configs@.len() && (#[trigger] old(self).configs@[i]).url@
                    == url@ && final(self).configs@ == old(self).configs@.remove(i),
            r is Ok ==> forall|u: Seq<char>|
                u != url@ ==> final(self).spec_find_config(u) == old(self).spec_find_config(u)
                    && final(self).spec_find_status(u) == old(self).spec_find_status(u),
    {
        match self.find_config_index(url) {
            None => Err(SiteMonitorError::UnknownUrl),
            Some(i) => {
                proof {
                    lemma_config_find_remove(self.configs@, i as int, url@);
                    assert forall|u: Seq<char>| u != url@ implies spec_find_config_in(
                        self.configs@.remove(i as int),
                        u,
                    ) == old(self).spec_find_config(u) by {
                        lemma_config_find_remove_other(self.configs@, i as int, url@, u);
                    }
                }
                self.configs.remove(i);
                match self.find_status_index(url) {
                    None => {},
                    Some(j) => {
                        proof {
                            lemma_status_find_remove(self.statuses@, j as int, url@);
                            assert forall|u: Seq<char>| u != url@ implies spec_find_status_in(
                                self.statuses@.remove(j as int),
                                u,
                            ) == old(self).spec_find_status(u) by {
                                lemma_status_find_remove_other(self.statuses@, j as int, url@, u);
                            }
                        }
                        self.statuses.remove(j);
                    },
                }
                Ok(())
            },
        }
    }

    /// Records the outcome of one reachability check of `url` at
    /// `now_ms`: stores the next status and reports whether the up/down
    /// state flipped and whether this is the notifying up-to-down edge.
    pub fn record_check(&mut self, url: &String, result: Option<u32>, now_ms: u64) -> (r:
        CheckDelta)
        requires
            old(self).wf(),
        ensures
            final(self).wf(),
            final(self).configs@ == old(self).configs@,
            r == spec_check_delta(old(self).spec_find_status(url@), result),
            final(self).spec_find_status(url@) is Some,
            final(self).spec_find_status(url@)->Some_0 == spec_next_status(
                old(self).spec_find_status(url@),
                url@,
                final(self).spec_find_status(url@)->Some_0.url,
                result,
                now_ms,
            ),
            final(self).spec_find_status(url@)->Some_0.url@ == url@,
            forall|u: Seq<char>|
                u != url@ ==> final(self).spec_find_status(u) == old(self).spec_find_status(u),
    {
        let up = result.is_some();
        match self.find_status_index(url) {
            Some(j) => {
                let prior = &self.statuses[j];
                let delta = CheckDelta {
                    flipped: prior.is_up != up,
                    down_transition: prior.is_up && !up,
                };
                let next = SiteStatus {
                    url: prior.url.clone(),
                    is_up: up,
                    latency_ms: result,
                    last_check_ms: now_ms,
                    last_down_ms: if up {
                        prior.last_down_ms
                    } else if prior.is_up {
                        Some(now_ms)
                    } else {
                        prior.last_down_ms
                    },
                };
                proof {
                    lemma_status_find_update(self.statuses@, j as int, next, url@);
                    assert forall|u: Seq<char>| u != url@ implies spec_find_status_in(
                        self.statuses@.update(j as int, next),
                        u,
                    ) == old(self).spec_find_status(u) by {
                        lemma_status_find_update_other(self.statuses@, j as int, next, url@, u);
                    }
                }
                let ghost gnext = next;
                self.statuses.remove(j);
                self.statuses.insert(j, next);
                proof {
                    assert(self.statuses@ =~= old(self).statuses@.update(j as int, gnext));
                }
                delta
            },
            None => {
                let next = SiteStatus {
                    url: url.clone(),
                    is_up: up,
                    latency_ms: result,
                    last_check_ms: now_ms,
                    last_down_ms: if up {
                        None
                    } else {
                        Some(now_ms)
                    },
                };
                proof {
                    lemma_status_absent_when_none(self.statuses@, url@);
                    lemma_status_find_push(self.statuses@, next, url@);
                    assert forall|u: Seq<char>| u != url@ implies spec_find_status_in(
                        self.statuses@.push(next),
                        u,
                    ) == old(self).spec_find_status(u) by {
                        lemma_status_find_push(self.statuses@, next, u);
                    }
                }
                self.statuses.push(next);
                CheckDelta { flipped: true, down_transition: false }
            },
        }
    }

    /// The configured monitors, copied out.
    pub fn list_monitors(&self) -> (r: Vec<SiteMonitorConfig>)
        ensures
            r@ == self.configs@,
    {
        let mut out: Vec<SiteMonitorConfig> = Vec::new();
        let mut i: usize = 0;
        while i < self.configs.len()
            invariant
                0 <= i <= self.configs@.len(),
                out@ =~= self.configs@.take(i as int),
            decreases self.configs@.len() - i,
        {
            out.push(self.configs[i].clone());
            proof {
                assert(out@ =~= self.configs@.take(i + 1 as int));
            }
            i = i + 1;
        }
        proof {
            assert(self.configs@.take(self.configs@.len() as int) =~= self.configs@);
        }
        out
    }

    /// The recorded statuses, copied out.
    pub fn list_statuses(&self) -> (r: Vec<SiteStatus>)
        ensures
            r@ == self.statuses@,
    {
        let mut out: Vec<SiteStatus> = Vec::new();
        let mut i: usize = 0;
        while i < self.statuses.len()
            invariant
                0 <= i <= self.statuses@.len(),
                out@ =~= self.statuses@.take(i as int),
            decreases self.statuses@.len() - i,
        {
            out.push(self.statuses[i].clone());
            proof {
                assert(out@ =~= self.statuses@.take(i + 1 as int));
            }
            i = i + 1;
        }
        proof {
            assert(self.statuses@.take(self.statuses@.len() as int) =~= self.statuses@);
        }
        out
    }
}

/// Why a monitor mutation was rejected.
#[derive(Debug, Clone, Copy, PartialEq, Eq, Structural)]
pub enum SiteMonitorError {
    DuplicateUrl,
    TooMany,
    UnknownUrl,
}

pub open spec fn spec_find_config_in(s: Seq<SiteMonitorConfig>, url: Seq<char>) -> Option<
    SiteMonitorConfig,
>
    decreases s.len(),
{
    if s.len() == 0 {
        None
    } else if s[0].url@ == url {
        Some(s[0])
    } else {
        spec_find_config_in(s.drop_first(), url)
    }
}

pub open spec fn spec_find_status_in(s: Seq<SiteStatus>, url: Seq<char>) -> Option<SiteStatus>
    decreases s.len(),
{
    if s.len() == 0 {
        None
    } else if s[0].url@ == url {
        Some(s[0])
    } else {
        spec_find_status_in(s.drop_first(), url)
    }
}

proof fn lemma_find_take(s: Seq<char>, c: char)
    ensures
        match spec_find_char(s, c) {
            Some(i) => 0 <= i < s.len() && s[i] == c && forall|k: int| 0 <= k < i ==> s[k] != c,
            None => forall|k: int| 0 <= k < s.len() ==> s[k] != c,
        },
    decreases s.len(),
{
    if s.len() > 0 {
        lemma_find_take(s.drop_first(), c);
        if s[0] != c {
            match spec_find_char(s.drop_first(), c) {
                Some(i) => {
                    assert(s.drop_first()[i] == s[i + 1]);
                    assert forall|k: int| 0 <= k < i + 1 implies s[k] != c by {
                        if k > 0 {
                            assert(s.drop_first()[k - 1] == s[k]);
                        }
                    }
                },
                None => {
                    assert forall|k: int| 0 <= k < s.len() implies s[k] != c by {
                        if k > 0 {
                            assert(s.drop_first()[k - 1] == s[k]);
                        }
                    }
                },
            }
        }
    }
}

pub(crate) proof fn lemma_config_absent_when_none(s: Seq<SiteMonitorConfig>, url: Seq<char>)
    requires
        spec_find_config_in(s, url) is None,
    ensures
        forall|a: int| 0 <= a < s.len() ==> (#[trigger] s[a]).url@ != url,
    decreases s.len(),
{
    if s.len() > 0 {
        lemma_config_absent_when_none(s.drop_first(), url);
        assert forall|a: int| 0 <= a < s.len() implies (#[trigger] s[a]).url@ != url by {
            if a > 0 {
                assert(s.drop_first()[a - 1] == s[a]);
            }
        }
    }
}

proof fn lemma_status_absent_when_none(s: Seq<SiteStatus>, url: Seq<char>)
    requires
        spec_find_status_in(s, url) is None,
    ensures
        forall|a: int| 0 <= a < s.len() ==> (#[trigger] s[a]).url@ != url,
    decreases s.len(),
{
    if s.len() > 0 {
        lemma_status_absent_when_none(s.drop_first(), url);
        assert forall|a: int| 0 <= a < s.len() implies (#[trigger] s[a]).url@ != url by {
            if a > 0 {
                assert(s.drop_first()[a - 1] == s[a]);
            }
        }
    }
}

proof fn lemma_status_find_push(s: Seq<SiteStatus>, e: SiteStatus, url: Seq<char>)
    ensures
        spec_find_status_in(s.push(e), url) == if spec_find_status_in(s, url) is Some {
            spec_find_status_in(s, url)
        } else if e.url@ == url {
            Some(e)
        } else {
            None
        },
    decreases s.len(),
{
    if s.len() == 0 {
        assert(s.push(e)[0] == e);
        assert(s.push(e).drop_first() =~= Seq::<SiteStatus>::empty());
    } else {
        assert(s.push(e).drop_first() =~= s.drop_first().push(e));
        lemma_status_find_push(s.drop_first(), e, url);
    }
}

proof fn lemma_config_find_remove(s: Seq<SiteMonitorConfig>, i: int, url: Seq<char>)
    requires
        0 <= i < s.len(),
        s[i].url@ == url,
        forall|a: int, b: int| 0 <= a < b < s.len() ==> s[a].url@ != s[b].url@,
    ensures
        spec_find_config_in(s.remove(i), url) is None,
    decreases s.len(),
{
    if i == 0 {
        assert(s.remove(0) =~= s.drop_first());
        lemma_config_absent_helper(s.drop_first(), url);
    } else {
        assert(s.remove(i)[0] == s[0]);
        assert(s.remove(i).drop_first() =~= s.drop_first().remove(i - 1));
        lemma_config_find_remove(s.drop_first(), i - 1, url);
    }
}

pub(crate) proof fn lemma_config_absent_helper(s: Seq<SiteMonitorConfig>, url: Seq<char>)
    requires
        forall|a: int| 0 <= a < s.len() ==> (#[trigger] s[a]).url@ != url,
    ensures
        spec_find_config_in(s, url) is None,
    decreases s.len(),
{
    if s.len() > 0 {
        lemma_config_absent_helper(s.drop_first(), url);
    }
}

proof fn lemma_config_find_remove_other(
    s: Seq<SiteMonitorConfig>,
    i: int,
    url: Seq<char>,
    u: Seq<char>,
)
    requires
        0 <= i < s.len(),
        s[i].url@ == url,
        u != url,
    ensures
        spec_find_config_in(s.remove(i), u) == spec_find_config_in(s, u),
    decreases s.len(),
{
    if i == 0 {
        assert(s.remove(0) =~= s.drop_first());
    } else {
        assert(s.remove(i)[0] == s[0]);
        assert(s.remove(i).drop_first() =~= s.drop_first().remove(i - 1));
        lemma_config_find_remove_other(s.drop_first(), i - 1, url, u);
    }
}

proof fn lemma_status_find_remove(s: Seq<SiteStatus>, i: int, url: Seq<char>)
    requires
        0 <= i < s.len(),
        s[i].url@ == url,
        forall|a: int, b: int| 0 <= a < b < s.len() ==> s[a].url@ != s[b].url@,
    ensures
        spec_find_status_in(s.remove(i), url) is None,
    decreases s.len(),
{
    if i == 0 {
        assert(s.remove(0) =~= s.drop_first());
        lemma_status_absent_helper(s.drop_first(), url);
    } else {
        assert(s.remove(i)[0] == s[0]);
        assert(s.remove(i).drop_first() =~= s.drop_first().remove(i - 1));
        lemma_status_find_remove(s.drop_first(), i - 1, url);
    }
}

proof fn lemma_status_absent_helper(s: Seq<SiteStatus>, url: Seq<char>)
    requires
        forall|a: int| 0 <= a < s.len() ==> (#[trigger] s[a]).url@ != url,
    ensures
        spec_find_status_in(s, url) is None,
    decreases s.len(),
{
    if s.len() > 0 {
        lemma_status_absent_helper(s.drop_first(), url);
    }
}

proof fn lemma_status_find_remove_other(s: Seq<SiteStatus>, i: int, url: Seq<char>, u: Seq<char>)
    requires
        0 <= i < s.len(),
        s[i].url@ == url,
        u != url,
    ensures
        spec_find_status_in(s.remove(i), u) == spec_find_status_in(s, u),
    decreases s.len(),
{
    if i == 0 {
        assert(s.remove(0) =~= s.drop_first());
    } else {
        assert(s.remove(i)[0] == s[0]);
        assert(s.remove(i).drop_first() =~= s.drop_first().remove(i - 1));
        lemma_status_find_remove_other(s.drop_first(), i - 1, url, u);
    }
}

proof fn lemma_status_find_update(s: Seq<SiteStatus>, i: int, e: SiteStatus, url: Seq<char>)
    requires
        0 <= i < s.len(),
        s[i].url@ == url,
        e.url@ == url,
        forall|a: int, b: int| 0 <= a < b < s.len() ==> s[a].url@ != s[b].url@,
    ensures
        spec_find_status_in(s.update(i, e), url) == Some(e),
    decreases s.len(),
{
    if i == 0 {
    } else {
        assert(s.update(i, e)[0] == s[0]);
        assert(s.update(i, e).drop_first() =~= s.drop_first().update(i - 1, e));
        lemma_status_find_update(s.drop_first(), i - 1, e, url);
    }
}

proof fn lemma_status_find_update_other(
    s: Seq<SiteStatus>,
    i: int,
    e: SiteStatus,
    url: Seq<char>,
    u: Seq<char>,
)
    requires
        0 <= i < s.len(),
        s[i].url@ == url,
        e.url@ == url,
        u != url,
    ensures
        spec_find_status_in(s.update(i, e), u) == spec_find_status_in(s, u),
    decreases s.len(),
{
    if i == 0 {
        assert(s.update(0, e).drop_first() =~= s.drop_first());
    } else {
        assert(s.update(i, e)[0] == s[0]);
        assert(s.update(i, e).drop_first() =~= s.drop_first().update(i - 1, e));
        lemma_status_find_update_other(s.drop_first(), i - 1, e, url, u);
    }
}

} // verus!
