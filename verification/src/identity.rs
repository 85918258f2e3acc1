//! Public network identity tracking: classification of identity changes
//! (used as a proxy for VPN disconnection), a bounded change log, and
//! stability counters derived from it.
use vstd::prelude::*;
use crate::gate::{NotificationGate, NotifyCategory};
use crate::history::keep_last;

verus! {

/// Capacity of the change log; the oldest event is evicted first.
pub const CHANGE_LOG_CAP: usize = 100;

/// Milliseconds in the trailing hour used by the stability counters.
pub const HOUR_MS: u64 = 3_600_000;

/// How long a cached identity stays fresh before a background check
/// fetches again.
pub const IDENTITY_CACHE_TTL_MS: u64 = 300_000;

/// A public-network identity as reported by the external identity service.
#[derive(Debug)]
pub struct IpInfo {
    pub ip: String,
    pub country: String,
    pub country_code: String,
    pub city: Option<String>,
    pub isp: Option<String>,
}

/// Content view of an optional string.
pub open spec fn opt_str_view(o: Option<String>) -> Option<Seq<char>> {
    match o {
        Some(s) => Some(s@),
        None => None,
    }
}

impl Clone for IpInfo {
    fn clone(&self) -> (res: Self)
        ensures
            res == *self,
    {
        IpInfo {
            ip: self.ip.clone(),
            country: self.country.clone(),
            country_code: self.country_code.clone(),
            city: clone_opt_string(&self.city),
            isp: clone_opt_string(&self.isp),
        }
    }
}

/// Element-wise copy of an optional string.
pub fn clone_opt_string(o: &Option<String>) -> (r: Option<String>)
    ensures
        r == *o,
{
    match o {
        Some(s) => Some(s.clone()),
        None => None,
    }
}

/// How the current identity differs from the cached one. `Initial` marks
/// the first identity ever seen.
#[derive(Debug, Clone, Copy, PartialEq, Eq, Structural)]
pub enum NetworkChangeType {
    IpChanged,
    CountryChanged,
    IspChanged,
    Initial,
}

/// One detected identity change. `is_expected` is true when the check was
/// user-initiated.
#[derive(Debug)]
pub struct NetworkChangeEvent {
    pub change_type: NetworkChangeType,
    pub previous: Option<IpInfo>,
    pub current: IpInfo,
    pub timestamp_ms: u64,
    pub is_expected: bool,
}

impl Clone for NetworkChangeEvent {
    fn clone(&self) -> (res: Self)
        ensures
            res == *self,
    {
        NetworkChangeEvent {
            change_type: self.change_type,
            previous: match &self.previous {
                Some(p) => Some(p.clone()),
                None => None,
            },
            current: self.current.clone(),
            timestamp_ms: self.timestamp_ms,
            is_expected: self.is_expected,
        }
    }
}

/// Counters describing how settled the identity has been.
#[derive(Debug, Clone)]
pub struct NetworkStability {
    pub changes_last_hour: usize,
    pub last_country_change: Option<u64>,
    pub last_ip_change: Option<u64>,
}

/// User preferences for the identity watch.
#[derive(Debug)]
pub struct VpnSettings {
    pub enabled: bool,
    pub check_interval_secs: u32,
    pub alert_on_country_change: bool,
    pub alert_on_ip_change: bool,
    pub expected_country: Option<String>,
}

impl Clone for VpnSettings {
    fn clone(&self) -> (res: Self)
        ensures
            res == *self,
    {
        VpnSettings {
            enabled: self.enabled,
            check_interval_secs: self.check_interval_secs,
            alert_on_country_change: self.alert_on_country_change,
            alert_on_ip_change: self.alert_on_ip_change,
            expected_country: clone_opt_string(&self.expected_country),
        }
    }
}

/// Classification precedence, first match wins: a differing country code
/// outranks a differing address, which outranks a differing provider. A
/// simultaneous country and address change therefore reports only
/// `CountryChanged`.
pub open spec fn spec_classify(prev: IpInfo, cur: IpInfo) -> Option<NetworkChangeType> {
    if prev.country_code@ != cur.country_code@ {
        Some(NetworkChangeType::CountryChanged)
    } else if prev.ip@ != cur.ip@ {
        Some(NetworkChangeType::IpChanged)
    } else if opt_str_view(prev.isp) != opt_str_view(cur.isp) {
        Some(NetworkChangeType::IspChanged)
    } else {
        None
    }
}

/// Content equality of two optional strings.
pub fn opt_string_eq(a: &Option<String>, b: &Option<String>) -> (r: bool)
    ensures
        r == (opt_str_view(*a) == opt_str_view(*b)),
{
    match (a, b) {
        (Some(x), Some(y)) => *x == *y,
        (None, None) => true,
        _ => false,
    }
}

/// Compares the cached and the freshly fetched identity; see
/// `spec_classify` for the precedence.
pub fn classify(prev: &IpInfo, cur: &IpInfo) -> (r: Option<NetworkChangeType>)
    ensures
        r == spec_classify(*prev, *cur),
{
    if !(prev.country_code == cur.country_code) {
        Some(NetworkChangeType::CountryChanged)
    } else if !(prev.ip == cur.ip) {
        Some(NetworkChangeType::IpChanged)
    } else if !opt_string_eq(&prev.isp, &cur.isp) {
        Some(NetworkChangeType::IspChanged)
    } else {
        None
    }
}

/// The change type a check records: `Initial` when nothing was cached,
/// otherwise the classification against the cache, or nothing.
pub open spec fn spec_change_of(prev: Option<IpInfo>, cur: IpInfo) -> Option<NetworkChangeType> {
    match prev {
        None => Some(NetworkChangeType::Initial),
        Some(p) => spec_classify(p, cur),
    }
}

/// Whether an alert is wanted for this change (before the rate limit):
/// user-initiated checks never notify, country changes are gated by
/// `alert_on_country_change`, address changes by `alert_on_ip_change`,
/// and provider changes and the initial identity never notify.
pub open spec fn spec_wants_alert(
    ty: NetworkChangeType,
    is_manual: bool,
    settings: VpnSettings,
) -> bool {
    &&& !is_manual
    &&& match ty {
        NetworkChangeType::CountryChanged => settings.alert_on_country_change,
        NetworkChangeType::IpChanged => settings.alert_on_ip_change,
        NetworkChangeType::IspChanged => false,
        NetworkChangeType::Initial => false,
    }
}

/// Number of country or address changes in the log newer than `cutoff_ms`.
pub open spec fn spec_changes_since(s: Seq<NetworkChangeEvent>, cutoff_ms: int) -> nat
    decreases s.len(),
{
    if s.len() == 0 {
        0
    } else {
        (if s[0].timestamp_ms > cutoff_ms && (s[0].change_type == NetworkChangeType::CountryChanged
            || s[0].change_type == NetworkChangeType::IpChanged) {
            1nat
        } else {
            0nat
        }) + spec_changes_since(s.drop_first(), cutoff_ms)
    }
}

/// Timestamp of the latest event of type `ty` in the log, if any.
pub open spec fn spec_last_change(s: Seq<NetworkChangeEvent>, ty: NetworkChangeType) -> Option<u64>
    decreases s.len(),
{
    if s.len() == 0 {
        None
    } else {
        match spec_last_change(s.drop_first(), ty) {
            Some(t) => Some(t),
            None => if s[0].change_type == ty {
                Some(s[0].timestamp_ms)
            } else {
                None
            },
        }
    }
}

/// What one identity check did: the event it recorded, if any, and
/// whether an alert fired.
#[derive(Debug)]
pub struct CheckOutcome {
    pub event: Option<NetworkChangeEvent>,
    pub notified: bool,
}

/// Tracks the cached identity, the bounded change log and the time of the
/// last completed check.
#[derive(Debug)]
pub struct NetworkIdentityTracker {
    pub last: Option<IpInfo>,
    pub log: Vec<NetworkChangeEvent>,
    pub last_check_ms: Option<u64>,
}

impl NetworkIdentityTracker {
    /// Well-formedness: the change log never exceeds its capacity.
    pub open spec fn wf(&self) -> bool {
        self.log@.len() <= CHANGE_LOG_CAP
    }

    pub fn new() -> (r: NetworkIdentityTracker)
        ensures
            r.wf(),
            r.last is None,
            r.log@.len() == 0,
            r.last_check_ms is None,
    {
        NetworkIdentityTracker { last: None, log: Vec::new(), last_check_ms: None }
    }

    /// Records the outcome of one identity check. `fetched` is what the
    /// external identity service returned; `is_manual` marks a
    /// user-initiated refresh. Classifies the change, appends any event
    /// to the bounded log, refreshes the cache and the last-check time
    /// always, and asks (and books) the vpn notification gate exactly
    /// when the change wants an alert.
    pub fn check_once(
        &mut self,
        fetched: IpInfo,
        now_ms: u64,
        is_manual: bool,
        settings: &VpnSettings,
        gate: &mut NotificationGate,
    ) -> (r: CheckOutcome)
        requires
            old(self).wf(),
        ensures
            final(self).wf(),
            final(self).last == Some(fetched),
            final(self).last_check_ms == Some(now_ms),
            r.event == match spec_change_of(old(self).last, fetched) {
                None => None::<NetworkChangeEvent>,
                Some(ty) => Some(
                    NetworkChangeEvent {
                        change_type: ty,
                        previous: old(self).last,
                        current: fetched,
                        timestamp_ms: now_ms,
                        is_expected: is_manual,
                    },
                ),
            },
            final(self).log@ == match r.event {
                Some(ev) => keep_last(old(self).log@.push(ev), CHANGE_LOG_CAP as nat),
                None => old(self).log@,
            },
            r.notified == (match spec_change_of(old(self).last, fetched) {
                Some(ty) => spec_wants_alert(ty, is_manual, *settings) && old(
                    gate,
                ).spec_should_notify(NotifyCategory::Vpn, now_ms),
                None => false,
            }),
            r.notified ==> *final(gate) == old(gate).spec_with_sent(NotifyCategory::Vpn, now_ms),
            !r.notified ==> *final(gate) == *old(gate),
    {
        let change = match &self.last {
            None => Some(NetworkChangeType::Initial),
            Some(p) => classify(p, &fetched),
        };
        let mut outcome = CheckOutcome { event: None, notified: false };
        if let Some(ty) = change {
            let ev = NetworkChangeEvent {
                change_type: ty,
                previous: match &self.last {
                    Some(p) => Some(p.clone()),
                    None => None,
                },
                current: fetched.clone(),
                timestamp_ms: now_ms,
                is_expected: is_manual,
            };
            self.log.push(ev.clone());
            if self.log.len() > CHANGE_LOG_CAP {
                self.log.remove(0);
            }
            proof {
                assert(self.log@ =~= keep_last(
                    old(self).log@.push(ev),
                    CHANGE_LOG_CAP as nat,
                ));
            }
            let wants = !is_manual && match ty {
                NetworkChangeType::CountryChanged => settings.alert_on_country_change,
                NetworkChangeType::IpChanged => settings.alert_on_ip_change,
                NetworkChangeType::IspChanged => false,
                NetworkChangeType::Initial => false,
            };
            let notified = if wants {
                gate.check_and_record(NotifyCategory::Vpn, now_ms)
            } else {
                false
            };
            outcome = CheckOutcome { event: Some(ev), notified };
        }
        self.last = Some(fetched);
        self.last_check_ms = Some(now_ms);
        outcome
    }

    /// Whether a fetch should happen now: always when forced by the
    /// user, otherwise only when no check completed yet or the cached
    /// identity is older than the cache TTL.
    pub fn should_fetch(&self, now_ms: u64, forced: bool) -> (r: bool)
        ensures
            r == (forced || match self.last_check_ms {
                None => true,
                Some(t) => now_ms >= t + IDENTITY_CACHE_TTL_MS,
            }),
    {
        if forced {
            return true;
        }
        match self.last_check_ms {
            None => true,
            Some(t) => t <= now_ms && now_ms - t >= IDENTITY_CACHE_TTL_MS,
        }
    }

    /// The stability snapshot at `now_ms`: country or address changes in
    /// the trailing hour, and the latest country and address change times.
    pub fn stability(&self, now_ms: u64) -> (r: NetworkStability)
        ensures
            r.changes_last_hour == spec_changes_since(self.log@, now_ms - HOUR_MS),
            r.last_country_change == spec_last_change(
                self.log@,
                NetworkChangeType::CountryChanged,
            ),
            r.last_ip_change == spec_last_change(self.log@, NetworkChangeType::IpChanged),
    {
        let ghost cutoff: int = now_ms - HOUR_MS;
        let mut count: usize = 0;
        let mut last_country: Option<u64> = None;
        let mut last_ip: Option<u64> = None;
        let mut i: usize = 0;
        while i < self.log.len()
            invariant
                0 <= i <= self.log@.len(),
                cutoff == now_ms - HOUR_MS,
                count == spec_changes_since(self.log@.take(i as int), cutoff),
                last_country == spec_last_change(
                    self.log@.take(i as int),
                    NetworkChangeType::CountryChanged,
                ),
                last_ip == spec_last_change(self.log@.take(i as int), NetworkChangeType::IpChanged),
            decreases self.log@.len() - i,
        {
            proof {
                lemma_log_take_step(self.log@, cutoff, i as int);
                lemma_changes_since_le_len(self.log@.take(i + 1 as int), cutoff);
            }
            let ev = &self.log[i];
            let in_hour = if HOUR_MS > now_ms {
                true
            } else {
                ev.timestamp_ms > now_ms - HOUR_MS
            };
            if in_hour && (ev.change_type == NetworkChangeType::CountryChanged || ev.change_type
                == NetworkChangeType::IpChanged) {
                count = count + 1;
            }
            if ev.change_type == NetworkChangeType::CountryChanged {
                last_country = Some(ev.timestamp_ms);
            }
            if ev.change_type == NetworkChangeType::IpChanged {
                last_ip = Some(ev.timestamp_ms);
            }
            i = i + 1;
        }
        proof {
            assert(self.log@.take(self.log@.len() as int) =~= self.log@);
        }
        NetworkStability {
            changes_last_hour: count,
            last_country_change: last_country,
            last_ip_change: last_ip,
        }
    }
}

proof fn lemma_changes_since_le_len(s: Seq<NetworkChangeEvent>, cutoff: int)
    ensures
        spec_changes_since(s, cutoff) <= s.len(),
    decreases s.len(),
{
    if s.len() > 0 {
        lemma_changes_since_le_len(s.drop_first(), cutoff);
    }
}

/// Extending the processed prefix by one event advances the counters by
/// that event's contribution.
proof fn lemma_log_take_step(s: Seq<NetworkChangeEvent>, cutoff: int, i: int)
    requires
        0 <= i < s.len(),
    ensures
        spec_changes_since(s.take(i + 1), cutoff) == spec_changes_since(s.take(i), cutoff) + (
        if s[i].timestamp_ms > cutoff && (s[i].change_type == NetworkChangeType::CountryChanged
            || s[i].change_type == NetworkChangeType::IpChanged) {
            1int
        } else {
            0int
        }),
        spec_last_change(s.take(i + 1), NetworkChangeType::CountryChanged) == (if s[i].change_type
            == NetworkChangeType::CountryChanged {
            Some(s[i].timestamp_ms)
        } else {
            spec_last_change(s.take(i), NetworkChangeType::CountryChanged)
        }),
        spec_last_change(s.take(i + 1), NetworkChangeType::IpChanged) == (if s[i].change_type
            == NetworkChangeType::IpChanged {
            Some(s[i].timestamp_ms)
        } else {
            spec_last_change(s.take(i), NetworkChangeType::IpChanged)
        }),
{
    lemma_log_snoc(s.take(i + 1), cutoff, NetworkChangeType::CountryChanged);
    lemma_log_snoc(s.take(i + 1), cutoff, NetworkChangeType::IpChanged);
    assert(s.take(i + 1).drop_last() =~= s.take(i));
    assert(s.take(i + 1).last() == s[i]);
}

/// Peeling the last event off a non-empty log.
proof fn lemma_log_snoc(s: Seq<NetworkChangeEvent>, cutoff: int, ty: NetworkChangeType)
    requires
        s.len() > 0,
    ensures
        spec_changes_since(s, cutoff) == spec_changes_since(s.drop_last(), cutoff) + (if s.last().timestamp_ms
            > cutoff && (s.last().change_type == NetworkChangeType::CountryChanged
            || s.last().change_type == NetworkChangeType::IpChanged) {
            1int
        } else {
            0int
        }),
        spec_last_change(s, ty) == (if s.last().change_type == ty {
            Some(s.last().timestamp_ms)
        } else {
            spec_last_change(s.drop_last(), ty)
        }),
    decreases s.len(),
{
    if s.len() == 1 {
        assert(s.drop_last() =~= Seq::<NetworkChangeEvent>::empty());
        assert(s.drop_first() =~= Seq::<NetworkChangeEvent>::empty());
    } else {
        lemma_log_snoc(s.drop_first(), cutoff, ty);
        assert(s.drop_first().drop_last() =~= s.drop_last().drop_first());
        assert(s.drop_first().last() == s.last());
        assert(s.drop_last()[0] == s[0]);
    }
}

} // verus!
