//! Notification gate: a per-category dedup/rate-limit policy shared by all
//! alert sources. Each category has its own cooldown clock; a notification
//! may fire when no prior send is recorded or when at least the category's
//! cooldown has elapsed since the last recorded send.
use vstd::prelude::*;

verus! {

/// The alert categories the engine raises.
#[derive(Debug, Clone, Copy, PartialEq, Eq, Structural)]
pub enum NotifyCategory {
    HighLatency,
    Vpn,
    SiteDown,
}

/// Minimum gap between two notifications of one category, in milliseconds.
/// Site-down alerts carry no cooldown: they are already edge-triggered.
pub open spec fn spec_cooldown_ms(cat: NotifyCategory) -> int {
    match cat {
        NotifyCategory::HighLatency => 60_000,
        NotifyCategory::Vpn => 30_000,
        NotifyCategory::SiteDown => 0,
    }
}

pub fn cooldown_ms(cat: NotifyCategory) -> (r: u64)
    ensures
        r == spec_cooldown_ms(cat),
{
    match cat {
        NotifyCategory::HighLatency => 60_000,
        NotifyCategory::Vpn => 30_000,
        NotifyCategory::SiteDown => 0,
    }
}

/// Last-sent timestamps (epoch milliseconds), one clock per category.
#[derive(Debug, Clone)]
pub struct NotificationGate {
    pub last_high_latency: Option<u64>,
    pub last_vpn: Option<u64>,
    pub last_site_down: Option<u64>,
}

impl NotificationGate {
    pub open spec fn spec_last_sent(&self, cat: NotifyCategory) -> Option<u64> {
        match cat {
            NotifyCategory::HighLatency => self.last_high_latency,
            NotifyCategory::Vpn => self.last_vpn,
            NotifyCategory::SiteDown => self.last_site_down,
        }
    }

    /// True when a notification of this category may fire at `now_ms`:
    /// no prior send, or the cooldown has fully elapsed.
    pub open spec fn spec_should_notify(&self, cat: NotifyCategory, now_ms: u64) -> bool {
        match self.spec_last_sent(cat) {
            None => true,
            Some(last) => now_ms >= last + spec_cooldown_ms(cat),
        }
    }

    /// The same gate with `cat`'s clock set to `now_ms`.
    pub open spec fn spec_with_sent(&self, cat: NotifyCategory, now_ms: u64) -> NotificationGate {
        match cat {
            NotifyCategory::HighLatency => NotificationGate {
                last_high_latency: Some(now_ms),
                ..*self
            },
            NotifyCategory::Vpn => NotificationGate { last_vpn: Some(now_ms), ..*self },
            NotifyCategory::SiteDown => NotificationGate { last_site_down: Some(now_ms), ..*self },
        }
    }

    /// A gate with no send recorded in any category: every category fires
    /// on its first call.
    pub fn new() -> (r: NotificationGate)
        ensures
            r.last_high_latency is None,
            r.last_vpn is None,
            r.last_site_down is None,
    {
        NotificationGate { last_high_latency: None, last_vpn: None, last_site_down: None }
    }

    pub fn should_notify(&self, cat: NotifyCategory, now_ms: u64) -> (r: bool)
        ensures
            r == self.spec_should_notify(cat, now_ms),
    {
        let last = match cat {
            NotifyCategory::HighLatency => self.last_high_latency,
            NotifyCategory::Vpn => self.last_vpn,
            NotifyCategory::SiteDown => self.last_site_down,
        };
        match last {
            None => true,
            Some(last) => last <= now_ms && now_ms - last >= cooldown_ms(cat),
        }
    }

    /// Records that a notification of `cat` was sent at `now_ms`.
    pub fn note_sent(&mut self, cat: NotifyCategory, now_ms: u64)
        ensures
            *final(self) == old(self).spec_with_sent(cat, now_ms),
    {
        match cat {
            NotifyCategory::HighLatency => self.last_high_latency = Some(now_ms),
            NotifyCategory::Vpn => self.last_vpn = Some(now_ms),
            NotifyCategory::SiteDown => self.last_site_down = Some(now_ms),
        }
    }

    /// Checks the cooldown and, exactly when the notification may fire,
    /// records the send — so a `true` result both permits and books it.
    pub fn check_and_record(&mut self, cat: NotifyCategory, now_ms: u64) -> (fired: bool)
        ensures
            fired == old(self).spec_should_notify(cat, now_ms),
            fired ==> *final(self) == old(self).spec_with_sent(cat, now_ms),
            !fired ==> *final(self) == *old(self),
    {
        if self.should_notify(cat, now_ms) {
            self.note_sent(cat, now_ms);
            true
        } else {
            false
        }
    }
}

} // verus!
