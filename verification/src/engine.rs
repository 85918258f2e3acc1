//! The engine state and its command operations: the target registry with
//! its primary-target rules, threshold and interval settings, the tray
//! diffing step, the per-probe bookkeeping, and conversion to and from
//! the persisted snapshot.
use vstd::prelude::*;
use crate::history::{HistoryStore, PingResult, PingStatistics, TargetEntry, keep_last,
    spec_append1, spec_append_seq, lemma_append_seq_keeps_last, spec_statistics};
use crate::gate::{NotificationGate, NotifyCategory};
use crate::tray::{DisplayMode, TrayRenderState, spec_render, render, same_render};
use crate::site::SiteMonitor;
use crate::identity::{NetworkIdentityTracker, VpnSettings};
use crate::scheduler::{DEFAULT_INTERVAL_SECS, interval_valid, spec_interval_valid};
use crate::codec::Snapshot;

verus! {

/// Samples kept per target before the oldest is evicted.
pub const HISTORY_CAP: usize = 43200;

/// Milliseconds in the day-long window kept across restarts.
pub const DAY_MS: u64 = 86_400_000;

/// First index whose element reads `t`, if any.
pub open spec fn spec_target_index(ts: Seq<String>, t: Seq<char>) -> Option<int>
    decreases ts.len(),
{
    if ts.len() == 0 {
        None
    } else if ts[0]@ == t {
        Some(0)
    } else {
        match spec_target_index(ts.drop_first(), t) {
            Some(i) => Some(i + 1),
            None => None,
        }
    }
}

/// The samples of `s` whose timestamp lies strictly after `cutoff_ms`,
/// in order.
pub open spec fn spec_keep_recent(s: Seq<PingResult>, cutoff_ms: int) -> Seq<PingResult>
    decreases s.len(),
{
    if s.len() == 0 {
        Seq::<PingResult>::empty()
    } else if s[0].timestamp_ms > cutoff_ms {
        seq![s[0]] + spec_keep_recent(s.drop_first(), cutoff_ms)
    } else {
        spec_keep_recent(s.drop_first(), cutoff_ms)
    }
}

/// What one recorded probe did besides storing the sample.
pub struct ProbeOutcome {
    /// The fresh tray state when the probed target is primary and the
    /// rendering changed; the caller redraws exactly then.
    pub render: Option<TrayRenderState>,
    /// A high-latency alert fired and was recorded on its cooldown clock.
    pub notified: bool,
}

/// The full engine state.
pub struct AppState {
    pub history: HistoryStore,
    pub targets: Vec<String>,
    pub primary_target: String,
    pub notification_threshold_ms: u32,
    pub gate: NotificationGate,
    pub display_mode: DisplayMode,
    pub last_render: Option<TrayRenderState>,
    pub sites: SiteMonitor,
    pub tracker: NetworkIdentityTracker,
    pub vpn_settings: VpnSettings,
    pub ping_interval_secs: u32,
}

impl AppState {
    /// Whether `t` is a monitored target.
    pub open spec fn spec_has_target(&self, t: Seq<char>) -> bool {
        spec_target_index(self.targets@, t) is Some
    }

    /// Well-formedness: at least one target, all distinct, the primary a
    /// member, the interval within bounds, and every component sound.
    pub open spec fn wf(&self) -> bool {
        &&& self.history.wf()
        &&& self.history.cap == HISTORY_CAP
        &&& self.targets@.len() >= 1
        &&& forall|i: int, j: int|
            0 <= i < j < self.targets@.len() ==> self.targets@[i]@ != self.targets@[j]@
        &&& self.spec_has_target(self.primary_target@)
        &&& forall|i: int|
            0 <= i < self.targets@.len() ==> crate::codec::plain_str(
                (#[trigger] self.targets@[i])@,
            )
        &&& crate::codec::plain_str(self.primary_target@)
        &&& spec_interval_valid(self.ping_interval_secs)
        &&& self.sites.wf()
        &&& forall|i: int|
            0 <= i < self.sites.configs@.len() ==> crate::codec::site_cfg_wf(
                crate::codec::site_cfg_view(#[trigger] self.sites.configs@[i]),
            )
        &&& crate::codec::opt_plain(crate::codec::opt_view(self.vpn_settings.expected_country))
        &&& self.tracker.wf()
    }

    fn find_target(&self, t: &String) -> (r: Option<usize>)
        ensures
            match r {
                Some(i) => {
                    &&& i < self.targets@.len()
                    &&& self.targets@[i as int]@ == t@
                    &&& spec_target_index(self.targets@, t@) == Some(i as int)
                },
                None => spec_target_index(self.targets@, t@) is None,
            },
    {
        proof {
            assert(self.targets@.skip(0) =~= self.targets@);
        }
        let mut i: usize = 0;
        while i < self.targets.len()
            invariant
                0 <= i <= self.targets@.len(),
                forall|k: int| 0 <= k < i ==> self.targets@[k]@ != t@,
                spec_target_index(self.targets@, t@) == match spec_target_index(
                    self.targets@.skip(i as int),
                    t@,
                ) {
                    Some(j) => Some(j + i),
                    None => None::<int>,
                },
            decreases self.targets@.len() - i,
        {
            if self.targets[i] == *t {
                proof {
                    assert(self.targets@.skip(i as int)[0] == self.targets@[i as int]);
                }
                return Some(i);
            }
            proof {
                assert(self.targets@.skip(i as int)[0] == self.targets@[i as int]);
                assert(self.targets@.skip(i as int).drop_first() =~= self.targets@.skip(
                    i + 1 as int,
                ));
            }
            i = i + 1;
        }
        None
    }

    /// The latest sample for `target`, or for the primary target when no
    /// target is named.
    pub fn get_current_ping(&self, target: Option<&String>) -> (r: Option<PingResult>)
        ensures
            r == ({
                let t = match target {
                    Some(t) => t@,
                    None => self.primary_target@,
                };
                match self.history.spec_find(t) {
                    Some(s) => if s.len() == 0 {
                        None::<PingResult>
                    } else {
                        Some(s.last())
                    },
                    None => None::<PingResult>,
                }
            }),
    {
        match target {
            Some(t) => self.history.latest_of(t),
            None => self.history.latest_of(&self.primary_target),
        }
    }

    /// The stored history for `target` (default primary), oldest first.
    pub fn get_ping_history(&self, target: Option<&String>) -> (r: Vec<PingResult>)
        ensures
            r@ == ({
                let t = match target {
                    Some(t) => t@,
                    None => self.primary_target@,
                };
                match self.history.spec_find(t) {
                    Some(s) => s,
                    None => Seq::<PingResult>::empty(),
                }
            }),
    {
        match target {
            Some(t) => self.history.samples_of(t),
            None => self.history.samples_of(&self.primary_target),
        }
    }

    /// The monitored targets, in order.
    pub fn get_targets(&self) -> (r: Vec<String>)
        ensures
            r@ == self.targets@,
    {
        let mut out: Vec<String> = Vec::new();
        let mut i: usize = 0;
        while i < self.targets.len()
            invariant
                0 <= i <= self.targets@.len(),
                out@ =~= self.targets@.take(i as int),
            decreases self.targets@.len() - i,
        {
            out.push(self.targets[i].clone());
            proof {
                assert(out@ =~= self.targets@.take(i + 1 as int));
            }
            i = i + 1;
        }
        proof {
            assert(self.targets@.take(self.targets@.len() as int) =~= self.targets@);
        }
        out
    }

    /// Adds a target with a fresh, empty history; a host already
    /// monitored is left alone entirely. A string the persisted document
    /// cannot carry verbatim (a quote, backslash or control character) is
    /// no host and is rejected, changing nothing.
    pub fn add_target(&mut self, target: String) -> (r: Result<(), String>)
        requires
            old(self).wf(),
        ensures
            final(self).wf(),
            r is Ok <==> crate::codec::plain_str(target@),
            r is Err ==> *final(self) == *old(self) && r->Err_0@ == "Invalid target"@,
            r is Ok && old(self).spec_has_target(target@) ==> *final(self) == *old(self),
            r is Ok && !old(self).spec_has_target(target@) ==> {
                &&& final(self).targets@ == old(self).targets@.push(target)
                &&& final(self).history.spec_find(target@) == Some(Seq::<PingResult>::empty())
                &&& final(self).primary_target == old(self).primary_target
            },
            forall|t: Seq<char>|
                t != target@ ==> final(self).history.spec_find(t) == old(self).history.spec_find(
                    t,
                ),
    {
        if !crate::codec::is_plain_str(target.as_str()) {
            return Err(error_text("Invalid target"));
        }
        if self.find_target(&target).is_none() {
            proof {
                lemma_absent_target(self.targets@, target@);
                lemma_target_index_push(self.targets@, target, self.primary_target@);
            }
            self.history.remove_target(&target);
            self.history.ensure_target(&target);
            self.targets.push(target);
            proof {
                assert forall|i: int|
                    0 <= i < self.targets@.len() implies crate::codec::plain_str(
                    (#[trigger] self.targets@[i])@,
                ) by {
                    if i < old(self).targets@.len() {
                        assert(self.targets@[i] == old(self).targets@[i]);
                    }
                }
            }
        }
        Ok(())
    }

    /// Removes a target. Removing the last target is rejected and leaves
    /// the state unchanged; removing the primary target reassigns the
    /// primary to the first remaining member; removing any other member
    /// leaves the primary unchanged. The target's history goes with it.
    pub fn remove_target(&mut self, target: &String) -> (r: Result<(), String>)
        requires
            old(self).wf(),
        ensures
            final(self).wf(),
            r is Err <==> old(self).targets@.len() <= 1,
            r is Err ==> *final(self) == *old(self) && r->Err_0@ == "Cannot remove the last target"@,
            r is Ok ==> match spec_target_index(old(self).targets@, target@) {
                None => final(self).targets@ == old(self).targets@ && final(self).primary_target
                    == old(self).primary_target,
                Some(i) => {
                    &&& final(self).targets@ == old(self).targets@.remove(i)
                    &&& (old(self).primary_target@ != target@ ==> final(self).primary_target == old(
                        self,
                    ).primary_target)
                    &&& (old(self).primary_target@ == target@ ==> final(self).primary_target
                        == final(self).targets@[0])
                },
            },
            r is Ok ==> final(self).history.spec_find(target@) is None && (forall|t: Seq<char>|
                t != target@ ==> final(self).history.spec_find(t) == old(self).history.spec_find(
                    t,
                )),
    {
        if self.targets.len() <= 1 {
            return Err(error_text("Cannot remove the last target"));
        }
        match self.find_target(target) {
            None => {
                self.history.remove_target(target);
                proof {
                    lemma_absent_target(old(self).targets@, target@);
                }
                Ok(())
            },
            Some(i) => {
                proof {
                    lemma_target_index_remove(self.targets@, i as int, target@);
                }
                self.targets.remove(i);
                self.history.remove_target(target);
                let same = self.primary_target == *target;
                if same {
                    self.primary_target = self.targets[0].clone();
                } else {
                    proof {
                        lemma_member_survives_remove(
                            old(self).targets@,
                            i as int,
                            self.primary_target@,
                        );
                    }
                }
                Ok(())
            },
        }
    }

    /// Makes `target` primary. Rejected when it is not a member.
    pub fn set_primary_target(&mut self, target: &String) -> (r: Result<(), String>)
        requires
            old(self).wf(),
        ensures
            final(self).wf(),
            r is Ok <==> old(self).spec_has_target(target@),
            r is Err ==> *final(self) == *old(self) && r->Err_0@ == "Target not found"@,
            r is Ok ==> final(self).primary_target@ == target@ && final(self).targets@ == old(
                self,
            ).targets@ && final(self).history == old(self).history,
    {
        if self.find_target(target).is_none() {
            return Err(error_text("Target not found"));
        }
        self.primary_target = target.clone();
        Ok(())
    }

    /// Sets the latency above which the high-latency alert is considered.
    pub fn set_notification_threshold(&mut self, threshold_ms: u32)
        requires
            old(self).wf(),
        ensures
            final(self).wf(),
            *final(self) == (AppState { notification_threshold_ms: threshold_ms, ..*old(self) }),
    {
        self.notification_threshold_ms = threshold_ms;
    }

    /// The primary target, the threshold, and the display mode's wire
    /// name.
    pub fn get_settings(&self) -> (r: (String, u32, String))
        ensures
            r.0@ == self.primary_target@,
            r.1 == self.notification_threshold_ms,
            r.2@ == spec_mode_name(self.display_mode),
    {
        let mode = mode_name(self.display_mode);
        (self.primary_target.clone(), self.notification_threshold_ms, mode)
    }

    /// Switches the display mode by its wire name and returns the tray
    /// state to render now for the primary target's latest sample. An
    /// unknown name is rejected, changing nothing.
    pub fn set_display_mode(&mut self, mode: &str) -> (r: Result<TrayRenderState, String>)
        requires
            old(self).wf(),
        ensures
            final(self).wf(),
            r is Ok <==> spec_mode_of_name(mode@) is Some,
            r is Err ==> *final(self) == *old(self) && r->Err_0@ == "Invalid display mode"@,
            r is Ok ==> {
                &&& final(self).display_mode == spec_mode_of_name(mode@)->Some_0
                &&& *final(self) == AppState {
                    display_mode: spec_mode_of_name(mode@)->Some_0,
                    ..*old(self)
                }
                &&& r->Ok_0@ == spec_render(
                    spec_latest_latency(old(self)),
                    spec_mode_of_name(mode@)->Some_0,
                )
            },
    {
        let parsed = mode_of_name(mode);
        match parsed {
            None => Err(error_text("Invalid display mode")),
            Some(m) => {
                self.display_mode = m;
                let latest = self.history.latest_of(&self.primary_target);
                let latency = match latest {
                    Some(p) => p.latency_ms,
                    None => None,
                };
                Ok(render(latency, m))
            },
        }
    }

    /// Windowed statistics for `target` (default primary) over the last
    /// `minutes` (default 5) before `now_ms`.
    pub fn get_statistics(
        &self,
        target: Option<&String>,
        minutes: Option<u32>,
        now_ms: u64,
    ) -> (r: PingStatistics)
        ensures
            r == ({
                let t = match target {
                    Some(t) => t@,
                    None => self.primary_target@,
                };
                let m = match minutes {
                    Some(m) => m,
                    None => 5u32,
                };
                spec_statistics(
                    match self.history.spec_find(t) {
                        Some(s) => s,
                        None => Seq::<PingResult>::empty(),
                    },
                    now_ms - m * 60_000,
                )
            }),
    {
        let m = match minutes {
            Some(m) => m,
            None => 5,
        };
        match target {
            Some(t) => self.history.stats(t, now_ms, m),
            None => self.history.stats(&self.primary_target, now_ms, m),
        }
    }

    /// Sets the probe interval; values outside 5 to 120 seconds are
    /// rejected and change nothing.
    pub fn set_ping_interval(&mut self, secs: u32) -> (r: Result<(), String>)
        requires
            old(self).wf(),
        ensures
            final(self).wf(),
            r is Ok <==> spec_interval_valid(secs),
            r is Err ==> *final(self) == *old(self) && r->Err_0@
                == "Ping interval must be between 5 and 120 seconds"@,
            r is Ok ==> *final(self) == (AppState { ping_interval_secs: secs, ..*old(self) }),
    {
        if !interval_valid(secs) {
            return Err(error_text("Ping interval must be between 5 and 120 seconds"));
        }
        self.ping_interval_secs = secs;
        Ok(())
    }

    pub fn get_ping_interval(&self) -> (r: u32)
        ensures
            r == self.ping_interval_secs,
    {
        self.ping_interval_secs
    }

    /// Replaces the VPN watch settings. An expected country the
    /// persisted document cannot carry verbatim is rejected.
    pub fn set_vpn_settings(&mut self, settings: VpnSettings) -> (r: Result<(), String>)
        requires
            old(self).wf(),
        ensures
            final(self).wf(),
            r is Ok <==> crate::codec::opt_plain(crate::codec::opt_view(settings.expected_country)),
            r is Err ==> *final(self) == *old(self) && r->Err_0@ == "Invalid VPN settings"@,
            r is Ok ==> *final(self) == (AppState { vpn_settings: settings, ..*old(self) }),
    {
        if !crate::codec::is_opt_plain(&settings.expected_country) {
            return Err(error_text("Invalid VPN settings"));
        }
        self.vpn_settings = settings;
        Ok(())
    }

    /// Adds a site monitor. Rejected, changing nothing, when its URL or
    /// name cannot be carried verbatim by the persisted document, when
    /// the URL is already monitored, or when the cap is reached.
    pub fn add_site_monitor(&mut self, cfg: crate::site::SiteMonitorConfig) -> (r: Result<
        (),
        String,
    >)
        requires
            old(self).wf(),
        ensures
            final(self).wf(),
            r is Ok <==> crate::codec::site_cfg_wf(crate::codec::site_cfg_view(cfg)) && old(
                self,
            ).sites.spec_find_config(cfg.url@) is None && old(self).sites.configs@.len()
                < crate::site::SITE_MONITOR_CAP,
            r is Ok ==> final(self).sites.configs@ == old(self).sites.configs@.push(cfg)
                && *final(self) == (AppState { sites: final(self).sites, ..*old(self) }),
            r is Err ==> *final(self) == *old(self),
            !crate::codec::site_cfg_wf(crate::codec::site_cfg_view(cfg)) ==> r is Err
                && r->Err_0@ == "Invalid site monitor"@,
            (crate::codec::site_cfg_wf(crate::codec::site_cfg_view(cfg)) && old(
                self,
            ).sites.spec_find_config(cfg.url@) is Some) ==> r is Err && r->Err_0@
                == "Site already monitored"@,
            (crate::codec::site_cfg_wf(crate::codec::site_cfg_view(cfg)) && old(
                self,
            ).sites.spec_find_config(cfg.url@) is None && old(self).sites.configs@.len()
                >= crate::site::SITE_MONITOR_CAP) ==> r is Err && r->Err_0@
                == "Too many site monitors"@,
    {
        let url_plain = crate::codec::is_plain_str(cfg.url.as_str());
        let name_plain = crate::codec::is_opt_plain(&cfg.name);
        if !(url_plain && name_plain) {
            return Err(error_text("Invalid site monitor"));
        }
        match self.sites.add_monitor(cfg) {
            Ok(()) => {
                proof {
                    assert forall|i: int|
                        0 <= i < self.sites.configs@.len() implies crate::codec::site_cfg_wf(
                        crate::codec::site_cfg_view(#[trigger] self.sites.configs@[i]),
                    ) by {
                        if i < old(self).sites.configs@.len() {
                            assert(self.sites.configs@[i] == old(self).sites.configs@[i]);
                        }
                    }
                }
                Ok(())
            },
            Err(crate::site::SiteMonitorError::DuplicateUrl) => Err(
                error_text("Site already monitored"),
            ),
            Err(_) => Err(error_text("Too many site monitors")),
        }
    }

    /// Removes the site monitor for `url`, with its status. Rejected when
    /// the URL is not monitored.
    pub fn remove_site_monitor(&mut self, url: &String) -> (r: Result<(), String>)
        requires
            old(self).wf(),
        ensures
            final(self).wf(),
            r is Ok <==> old(self).sites.spec_find_config(url@) is Some,
            r is Err ==> *final(self) == *old(self) && r->Err_0@ == "Site not monitored"@,
            r is Ok ==> final(self).sites.spec_find_config(url@) is None && *final(self)
                == (AppState { sites: final(self).sites, ..*old(self) }),
    {
        match self.sites.remove_monitor(url) {
            Ok(()) => {
                proof {
                    let j = choose|j: int|
                        0 <= j < old(self).sites.configs@.len() && old(
                            self,
                        ).sites.configs@[j].url@ == url@ && self.sites.configs@ == old(
                            self,
                        ).sites.configs@.remove(j);
                    assert forall|i: int|
                        0 <= i < self.sites.configs@.len() implies crate::codec::site_cfg_wf(
                        crate::codec::site_cfg_view(#[trigger] self.sites.configs@[i]),
                    ) by {
                        if i < j {
                            assert(self.sites.configs@[i] == old(self).sites.configs@[i]);
                        } else {
                            assert(self.sites.configs@[i] == old(self).sites.configs@[i + 1]);
                        }
                    }
                }
                Ok(())
            },
            Err(_) => Err(error_text("Site not monitored")),
        }
    }

    pub fn get_vpn_settings(&self) -> (r: VpnSettings)
        ensures
            r == self.vpn_settings,
    {
        self.vpn_settings.clone()
    }

    /// Stores one finished probe: appends the sample to the target's
    /// bounded history; for the primary target also reduces the tray
    /// state (reporting it exactly when it differs from the last render)
    /// and asks the high-latency gate when the measured latency exceeds
    /// the threshold.
    pub fn record_probe(&mut self, target: &String, sample: PingResult, now_ms: u64) -> (r:
        ProbeOutcome)
        requires
            old(self).wf(),
            crate::codec::plain_str(target@),
            sample.target@ == target@,
        ensures
            final(self).wf(),
            final(self).history.spec_find(target@) == Some(
                spec_append1(
                    match old(self).history.spec_find(target@) {
                        Some(s) => s,
                        None => Seq::<PingResult>::empty(),
                    },
                    sample,
                    HISTORY_CAP as nat,
                ),
            ),
            forall|t: Seq<char>|
                t != target@ ==> final(self).history.spec_find(t) == old(self).history.spec_find(
                    t,
                ),
            final(self).targets@ == old(self).targets@,
            final(self).primary_target == old(self).primary_target,
            final(self).notification_threshold_ms == old(self).notification_threshold_ms,
            final(self).display_mode == old(self).display_mode,
            final(self).sites == old(self).sites,
            final(self).tracker == old(self).tracker,
            final(self).vpn_settings == old(self).vpn_settings,
            final(self).ping_interval_secs == old(self).ping_interval_secs,
            r.notified == (target@ == old(self).primary_target@ && (match sample.latency_ms {
                Some(l) => l > old(self).notification_threshold_ms,
                None => false,
            }) && old(self).gate.spec_should_notify(NotifyCategory::HighLatency, now_ms)),
            r.notified ==> final(self).gate == old(self).gate.spec_with_sent(
                NotifyCategory::HighLatency,
                now_ms,
            ),
            !r.notified ==> final(self).gate == old(self).gate,
            target@ == old(self).primary_target@ ==> ({
                let fresh = spec_render(sample.latency_ms, old(self).display_mode);
                let changed = match old(self).last_render {
                    Some(prev) => prev@ != fresh,
                    None => true,
                };
                &&& (changed ==> r.render is Some && r.render->Some_0@ == fresh
                    && final(self).last_render is Some
                    && final(self).last_render->Some_0@ == fresh)
                &&& (!changed ==> r.render is None
                    && final(self).last_render == old(self).last_render)
            }),
            target@ != old(self).primary_target@ ==> (r.render is None
                && final(self).last_render == old(self).last_render),
    {
        let is_primary = *target == self.primary_target;
        let latency = sample.latency_ms;
        self.history.append(target, sample);
        let mut outcome = ProbeOutcome { render: None, notified: false };
        if is_primary {
            let fresh = render(latency, self.display_mode);
            let changed = match &self.last_render {
                Some(prev) => !same_render(prev, &fresh),
                None => true,
            };
            if changed {
                self.last_render = Some(fresh.clone());
                outcome.render = Some(fresh);
            }
            let over = match latency {
                Some(l) => l > self.notification_threshold_ms,
                None => false,
            };
            if over {
                outcome.notified = self.gate.check_and_record(
                    NotifyCategory::HighLatency,
                    now_ms,
                );
            }
        }
        outcome
    }

    /// The persisted image of the current state.
    pub fn snapshot(&self) -> (r: Snapshot)
        ensures
            r@.history == crate::codec::entries_view(self.history.entries@),
            r@.targets == crate::codec::strings_view(self.targets@),
            r@.primary_target == self.primary_target@,
            r@.notification_threshold_ms == self.notification_threshold_ms,
            r@.site_monitors == crate::codec::site_cfgs_view(self.sites.configs@),
            r@.vpn_settings == crate::codec::vpn_view(self.vpn_settings),
            r@.ping_interval_secs == self.ping_interval_secs,
            self.wf() ==> crate::codec::snapshot_wf(r@),
            self.wf() ==> spec_snapshot_view_ok(r@),
    {
        let mut history: Vec<TargetEntry> = Vec::new();
        let mut i: usize = 0;
        while i < self.history.entries.len()
            invariant
                0 <= i <= self.history.entries@.len(),
                crate::codec::entries_view(history@) =~= crate::codec::entries_view(
                    self.history.entries@.take(i as int),
                ),
            decreases self.history.entries@.len() - i,
        {
            let ghost before = history@;
            let cloned = self.history.entries[i].clone();
            let ghost cv = crate::codec::entry_view(cloned);
            proof {
                assert(cv == crate::codec::entry_view(self.history.entries@[i as int])) by {
                    assert(cloned.target@ == self.history.entries@[i as int].target@);
                    assert(cloned.samples@ == self.history.entries@[i as int].samples@);
                }
            }
            history.push(cloned);
            proof {
                let h2 = history@;
                let t2 = self.history.entries@.take(i + 1 as int);
                assert forall|k: int|
                    0 <= k < h2.len() implies crate::codec::entries_view(h2)[k]
                    == crate::codec::entries_view(t2)[k] by {
                    assert(crate::codec::entries_view(h2)[k] == crate::codec::entry_view(h2[k]));
                    assert(crate::codec::entries_view(t2)[k] == crate::codec::entry_view(t2[k]));
                    if k < i {
                        assert(h2[k] == before[k]);
                        assert(crate::codec::entries_view(before)[k] == crate::codec::entry_view(
                            before[k],
                        ));
                        assert(crate::codec::entries_view(self.history.entries@.take(i as int))[k]
                            == crate::codec::entry_view(
                            self.history.entries@.take(i as int)[k],
                        ));
                        assert(t2[k] == self.history.entries@.take(i as int)[k]);
                    } else {
                        assert(h2[k] == cloned);
                        assert(t2[k] == self.history.entries@[i as int]);
                    }
                }
                assert(crate::codec::entries_view(h2) =~= crate::codec::entries_view(t2));
            }
            i = i + 1;
        }
        proof {
            assert(self.history.entries@.take(self.history.entries@.len() as int)
                =~= self.history.entries@);
            assert(crate::codec::entries_view(history@) =~= crate::codec::entries_view(
                self.history.entries@,
            ));
        }
        let result = Snapshot {
            history,
            targets: self.get_targets(),
            primary_target: self.primary_target.clone(),
            notification_threshold_ms: self.notification_threshold_ms,
            site_monitors: self.sites.list_monitors(),
            vpn_settings: self.vpn_settings.clone(),
            ping_interval_secs: self.ping_interval_secs,
        };
        proof {
            if self.wf() {
                assert forall|i: int|
                    0 <= i < result@.history.len() implies crate::codec::entry_wf(
                    #[trigger] result@.history[i],
                ) by {
                    assert(result@.history[i] == crate::codec::entry_view(
                        self.history.entries@[i],
                    ));
                    assert(crate::codec::plain_str(self.history.entries@[i].target@));
                    assert forall|j: int|
                        0 <= j < result@.history[i].samples.len() implies crate::codec::sample_wf(
                        #[trigger] result@.history[i].samples[j],
                    ) by {
                        assert(result@.history[i].samples[j] == crate::codec::sample_view(
                            self.history.entries@[i].samples@[j],
                        ));
                        assert(self.history.entries@[i].samples@[j].target@
                            == self.history.entries@[i].target@);
                    }
                }
                assert forall|i: int|
                    0 <= i < result@.targets.len() implies crate::codec::plain_str(
                    #[trigger] result@.targets[i],
                ) by {
                    assert(result@.targets[i] == self.targets@[i]@);
                }
                assert forall|i: int|
                    0 <= i < result@.site_monitors.len() implies crate::codec::site_cfg_wf(
                    #[trigger] result@.site_monitors[i],
                ) by {
                    assert(result@.site_monitors[i] == crate::codec::site_cfg_view(
                        self.sites.configs@[i],
                    ));
                }
                lemma_view_index(self.targets@, self.primary_target@);
                assert forall|i: int, j: int|
                    0 <= i < j < result@.targets.len() implies result@.targets[i]
                    != result@.targets[j] by {
                    assert(result@.targets[i] == self.targets@[i]@);
                    assert(result@.targets[j] == self.targets@[j]@);
                }
                assert forall|i: int, j: int|
                    0 <= i < j < result@.site_monitors.len() implies result@.site_monitors[i].url
                    != result@.site_monitors[j].url by {
                    assert(result@.site_monitors[i] == crate::codec::site_cfg_view(
                        self.sites.configs@[i],
                    ));
                    assert(result@.site_monitors[j] == crate::codec::site_cfg_view(
                        self.sites.configs@[j],
                    ));
                }
                assert forall|i: int, j: int|
                    0 <= i < j < result@.history.len() implies result@.history[i].target
                    != result@.history[j].target by {
                    assert(result@.history[i] == crate::codec::entry_view(
                        self.history.entries@[i],
                    ));
                    assert(result@.history[j] == crate::codec::entry_view(
                        self.history.entries@[j],
                    ));
                }
                assert forall|i: int, j: int|
                    0 <= i < result@.history.len() && 0 <= j < result@.history[i].samples.len()
                    implies (#[trigger] result@.history[i].samples[j]).target
                    == result@.history[i].target by {
                    assert(result@.history[i] == crate::codec::entry_view(
                        self.history.entries@[i],
                    ));
                    assert(result@.history[i].samples[j] == crate::codec::sample_view(
                        self.history.entries@[i].samples@[j],
                    ));
                    assert(self.history.entries@[i].samples@[j].target@
                        == self.history.entries@[i].target@);
                }
                assert(spec_snapshot_view_ok(result@));
            }
        }
        result
    }
}

impl Default for AppState {
    /// The state a fresh install starts from: one default target that is
    /// also primary, a 400 ms threshold, icon-and-ping display, a 10 s
    /// probe interval, the identity watch off, and nothing recorded yet.
    fn default() -> (r: Self)
        ensures
            r.wf(),
            r.targets@.len() == 1,
            r.targets@[0]@ == default_target_chars(),
            r.primary_target@ == default_target_chars(),
            r.notification_threshold_ms == 400,
            r.display_mode == DisplayMode::IconAndPing,
            r.ping_interval_secs == DEFAULT_INTERVAL_SECS,
            r.history.spec_find(default_target_chars()) == Some(Seq::<PingResult>::empty()),
            r.gate.last_high_latency is None,
            r.last_render is None,
            spec_default_state(r),
    {
        let name = default_target();
        proof {
            assert(crate::codec::plain_str(default_target_chars()));
        }
        let mut history = HistoryStore::new(HISTORY_CAP);
        history.ensure_target(&name);
        let mut targets: Vec<String> = Vec::new();
        targets.push(name.clone());
        let result = AppState {
            history,
            targets,
            primary_target: name,
            notification_threshold_ms: 400,
            gate: NotificationGate::new(),
            display_mode: DisplayMode::IconAndPing,
            last_render: None,
            sites: SiteMonitor::new(),
            tracker: NetworkIdentityTracker::new(),
            vpn_settings: VpnSettings {
                enabled: false,
                check_interval_secs: 60,
                alert_on_country_change: true,
                alert_on_ip_change: true,
                expected_country: None,
            },
            ping_interval_secs: DEFAULT_INTERVAL_SECS,
        };
        proof {
            assert(crate::codec::strings_view(result.targets@) =~= seq![default_target_chars()]);
        }
        result
    }
}

/// The characters of the out-of-the-box target.
pub open spec fn default_target_chars() -> Seq<char> {
    seq!['1', '.', '1', '.', '1', '.', '1']
}

/// The out-of-the-box target.
pub fn default_target() -> (r: String)
    ensures
        r@ == default_target_chars(),
{
    proof {
        reveal_strlit("1.1.1.1");
        assert("1.1.1.1"@ =~= default_target_chars());
    }
    "1.1.1.1".to_owned()
}

/// An owned error message.
fn error_text(text: &str) -> (r: String)
    ensures
        r@ == text@,
{
    text.to_owned()
}

/// The wire name of a display mode.
pub open spec fn spec_mode_name(m: DisplayMode) -> Seq<char> {
    match m {
        DisplayMode::IconOnly => seq!['i', 'c', 'o', 'n', '_', 'o', 'n', 'l', 'y'],
        DisplayMode::IconAndPing => seq![
            'i',
            'c',
            'o',
            'n',
            '_',
            'a',
            'n',
            'd',
            '_',
            'p',
            'i',
            'n',
            'g',
        ],
        DisplayMode::PingOnly => seq!['p', 'i', 'n', 'g', '_', 'o', 'n', 'l', 'y'],
    }
}

/// The display mode a wire name denotes, if any.
pub open spec fn spec_mode_of_name(s: Seq<char>) -> Option<DisplayMode> {
    if s == spec_mode_name(DisplayMode::IconOnly) {
        Some(DisplayMode::IconOnly)
    } else if s == spec_mode_name(DisplayMode::IconAndPing) {
        Some(DisplayMode::IconAndPing)
    } else if s == spec_mode_name(DisplayMode::PingOnly) {
        Some(DisplayMode::PingOnly)
    } else {
        None
    }
}

pub fn mode_name(m: DisplayMode) -> (r: String)
    ensures
        r@ == spec_mode_name(m),
{
    proof {
        reveal_strlit("icon_only");
        reveal_strlit("icon_and_ping");
        reveal_strlit("ping_only");
        assert("icon_only"@ =~= spec_mode_name(DisplayMode::IconOnly));
        assert("icon_and_ping"@ =~= spec_mode_name(DisplayMode::IconAndPing));
        assert("ping_only"@ =~= spec_mode_name(DisplayMode::PingOnly));
    }
    match m {
        DisplayMode::IconOnly => "icon_only".to_owned(),
        DisplayMode::IconAndPing => "icon_and_ping".to_owned(),
        DisplayMode::PingOnly => "ping_only".to_owned(),
    }
}

pub fn mode_of_name(s: &str) -> (r: Option<DisplayMode>)
    ensures
        r == spec_mode_of_name(s@),
{
    proof {
        reveal_strlit("icon_only");
        reveal_strlit("icon_and_ping");
        reveal_strlit("ping_only");
        assert("icon_only"@ =~= spec_mode_name(DisplayMode::IconOnly));
        assert("icon_and_ping"@ =~= spec_mode_name(DisplayMode::IconAndPing));
        assert("ping_only"@ =~= spec_mode_name(DisplayMode::PingOnly));
    }
    let owned = s.to_owned();
    let icon_only: String = "icon_only".to_owned();
    let icon_and_ping: String = "icon_and_ping".to_owned();
    let ping_only: String = "ping_only".to_owned();
    if owned == icon_only {
        Some(DisplayMode::IconOnly)
    } else if owned == icon_and_ping {
        Some(DisplayMode::IconAndPing)
    } else if owned == ping_only {
        Some(DisplayMode::PingOnly)
    } else {
        None
    }
}

/// The latest measured latency of the primary target, if any sample
/// exists.
pub open spec fn spec_latest_latency(state: &AppState) -> Option<u32> {
    match state.history.spec_find(state.primary_target@) {
        Some(s) => if s.len() == 0 {
            None
        } else {
            s.last().latency_ms
        },
        None => None,
    }
}

/// Whether a decoded snapshot can be restored verbatim: at least one
/// target, all names and URLs distinct, the primary a member, the
/// interval within bounds, and at most the site cap.
pub open spec fn spec_snapshot_ok(snap: Snapshot) -> bool {
    &&& snap.targets@.len() >= 1
    &&& forall|i: int, j: int|
        0 <= i < j < snap.targets@.len() ==> snap.targets@[i]@ != snap.targets@[j]@
    &&& spec_target_index(snap.targets@, snap.primary_target@) is Some
    &&& spec_interval_valid(snap.ping_interval_secs)
    &&& snap.site_monitors@.len() <= crate::site::SITE_MONITOR_CAP
    &&& forall|i: int, j: int|
        0 <= i < j < snap.site_monitors@.len() ==> snap.site_monitors@[i].url@
            != snap.site_monitors@[j].url@
    &&& forall|i: int, j: int|
        0 <= i < j < snap.history@.len() ==> snap.history@[i].target@ != snap.history@[j].target@
    &&& forall|i: int|
        0 <= i < snap.targets@.len() ==> crate::codec::plain_str((#[trigger] snap.targets@[i])@)
    &&& crate::codec::plain_str(snap.primary_target@)
    &&& forall|i: int|
        0 <= i < snap.site_monitors@.len() ==> crate::codec::site_cfg_wf(
            crate::codec::site_cfg_view(#[trigger] snap.site_monitors@[i]),
        )
    &&& crate::codec::opt_plain(crate::codec::opt_view(snap.vpn_settings.expected_country))
    &&& forall|i: int|
        0 <= i < snap.history@.len() ==> crate::codec::plain_str(
            (#[trigger] snap.history@[i]).target@,
        )
    &&& forall|i: int, j: int|
        0 <= i < snap.history@.len() && 0 <= j < snap.history@[i].samples@.len() ==> (
        #[trigger] snap.history@[i].samples@[j]).target@ == snap.history@[i].target@
}

/// View-level first index of `t` among target names.
pub open spec fn spec_view_index(ts: Seq<Seq<char>>, t: Seq<char>) -> Option<int>
    decreases ts.len(),
{
    if ts.len() == 0 {
        None
    } else if ts[0] == t {
        Some(0)
    } else {
        match spec_view_index(ts.drop_first(), t) {
            Some(i) => Some(i + 1),
            None => None,
        }
    }
}

/// View-level lookup among history entries: the samples stored under `t`.
pub open spec fn spec_find_entry_v(
    es: Seq<crate::codec::EntryV>,
    t: Seq<char>,
) -> Option<Seq<crate::codec::SampleV>>
    decreases es.len(),
{
    if es.len() == 0 {
        None
    } else if es[0].target == t {
        Some(es[0].samples)
    } else {
        spec_find_entry_v(es.drop_first(), t)
    }
}

/// View-level day filter: the samples newer than `cutoff_ms`, in order.
pub open spec fn spec_keep_recent_v(
    s: Seq<crate::codec::SampleV>,
    cutoff_ms: int,
) -> Seq<crate::codec::SampleV>
    decreases s.len(),
{
    if s.len() == 0 {
        Seq::<crate::codec::SampleV>::empty()
    } else if s[0].timestamp_ms > cutoff_ms {
        seq![s[0]] + spec_keep_recent_v(s.drop_first(), cutoff_ms)
    } else {
        spec_keep_recent_v(s.drop_first(), cutoff_ms)
    }
}

/// `spec_snapshot_ok`, stated over the snapshot's mathematical image:
/// what a decoded document must satisfy to be restored verbatim.
pub open spec fn spec_snapshot_view_ok(v: crate::codec::SnapshotV) -> bool {
    &&& v.targets.len() >= 1
    &&& forall|i: int, j: int| 0 <= i < j < v.targets.len() ==> v.targets[i] != v.targets[j]
    &&& spec_view_index(v.targets, v.primary_target) is Some
    &&& spec_interval_valid(v.ping_interval_secs)
    &&& v.site_monitors.len() <= crate::site::SITE_MONITOR_CAP
    &&& forall|i: int, j: int|
        0 <= i < j < v.site_monitors.len() ==> v.site_monitors[i].url != v.site_monitors[j].url
    &&& forall|i: int, j: int|
        0 <= i < j < v.history.len() ==> v.history[i].target != v.history[j].target
    &&& crate::codec::strings_wf(v.targets)
    &&& crate::codec::plain_str(v.primary_target)
    &&& crate::codec::site_cfgs_wf(v.site_monitors)
    &&& crate::codec::opt_plain(v.vpn_settings.expected_country)
    &&& forall|i: int|
        0 <= i < v.history.len() ==> crate::codec::plain_str((#[trigger] v.history[i]).target)
    &&& forall|i: int, j: int|
        0 <= i < v.history.len() && 0 <= j < v.history[i].samples.len() ==> (
        #[trigger] v.history[i].samples[j]).target == v.history[i].target
}

/// What the loader owes when it restores the snapshot image `v` at
/// `now_ms`: the settings verbatim, a fresh display mode, and each
/// target's history filtered to the trailing day and bounded by the
/// history capacity.
pub open spec fn spec_restored(v: crate::codec::SnapshotV, now_ms: u64, r: AppState) -> bool {
    &&& crate::codec::strings_view(r.targets@) == v.targets
    &&& r.primary_target@ == v.primary_target
    &&& r.notification_threshold_ms == v.notification_threshold_ms
    &&& crate::codec::vpn_view(r.vpn_settings) == v.vpn_settings
    &&& r.ping_interval_secs == v.ping_interval_secs
    &&& crate::codec::site_cfgs_view(r.sites.configs@) == v.site_monitors
    &&& r.display_mode == DisplayMode::IconAndPing
    &&& forall|t: Seq<char>|
        #![trigger r.history.spec_find(t)]
        (match r.history.spec_find(t) {
            Some(s) => Some(crate::codec::samples_view(s)),
            None => None::<Seq<crate::codec::SampleV>>,
        }) == (match spec_find_entry_v(v.history, t) {
            Some(sv) => Some(
                keep_last(spec_keep_recent_v(sv, now_ms - DAY_MS), HISTORY_CAP as nat),
            ),
            None => None::<Seq<crate::codec::SampleV>>,
        })
}

/// The VPN settings a fresh install starts from, as an image.
pub open spec fn default_vpn_view() -> crate::codec::VpnV {
    crate::codec::VpnV {
        enabled: false,
        check_interval_secs: 60,
        alert_on_country_change: true,
        alert_on_ip_change: true,
        expected_country: None,
    }
}

/// The observable shape of the out-of-the-box state: one default target
/// that is primary with an empty history, a 400 ms threshold,
/// icon-and-ping display, the default interval, no site monitors and the
/// identity watch off.
pub open spec fn spec_default_state(r: AppState) -> bool {
    &&& crate::codec::strings_view(r.targets@) == seq![default_target_chars()]
    &&& r.primary_target@ == default_target_chars()
    &&& r.notification_threshold_ms == 400
    &&& r.display_mode == DisplayMode::IconAndPing
    &&& r.ping_interval_secs == DEFAULT_INTERVAL_SECS
    &&& r.history.spec_find(default_target_chars()) == Some(Seq::<PingResult>::empty())
    &&& crate::codec::vpn_view(r.vpn_settings) == default_vpn_view()
    &&& r.sites.configs@.len() == 0
}

/// The implicit target of a legacy document: the target of its first
/// day-fresh sample, or the out-of-the-box default when none survives.
pub open spec fn spec_first_fresh_target(
    xs: Seq<crate::codec::SampleV>,
    cutoff_ms: int,
) -> Seq<char>
    decreases xs.len(),
{
    if xs.len() == 0 {
        default_target_chars()
    } else if xs[0].timestamp_ms > cutoff_ms {
        xs[0].target
    } else {
        spec_first_fresh_target(xs.drop_first(), cutoff_ms)
    }
}

/// The samples of a migrated legacy array, re-keyed under the single
/// inferred target (the store keys every sample like its entry).
pub open spec fn spec_rekeyed(
    xs: Seq<crate::codec::SampleV>,
    t: Seq<char>,
) -> Seq<crate::codec::SampleV> {
    xs.map_values(|x: crate::codec::SampleV| crate::codec::SampleV { target: t, ..x })
}

/// The single-target snapshot a legacy bare sample array migrates into.
pub open spec fn spec_legacy_snapshot(
    xs: Seq<crate::codec::SampleV>,
    now_ms: u64,
) -> crate::codec::SnapshotV {
    let t = spec_first_fresh_target(xs, now_ms - DAY_MS);
    crate::codec::SnapshotV {
        history: seq![crate::codec::EntryV { target: t, samples: spec_rekeyed(xs, t) }],
        targets: seq![t],
        primary_target: t,
        notification_threshold_ms: 400,
        site_monitors: Seq::<crate::codec::SiteCfgV>::empty(),
        vpn_settings: default_vpn_view(),
        ping_interval_secs: DEFAULT_INTERVAL_SECS,
    }
}

/// What the loader owes for a document that is no full snapshot: the
/// legacy migration when it is a bare sample array, the default
/// otherwise.
pub open spec fn spec_load_fallback(doc: Seq<char>, now_ms: u64, r: AppState) -> bool {
    match crate::decode::sp_samples(doc) {
        Some((xs, n)) => if n == doc.len() {
            if spec_snapshot_view_ok(spec_legacy_snapshot(xs, now_ms)) {
                spec_restored(spec_legacy_snapshot(xs, now_ms), now_ms, r)
            } else {
                spec_default_state(r)
            }
        } else {
            spec_default_state(r)
        },
        None => spec_default_state(r),
    }
}

proof fn lemma_view_index(ts: Seq<String>, t: Seq<char>)
    ensures
        spec_view_index(crate::codec::strings_view(ts), t) == spec_target_index(ts, t),
    decreases ts.len(),
{
    if ts.len() > 0 {
        assert(crate::codec::strings_view(ts)[0] == ts[0]@);
        assert(crate::codec::strings_view(ts).drop_first() =~= crate::codec::strings_view(
            ts.drop_first(),
        ));
        lemma_view_index(ts.drop_first(), t);
    }
}

proof fn lemma_find_entry_view(es: Seq<TargetEntry>, t: Seq<char>)
    ensures
        spec_find_entry_v(crate::codec::entries_view(es), t) == match HistoryStore::spec_find_in(
            es,
            t,
        ) {
            Some(s) => Some(crate::codec::samples_view(s)),
            None => None::<Seq<crate::codec::SampleV>>,
        },
    decreases es.len(),
{
    if es.len() > 0 {
        assert(crate::codec::entries_view(es)[0] == crate::codec::entry_view(es[0]));
        assert(crate::codec::entries_view(es).drop_first() =~= crate::codec::entries_view(
            es.drop_first(),
        ));
        lemma_find_entry_view(es.drop_first(), t);
    }
}

proof fn lemma_keep_recent_view(s: Seq<PingResult>, cutoff: int)
    ensures
        crate::codec::samples_view(spec_keep_recent(s, cutoff)) == spec_keep_recent_v(
            crate::codec::samples_view(s),
            cutoff,
        ),
    decreases s.len(),
{
    if s.len() > 0 {
        assert(crate::codec::samples_view(s)[0] == crate::codec::sample_view(s[0]));
        assert(crate::codec::samples_view(s).drop_first() =~= crate::codec::samples_view(
            s.drop_first(),
        ));
        lemma_keep_recent_view(s.drop_first(), cutoff);
        if s[0].timestamp_ms > cutoff {
            assert(crate::codec::samples_view(seq![s[0]] + spec_keep_recent(s.drop_first(), cutoff))
                =~= seq![crate::codec::sample_view(s[0])] + crate::codec::samples_view(
                spec_keep_recent(s.drop_first(), cutoff),
            ));
        }
    }
}

proof fn lemma_keep_last_samples_view(s: Seq<PingResult>, cap: nat)
    ensures
        crate::codec::samples_view(keep_last(s, cap)) == keep_last(
            crate::codec::samples_view(s),
            cap,
        ),
{
    if s.len() > cap {
        assert(crate::codec::samples_view(s.skip(s.len() - cap)) =~= crate::codec::samples_view(
            s,
        ).skip(s.len() - cap));
    }
}

/// The two statements of snapshot validity agree.
proof fn lemma_snapshot_ok_view(snap: &Snapshot)
    ensures
        spec_snapshot_ok(*snap) <==> spec_snapshot_view_ok(snap@),
{
    lemma_view_index(snap.targets@, snap.primary_target@);
    assert forall|i: int| 0 <= i < snap.targets@.len() implies #[trigger] snap@.targets[i]
        == snap.targets@[i]@ by {}
    assert forall|i: int|
        0 <= i < snap.site_monitors@.len() implies #[trigger] snap@.site_monitors[i]
        == crate::codec::site_cfg_view(snap.site_monitors@[i]) by {}
    assert forall|i: int| 0 <= i < snap.history@.len() implies #[trigger] snap@.history[i]
        == crate::codec::entry_view(snap.history@[i]) by {}
    assert forall|i: int, j: int|
        0 <= i < snap.history@.len() && 0 <= j < snap.history@[i].samples@.len() implies (
    #[trigger] snap@.history[i].samples[j]) == crate::codec::sample_view(
        snap.history@[i].samples@[j],
    ) by {
        assert(snap@.history[i] == crate::codec::entry_view(snap.history@[i]));
    }
    if spec_snapshot_ok(*snap) {
        assert forall|i: int, j: int|
            0 <= i < j < snap@.targets.len() implies snap@.targets[i] != snap@.targets[j] by {}
        assert(crate::codec::strings_wf(snap@.targets)) by {
            assert forall|i: int|
                0 <= i < snap@.targets.len() implies crate::codec::plain_str(
                #[trigger] snap@.targets[i],
            ) by {}
        }
        assert forall|i: int, j: int|
            0 <= i < j < snap@.site_monitors.len() implies snap@.site_monitors[i].url
            != snap@.site_monitors[j].url by {}
        assert(crate::codec::site_cfgs_wf(snap@.site_monitors)) by {
            assert forall|i: int|
                0 <= i < snap@.site_monitors.len() implies crate::codec::site_cfg_wf(
                #[trigger] snap@.site_monitors[i],
            ) by {}
        }
        assert forall|i: int, j: int|
            0 <= i < j < snap@.history.len() implies snap@.history[i].target
            != snap@.history[j].target by {}
        assert forall|i: int|
            0 <= i < snap@.history.len() implies crate::codec::plain_str(
            (#[trigger] snap@.history[i]).target,
        ) by {}
        assert forall|i: int, j: int|
            0 <= i < snap@.history.len() && 0 <= j < snap@.history[i].samples.len() implies (
        #[trigger] snap@.history[i].samples[j]).target == snap@.history[i].target by {
            assert(snap@.history[i] == crate::codec::entry_view(snap.history@[i]));
            assert(snap@.history[i].samples.len() == snap.history@[i].samples@.len());
        }
        assert(spec_snapshot_view_ok(snap@));
    }
    if spec_snapshot_view_ok(snap@) {
        assert forall|i: int, j: int|
            0 <= i < j < snap.targets@.len() implies snap.targets@[i]@ != snap.targets@[j]@ by {
            assert(snap@.targets[i] == snap.targets@[i]@);
            assert(snap@.targets[j] == snap.targets@[j]@);
        }
        assert forall|i: int|
            0 <= i < snap.targets@.len() implies crate::codec::plain_str(
            (#[trigger] snap.targets@[i])@,
        ) by {
            assert(snap@.targets[i] == snap.targets@[i]@);
            assert(crate::codec::plain_str(snap@.targets[i]));
        }
        assert forall|i: int, j: int|
            0 <= i < j < snap.site_monitors@.len() implies snap.site_monitors@[i].url@
            != snap.site_monitors@[j].url@ by {
            assert(snap@.site_monitors[i] == crate::codec::site_cfg_view(snap.site_monitors@[i]));
            assert(snap@.site_monitors[j] == crate::codec::site_cfg_view(snap.site_monitors@[j]));
        }
        assert forall|i: int|
            0 <= i < snap.site_monitors@.len() implies crate::codec::site_cfg_wf(
            crate::codec::site_cfg_view(#[trigger] snap.site_monitors@[i]),
        ) by {
            assert(snap@.site_monitors[i] == crate::codec::site_cfg_view(snap.site_monitors@[i]));
            assert(crate::codec::site_cfg_wf(snap@.site_monitors[i]));
        }
        assert forall|i: int, j: int|
            0 <= i < j < snap.history@.len() implies snap.history@[i].target@
            != snap.history@[j].target@ by {
            assert(snap@.history[i] == crate::codec::entry_view(snap.history@[i]));
            assert(snap@.history[j] == crate::codec::entry_view(snap.history@[j]));
        }
        assert forall|i: int|
            0 <= i < snap.history@.len() implies crate::codec::plain_str(
            (#[trigger] snap.history@[i]).target@,
        ) by {
            assert(snap@.history[i] == crate::codec::entry_view(snap.history@[i]));
            assert(crate::codec::plain_str(snap@.history[i].target));
        }
        assert forall|i: int, j: int|
            0 <= i < snap.history@.len() && 0 <= j < snap.history@[i].samples@.len() implies (
        #[trigger] snap.history@[i].samples@[j]).target@ == snap.history@[i].target@ by {
            assert(snap@.history[i] == crate::codec::entry_view(snap.history@[i]));
            assert(snap@.history[i].samples[j] == crate::codec::sample_view(
                snap.history@[i].samples@[j],
            ));
        }
        assert(spec_snapshot_ok(*snap));
    }
}

/// Extending the filtered prefix by one sample.
proof fn lemma_keep_recent_take_step(s: Seq<PingResult>, cutoff: int, i: int)
    requires
        0 <= i < s.len(),
    ensures
        spec_keep_recent(s.take(i + 1), cutoff) == if s[i].timestamp_ms > cutoff {
            spec_keep_recent(s.take(i), cutoff).push(s[i])
        } else {
            spec_keep_recent(s.take(i), cutoff)
        },
{
    lemma_keep_recent_snoc(s.take(i + 1), cutoff);
    assert(s.take(i + 1).drop_last() =~= s.take(i));
    assert(s.take(i + 1).last() == s[i]);
}

proof fn lemma_keep_recent_snoc(s: Seq<PingResult>, cutoff: int)
    requires
        s.len() > 0,
    ensures
        spec_keep_recent(s, cutoff) == if s.last().timestamp_ms > cutoff {
            spec_keep_recent(s.drop_last(), cutoff).push(s.last())
        } else {
            spec_keep_recent(s.drop_last(), cutoff)
        },
    decreases s.len(),
{
    if s.len() == 1 {
        assert(s.drop_last() =~= Seq::<PingResult>::empty());
        assert(s.drop_first() =~= Seq::<PingResult>::empty());
        if s.last().timestamp_ms > cutoff {
            assert(spec_keep_recent(s, cutoff) =~= spec_keep_recent(
                s.drop_last(),
                cutoff,
            ).push(s.last()));
        }
    } else {
        lemma_keep_recent_snoc(s.drop_first(), cutoff);
        assert(s.drop_first().drop_last() =~= s.drop_last().drop_first());
        assert(s.drop_first().last() == s.last());
        assert(s.drop_last()[0] == s[0]);
        if s[0].timestamp_ms > cutoff {
            if s.last().timestamp_ms > cutoff {
                assert(seq![s[0]] + spec_keep_recent(s.drop_last().drop_first(), cutoff).push(
                    s.last(),
                ) =~= (seq![s[0]] + spec_keep_recent(s.drop_last().drop_first(), cutoff)).push(
                    s.last(),
                ));
            }
        }
    }
}

/// Appending one more sample after a run of bounded appends.
proof fn lemma_append_seq_snoc(s: Seq<PingResult>, ps: Seq<PingResult>, p: PingResult, cap: nat)
    ensures
        spec_append_seq(s, ps.push(p), cap) == spec_append1(spec_append_seq(s, ps, cap), p, cap),
    decreases ps.len(),
{
    if ps.len() == 0 {
        assert(ps.push(p)[0] == p);
        assert(ps.push(p).drop_first() =~= Seq::<PingResult>::empty());
        assert(spec_append_seq(s, ps.push(p), cap) == spec_append_seq(
            spec_append1(s, p, cap),
            Seq::<PingResult>::empty(),
            cap,
        ));
        assert(spec_append_seq(s, ps, cap) == s);
    } else {
        assert(ps.push(p)[0] == ps[0]);
        assert(ps.push(p).drop_first() =~= ps.drop_first().push(p));
        lemma_append_seq_snoc(spec_append1(s, ps[0], cap), ps.drop_first(), p, cap);
    }
}

/// Restores a valid snapshot: settings verbatim, each target's history
/// filtered to samples newer than `now_ms` minus a day and bounded by
/// the history capacity.
pub fn restore_snapshot(snap: &Snapshot, now_ms: u64) -> (r: AppState)
    requires
        spec_snapshot_ok(*snap),
    ensures
        r.wf(),
        r.targets@ == snap.targets@,
        r.primary_target == snap.primary_target,
        r.notification_threshold_ms == snap.notification_threshold_ms,
        r.vpn_settings == snap.vpn_settings,
        r.ping_interval_secs == snap.ping_interval_secs,
        r.sites.configs@ == snap.site_monitors@,
        r.display_mode == DisplayMode::IconAndPing,
        forall|t: Seq<char>|
            r.history.spec_find(t) == match HistoryStore::spec_find_in(snap.history@, t) {
                Some(s) => Some(
                    keep_last(spec_keep_recent(s, now_ms - DAY_MS), HISTORY_CAP as nat),
                ),
                None => None::<Seq<PingResult>>,
            },
        spec_restored(snap@, now_ms, r),
{
    let ghost cutoff: int = now_ms - DAY_MS;
    let mut history = HistoryStore::new(HISTORY_CAP);
    let mut e: usize = 0;
    while e < snap.history.len()
        invariant
            0 <= e <= snap.history@.len(),
            history.wf(),
            history.cap == HISTORY_CAP,
            cutoff == now_ms - DAY_MS,
            forall|i: int, j: int|
                0 <= i < j < snap.history@.len() ==> snap.history@[i].target@
                    != snap.history@[j].target@,
            forall|t: Seq<char>|
                history.spec_find(t) == match HistoryStore::spec_find_in(
                    snap.history@.take(e as int),
                    t,
                ) {
                    Some(s) => Some(keep_last(spec_keep_recent(s, cutoff), HISTORY_CAP as nat)),
                    None => None::<Seq<PingResult>>,
                },
        decreases snap.history@.len() - e,
    {
        let ghost pre = history;
        let entry = &snap.history[e];
        proof {
            assert forall|i: int|
                0 <= i < e implies (#[trigger] snap.history@.take(e as int)[i]).target@
                != entry.target@ by {
                assert(snap.history@.take(e as int)[i] == snap.history@[i]);
                assert(snap.history@[i].target@ != snap.history@[e as int].target@);
            }
            HistoryStore::lemma_find_none_when_absent(
                snap.history@.take(e as int),
                entry.target@,
            );
            assert(crate::codec::plain_str(snap.history@[e as int].target@));
        }
        history.ensure_target(&entry.target);
        let mut j: usize = 0;
        while j < entry.samples.len()
            invariant
                0 <= j <= entry.samples@.len(),
                history.wf(),
                history.cap == HISTORY_CAP,
                cutoff == now_ms - DAY_MS,
                *entry == snap.history@[e as int],
                e < snap.history@.len(),
                history.spec_find(entry.target@) == Some(
                    spec_append_seq(
                        Seq::<PingResult>::empty(),
                        spec_keep_recent(entry.samples@.take(j as int), cutoff),
                        HISTORY_CAP as nat,
                    ),
                ),
                forall|t: Seq<char>|
                    t != entry.target@ ==> history.spec_find(t) == pre.spec_find(t),
            decreases entry.samples@.len() - j,
        {
            let p = &entry.samples[j];
            let in_w = if DAY_MS > now_ms {
                true
            } else {
                p.timestamp_ms > now_ms - DAY_MS
            };
            proof {
                lemma_keep_recent_take_step(entry.samples@, cutoff, j as int);
            }
            if in_w {
                proof {
                    lemma_append_seq_snoc(
                        Seq::<PingResult>::empty(),
                        spec_keep_recent(entry.samples@.take(j as int), cutoff),
                        entry.samples@[j as int],
                        HISTORY_CAP as nat,
                    );
                    assert(crate::codec::plain_str(snap.history@[e as int].target@));
                    let ghost cur_entry = snap.history@[e as int];
                    assert(cur_entry.samples@[j as int].target@ == cur_entry.target@);
                }
                history.append(&entry.target, p.clone());
            }
            j = j + 1;
        }
        proof {
            assert(entry.samples@.take(entry.samples@.len() as int) =~= entry.samples@);
            lemma_append_seq_keeps_last(
                Seq::<PingResult>::empty(),
                spec_keep_recent(entry.samples@, cutoff),
                HISTORY_CAP as nat,
            );
            assert(snap.history@.take(e + 1 as int) =~= snap.history@.take(e as int).push(
                snap.history@[e as int],
            ));
            assert forall|t: Seq<char>|
                history.spec_find(t) == match HistoryStore::spec_find_in(
                    snap.history@.take(e + 1 as int),
                    t,
                ) {
                    Some(s) => Some(keep_last(spec_keep_recent(s, cutoff), HISTORY_CAP as nat)),
                    None => None::<Seq<PingResult>>,
                } by {
                HistoryStore::lemma_find_push(
                    snap.history@.take(e as int),
                    snap.history@[e as int],
                    t,
                );
            }
        }
        e = e + 1;
    }
    proof {
        assert(snap.history@.take(snap.history@.len() as int) =~= snap.history@);
    }
    let mut targets: Vec<String> = Vec::new();
    let mut i: usize = 0;
    while i < snap.targets.len()
        invariant
            0 <= i <= snap.targets@.len(),
            targets@ =~= snap.targets@.take(i as int),
        decreases snap.targets@.len() - i,
    {
        targets.push(snap.targets[i].clone());
        proof {
            assert(targets@ =~= snap.targets@.take(i + 1 as int));
        }
        i = i + 1;
    }
    proof {
        assert(snap.targets@.take(snap.targets@.len() as int) =~= snap.targets@);
        assert(targets@ =~= snap.targets@);
    }
    let mut sites = SiteMonitor::new();
    let mut k: usize = 0;
    while k < snap.site_monitors.len()
        invariant
            0 <= k <= snap.site_monitors@.len(),
            snap.site_monitors@.len() <= crate::site::SITE_MONITOR_CAP,
            forall|a: int, b: int|
                0 <= a < b < snap.site_monitors@.len() ==> snap.site_monitors@[a].url@
                    != snap.site_monitors@[b].url@,
            sites.wf(),
            sites.configs@ =~= snap.site_monitors@.take(k as int),
            sites.statuses@.len() == 0,
        decreases snap.site_monitors@.len() - k,
    {
        let cfg = snap.site_monitors[k].clone();
        proof {
            assert forall|a: int|
                0 <= a < k implies (#[trigger] snap.site_monitors@.take(k as int)[a]).url@
                != cfg.url@ by {
                assert(snap.site_monitors@.take(k as int)[a] == snap.site_monitors@[a]);
                assert(snap.site_monitors@[a].url@ != snap.site_monitors@[k as int].url@);
            }
            crate::site::lemma_config_absent_helper(snap.site_monitors@.take(k as int), cfg.url@);
        }
        let added = sites.add_monitor(cfg);
        proof {
            assert(added is Ok);
            assert(sites.configs@ =~= snap.site_monitors@.take(k + 1 as int));
        }
        k = k + 1;
    }
    proof {
        assert(snap.site_monitors@.take(snap.site_monitors@.len() as int)
            =~= snap.site_monitors@);
        assert(sites.configs@ =~= snap.site_monitors@);
    }
    let result = AppState {
        history,
        targets,
        primary_target: snap.primary_target.clone(),
        notification_threshold_ms: snap.notification_threshold_ms,
        gate: NotificationGate::new(),
        display_mode: DisplayMode::IconAndPing,
        last_render: None,
        sites,
        tracker: NetworkIdentityTracker::new(),
        vpn_settings: snap.vpn_settings.clone(),
        ping_interval_secs: snap.ping_interval_secs,
    };
    proof {
        assert(crate::codec::strings_view(result.targets@) == snap@.targets);
        assert(crate::codec::site_cfgs_view(result.sites.configs@) == snap@.site_monitors);
        assert forall|t: Seq<char>| #![trigger result.history.spec_find(t)]
            (match result.history.spec_find(t) {
                Some(s) => Some(crate::codec::samples_view(s)),
                None => None::<Seq<crate::codec::SampleV>>,
            }) == (match spec_find_entry_v(snap@.history, t) {
                Some(sv) => Some(
                    keep_last(spec_keep_recent_v(sv, now_ms - DAY_MS), HISTORY_CAP as nat),
                ),
                None => None::<Seq<crate::codec::SampleV>>,
            }) by {
            lemma_find_entry_view(snap.history@, t);
            match HistoryStore::spec_find_in(snap.history@, t) {
                Some(s) => {
                    lemma_keep_recent_view(s, now_ms - DAY_MS);
                    lemma_keep_last_samples_view(
                        spec_keep_recent(s, now_ms - DAY_MS),
                        HISTORY_CAP as nat,
                    );
                },
                None => {},
            }
        }
    }
    result
}

/// Executable form of `spec_snapshot_ok`.
pub fn snapshot_ok(snap: &Snapshot) -> (r: bool)
    ensures
        r == spec_snapshot_ok(*snap),
        r == spec_snapshot_view_ok(snap@),
{
    proof {
        lemma_snapshot_ok_view(snap);
    }
    if snap.targets.len() < 1 {
        return false;
    }
    if !strings_all_unique(&snap.targets) {
        return false;
    }
    if index_of_string(&snap.targets, &snap.primary_target).is_none() {
        return false;
    }
    if !interval_valid(snap.ping_interval_secs) {
        return false;
    }
    if snap.site_monitors.len() > crate::site::SITE_MONITOR_CAP {
        return false;
    }
    if !site_urls_unique(&snap.site_monitors) {
        return false;
    }
    if !entry_targets_unique(&snap.history) {
        return false;
    }
    if !all_targets_plain(&snap.targets) {
        return false;
    }
    if !crate::codec::is_plain_str(snap.primary_target.as_str()) {
        return false;
    }
    if !all_sites_plain(&snap.site_monitors) {
        return false;
    }
    if !crate::codec::is_opt_plain(&snap.vpn_settings.expected_country) {
        return false;
    }
    if !entries_keyed_plain(&snap.history) {
        return false;
    }
    true
}

fn all_targets_plain(v: &Vec<String>) -> (r: bool)
    ensures
        r == (forall|i: int|
            0 <= i < v@.len() ==> crate::codec::plain_str((#[trigger] v@[i])@)),
{
    let mut i: usize = 0;
    while i < v.len()
        invariant
            0 <= i <= v@.len(),
            forall|k: int| 0 <= k < i ==> crate::codec::plain_str((#[trigger] v@[k])@),
        decreases v@.len() - i,
    {
        if !crate::codec::is_plain_str(v[i].as_str()) {
            return false;
        }
        i = i + 1;
    }
    true
}

fn all_sites_plain(v: &Vec<crate::site::SiteMonitorConfig>) -> (r: bool)
    ensures
        r == (forall|i: int|
            0 <= i < v@.len() ==> crate::codec::site_cfg_wf(
                crate::codec::site_cfg_view(#[trigger] v@[i]),
            )),
{
    let mut i: usize = 0;
    while i < v.len()
        invariant
            0 <= i <= v@.len(),
            forall|k: int|
                0 <= k < i ==> crate::codec::site_cfg_wf(
                    crate::codec::site_cfg_view(#[trigger] v@[k]),
                ),
        decreases v@.len() - i,
    {
        let url_plain = crate::codec::is_plain_str(v[i].url.as_str());
        let name_plain = crate::codec::is_opt_plain(&v[i].name);
        if !(url_plain && name_plain) {
            return false;
        }
        i = i + 1;
    }
    true
}

fn entries_keyed_plain(v: &Vec<TargetEntry>) -> (r: bool)
    ensures
        r == ((forall|i: int|
            0 <= i < v@.len() ==> crate::codec::plain_str((#[trigger] v@[i]).target@)) && (
        forall|i: int, j: int|
            0 <= i < v@.len() && 0 <= j < v@[i].samples@.len() ==> (
            #[trigger] v@[i].samples@[j]).target@ == v@[i].target@)),
{
    let mut i: usize = 0;
    while i < v.len()
        invariant
            0 <= i <= v@.len(),
            forall|k: int| 0 <= k < i ==> crate::codec::plain_str((#[trigger] v@[k]).target@),
            forall|k: int, j: int|
                0 <= k < i && 0 <= j < v@[k].samples@.len() ==> (
                #[trigger] v@[k].samples@[j]).target@ == v@[k].target@,
        decreases v@.len() - i,
    {
        if !crate::codec::is_plain_str(v[i].target.as_str()) {
            return false;
        }
        let mut j: usize = 0;
        while j < v[i].samples.len()
            invariant
                0 <= i < v@.len(),
                0 <= j <= v@[i as int].samples@.len(),
                forall|k: int|
                    0 <= k < j ==> (#[trigger] v@[i as int].samples@[k]).target@
                        == v@[i as int].target@,
            decreases v@[i as int].samples@.len() - j,
        {
            if !(v[i].samples[j].target == v[i].target) {
                return false;
            }
            j = j + 1;
        }
        i = i + 1;
    }
    true
}

fn index_of_string(v: &Vec<String>, t: &String) -> (r: Option<usize>)
    ensures
        r is Some <==> spec_target_index(v@, t@) is Some,
{
    proof {
        assert(v@.skip(0) =~= v@);
    }
    let mut i: usize = 0;
    while i < v.len()
        invariant
            0 <= i <= v@.len(),
            spec_target_index(v@, t@) == match spec_target_index(v@.skip(i as int), t@) {
                Some(j) => Some(j + i),
                None => None::<int>,
            },
        decreases v@.len() - i,
    {
        if v[i] == *t {
            proof {
                assert(v@.skip(i as int)[0] == v@[i as int]);
            }
            return Some(i);
        }
        proof {
            assert(v@.skip(i as int)[0] == v@[i as int]);
            assert(v@.skip(i as int).drop_first() =~= v@.skip(i + 1 as int));
        }
        i = i + 1;
    }
    None
}

fn strings_all_unique(v: &Vec<String>) -> (r: bool)
    ensures
        r == (forall|a: int, b: int| 0 <= a < b < v@.len() ==> v@[a]@ != v@[b]@),
{
    let mut i: usize = 0;
    while i < v.len()
        invariant
            0 <= i <= v@.len(),
            forall|a: int, b: int| 0 <= a < b < v@.len() && a < i ==> v@[a]@ != v@[b]@,
        decreases v@.len() - i,
    {
        let mut j: usize = i + 1;
        while j < v.len()
            invariant
                0 <= i < j <= v@.len(),
                forall|b: int| i < b < j ==> v@[i as int]@ != v@[b]@,
            decreases v@.len() - j,
        {
            if v[i] == v[j] {
                return false;
            }
            j = j + 1;
        }
        i = i + 1;
    }
    true
}

fn site_urls_unique(v: &Vec<crate::site::SiteMonitorConfig>) -> (r: bool)
    ensures
        r == (forall|a: int, b: int| 0 <= a < b < v@.len() ==> v@[a].url@ != v@[b].url@),
{
    let mut i: usize = 0;
    while i < v.len()
        invariant
            0 <= i <= v@.len(),
            forall|a: int, b: int| 0 <= a < b < v@.len() && a < i ==> v@[a].url@ != v@[b].url@,
        decreases v@.len() - i,
    {
        let mut j: usize = i + 1;
        while j < v.len()
            invariant
                0 <= i < j <= v@.len(),
                forall|b: int| i < b < j ==> v@[i as int].url@ != v@[b].url@,
            decreases v@.len() - j,
        {
            if v[i].url == v[j].url {
                return false;
            }
            j = j + 1;
        }
        i = i + 1;
    }
    true
}

fn entry_targets_unique(v: &Vec<TargetEntry>) -> (r: bool)
    ensures
        r == (forall|a: int, b: int| 0 <= a < b < v@.len() ==> v@[a].target@ != v@[b].target@),
{
    let mut i: usize = 0;
    while i < v.len()
        invariant
            0 <= i <= v@.len(),
            forall|a: int, b: int|
                0 <= a < b < v@.len() && a < i ==> v@[a].target@ != v@[b].target@,
        decreases v@.len() - i,
    {
        let mut j: usize = i + 1;
        while j < v.len()
            invariant
                0 <= i < j <= v@.len(),
                forall|b: int| i < b < j ==> v@[i as int].target@ != v@[b].target@,
            decreases v@.len() - j,
        {
            if v[i].target == v[j].target {
                return false;
            }
            j = j + 1;
        }
        i = i + 1;
    }
    true
}

/// Loads engine state from a persisted document: the current snapshot
/// object is validated and restored; a legacy bare sample array is
/// migrated into a single-target state whose target comes from its first
/// day-fresh sample; anything else (or an invalid snapshot) yields the
/// out-of-the-box default. Histories are filtered to the trailing day in
/// every branch.
pub fn load_state(text: &str, now_ms: u64) -> (r: AppState)
    ensures
        r.wf(),
        match crate::decode::sp_snapshot(text@) {
            Some((v, n)) => if n == text@.len() {
                if spec_snapshot_view_ok(v) {
                    spec_restored(v, now_ms, r)
                } else {
                    spec_default_state(r)
                }
            } else {
                spec_load_fallback(text@, now_ms, r)
            },
            None => spec_load_fallback(text@, now_ms, r),
        },
{
    match crate::decode::decode_snapshot(text) {
        Some(snap) => {
            if snapshot_ok(&snap) {
                restore_snapshot(&snap, now_ms)
            } else {
                AppState::default()
            }
        },
        None => match crate::decode::decode_legacy_samples(text) {
            Some(samples) => {
                let ghost xs = crate::codec::samples_view(samples@);
                let ghost cutoff: int = now_ms - DAY_MS;
                proof {
                    assert(xs.skip(0) =~= xs);
                }
                let mut found: Option<String> = None;
                let mut i: usize = 0;
                while found.is_none() && i < samples.len()
                    invariant
                        0 <= i <= samples@.len(),
                        xs == crate::codec::samples_view(samples@),
                        cutoff == now_ms - DAY_MS,
                        match found {
                            Some(t) => t@ == spec_first_fresh_target(xs, cutoff),
                            None => spec_first_fresh_target(xs, cutoff)
                                == spec_first_fresh_target(xs.skip(i as int), cutoff),
                        },
                    decreases samples@.len() - i + (if found is None {
                        1int
                    } else {
                        0int
                    }),
                {
                    proof {
                        assert(xs.skip(i as int)[0] == xs[i as int]);
                        assert(xs[i as int] == crate::codec::sample_view(samples@[i as int]));
                        assert(xs.skip(i as int).drop_first() =~= xs.skip(i + 1 as int));
                    }
                    let in_w = if DAY_MS > now_ms {
                        true
                    } else {
                        samples[i].timestamp_ms > now_ms - DAY_MS
                    };
                    if in_w {
                        found = Some(samples[i].target.clone());
                    } else {
                        i = i + 1;
                    }
                }
                proof {
                    if found is None {
                        assert(xs.skip(i as int).len() == 0);
                    }
                }
                let target = match found {
                    Some(t) => t,
                    None => default_target(),
                };
                let mut rekeyed: Vec<PingResult> = Vec::new();
                let mut k: usize = 0;
                while k < samples.len()
                    invariant
                        0 <= k <= samples@.len(),
                        xs == crate::codec::samples_view(samples@),
                        crate::codec::samples_view(rekeyed@) =~= spec_rekeyed(xs, target@).take(
                            k as int,
                        ),
                    decreases samples@.len() - k,
                {
                    let p = &samples[k];
                    rekeyed.push(
                        PingResult {
                            timestamp_ms: p.timestamp_ms,
                            latency_ms: p.latency_ms,
                            target: target.clone(),
                            method: p.method,
                        },
                    );
                    proof {
                        assert(xs[k as int] == crate::codec::sample_view(samples@[k as int]));
                        assert(crate::codec::samples_view(rekeyed@) =~= spec_rekeyed(
                            xs,
                            target@,
                        ).take(k + 1 as int));
                    }
                    k = k + 1;
                }
                proof {
                    assert(spec_rekeyed(xs, target@).take(spec_rekeyed(xs, target@).len() as int)
                        =~= spec_rekeyed(xs, target@));
                }
                let mut targets: Vec<String> = Vec::new();
                targets.push(target.clone());
                let mut entries: Vec<TargetEntry> = Vec::new();
                entries.push(TargetEntry { target: target.clone(), samples: rekeyed });
                let snap = Snapshot {
                    history: entries,
                    targets,
                    primary_target: target,
                    notification_threshold_ms: 400,
                    site_monitors: Vec::new(),
                    vpn_settings: VpnSettings {
                        enabled: false,
                        check_interval_secs: 60,
                        alert_on_country_change: true,
                        alert_on_ip_change: true,
                        expected_country: None,
                    },
                    ping_interval_secs: DEFAULT_INTERVAL_SECS,
                };
                proof {
                    let lv = spec_legacy_snapshot(xs, now_ms);
                    assert(crate::codec::entries_view(snap.history@) =~= lv.history);
                    assert(crate::codec::strings_view(snap.targets@) =~= lv.targets);
                    assert(crate::codec::site_cfgs_view(snap.site_monitors@) =~= lv.site_monitors);
                    assert(snap@ == lv);
                }
                if snapshot_ok(&snap) {
                    restore_snapshot(&snap, now_ms)
                } else {
                    AppState::default()
                }
            },
            None => AppState::default(),
        },
    }
}

proof fn lemma_absent_target(ts: Seq<String>, t: Seq<char>)
    requires
        spec_target_index(ts, t) is None,
    ensures
        forall|a: int| 0 <= a < ts.len() ==> (#[trigger] ts[a])@ != t,
    decreases ts.len(),
{
    if ts.len() > 0 {
        lemma_absent_target(ts.drop_first(), t);
        assert forall|a: int| 0 <= a < ts.len() implies (#[trigger] ts[a])@ != t by {
            if a > 0 {
                assert(ts.drop_first()[a - 1] == ts[a]);
            }
        }
    }
}

proof fn lemma_target_index_push(ts: Seq<String>, v: String, t: Seq<char>)
    ensures
        spec_target_index(ts.push(v), t) == if spec_target_index(ts, t) is Some {
            spec_target_index(ts, t)
        } else if v@ == t {
            Some(ts.len() as int)
        } else {
            None
        },
    decreases ts.len(),
{
    if ts.len() == 0 {
        assert(ts.push(v)[0] == v);
        assert(ts.push(v).drop_first() =~= Seq::<String>::empty());
    } else {
        assert(ts.push(v).drop_first() =~= ts.drop_first().push(v));
        lemma_target_index_push(ts.drop_first(), v, t);
    }
}

proof fn lemma_target_index_remove(ts: Seq<String>, i: int, t: Seq<char>)
    requires
        0 <= i < ts.len(),
        ts[i]@ == t,
        forall|a: int, b: int| 0 <= a < b < ts.len() ==> ts[a]@ != ts[b]@,
    ensures
        spec_target_index(ts.remove(i), t) is None,
    decreases ts.len(),
{
    if i == 0 {
        assert(ts.remove(0) =~= ts.drop_first());
        lemma_no_index_when_absent(ts.drop_first(), t);
    } else {
        assert(ts.remove(i)[0] == ts[0]);
        assert(ts.remove(i).drop_first() =~= ts.drop_first().remove(i - 1));
        lemma_target_index_remove(ts.drop_first(), i - 1, t);
    }
}

proof fn lemma_no_index_when_absent(ts: Seq<String>, t: Seq<char>)
    requires
        forall|a: int| 0 <= a < ts.len() ==> (#[trigger] ts[a])@ != t,
    ensures
        spec_target_index(ts, t) is None,
    decreases ts.len(),
{
    if ts.len() > 0 {
        lemma_no_index_when_absent(ts.drop_first(), t);
    }
}

/// A member whose content differs from the removed one is still a member
/// afterwards.
proof fn lemma_member_survives_remove(ts: Seq<String>, i: int, t: Seq<char>)
    requires
        0 <= i < ts.len(),
        spec_target_index(ts, t) is Some,
        ts[i]@ != t,
    ensures
        spec_target_index(ts.remove(i), t) is Some,
    decreases ts.len(),
{
    let j = spec_target_index(ts, t)->Some_0;
    lemma_target_index_sound(ts, t);
    if j < i {
        lemma_index_found(ts.remove(i), t, j);
    } else {
        lemma_index_found(ts.remove(i), t, j - 1);
    }
}

/// The index the search returns really holds the sought content.
proof fn lemma_target_index_sound(ts: Seq<String>, t: Seq<char>)
    requires
        spec_target_index(ts, t) is Some,
    ensures
        ({
            let j = spec_target_index(ts, t)->Some_0;
            0 <= j < ts.len() && ts[j]@ == t
        }),
    decreases ts.len(),
{
    if ts.len() > 0 && ts[0]@ != t {
        lemma_target_index_sound(ts.drop_first(), t);
    }
}

/// A witness index makes the search succeed.
proof fn lemma_index_found(ts: Seq<String>, t: Seq<char>, j: int)
    requires
        0 <= j < ts.len(),
        ts[j]@ == t,
    ensures
        spec_target_index(ts, t) is Some,
    decreases ts.len(),
{
    if ts[0]@ != t {
        assert(ts.drop_first()[j - 1] == ts[j]);
        lemma_index_found(ts.drop_first(), t, j - 1);
    }
}

} // verus!
