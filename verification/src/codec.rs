//! The persisted snapshot and its JSON encoding.
//!
//! The snapshot is one JSON document holding the per-target histories,
//! the target set and primary target, the notification threshold, the
//! site monitors, the VPN settings and the probe interval. Timestamps
//! are carried as integer epoch milliseconds. The encoder is canonical:
//! fixed key order, no whitespace, strings written verbatim (the engine's
//! well-formed strings contain no quote, backslash or control character).
use vstd::prelude::*;
use crate::history::{PingResult, ProbeMethod, TargetEntry};
use crate::identity::VpnSettings;
use crate::site::SiteMonitorConfig;
use crate::strutil::dec_digits;

verus! {

/// Mathematical image of one sample.
pub ghost struct SampleV {
    pub timestamp_ms: u64,
    pub latency_ms: Option<u32>,
    pub target: Seq<char>,
    pub method: Option<ProbeMethod>,
}

/// Mathematical image of one target's history.
pub ghost struct EntryV {
    pub target: Seq<char>,
    pub samples: Seq<SampleV>,
}

/// Mathematical image of one site monitor configuration.
pub ghost struct SiteCfgV {
    pub url: Seq<char>,
    pub name: Option<Seq<char>>,
    pub enabled: bool,
}

/// Mathematical image of the VPN settings.
pub ghost struct VpnV {
    pub enabled: bool,
    pub check_interval_secs: u32,
    pub alert_on_country_change: bool,
    pub alert_on_ip_change: bool,
    pub expected_country: Option<Seq<char>>,
}

/// Mathematical image of the whole snapshot.
pub ghost struct SnapshotV {
    pub history: Seq<EntryV>,
    pub targets: Seq<Seq<char>>,
    pub primary_target: Seq<char>,
    pub notification_threshold_ms: u32,
    pub site_monitors: Seq<SiteCfgV>,
    pub vpn_settings: VpnV,
    pub ping_interval_secs: u32,
}

pub open spec fn sample_view(p: PingResult) -> SampleV {
    SampleV {
        timestamp_ms: p.timestamp_ms,
        latency_ms: p.latency_ms,
        target: p.target@,
        method: p.method,
    }
}

pub open spec fn samples_view(s: Seq<PingResult>) -> Seq<SampleV> {
    s.map_values(|p: PingResult| sample_view(p))
}

pub open spec fn entry_view(e: TargetEntry) -> EntryV {
    EntryV { target: e.target@, samples: samples_view(e.samples@) }
}

pub open spec fn entries_view(s: Seq<TargetEntry>) -> Seq<EntryV> {
    s.map_values(|e: TargetEntry| entry_view(e))
}

pub open spec fn opt_view(o: Option<String>) -> Option<Seq<char>> {
    match o {
        Some(s) => Some(s@),
        None => None,
    }
}

pub open spec fn site_cfg_view(c: SiteMonitorConfig) -> SiteCfgV {
    SiteCfgV { url: c.url@, name: opt_view(c.name), enabled: c.enabled }
}

pub open spec fn site_cfgs_view(s: Seq<SiteMonitorConfig>) -> Seq<SiteCfgV> {
    s.map_values(|c: SiteMonitorConfig| site_cfg_view(c))
}

pub open spec fn vpn_view(v: VpnSettings) -> VpnV {
    VpnV {
        enabled: v.enabled,
        check_interval_secs: v.check_interval_secs,
        alert_on_country_change: v.alert_on_country_change,
        alert_on_ip_change: v.alert_on_ip_change,
        expected_country: opt_view(v.expected_country),
    }
}

pub open spec fn strings_view(s: Seq<String>) -> Seq<Seq<char>> {
    s.map_values(|t: String| t@)
}

/// The snapshot as the engine hands it to the codec.
#[derive(Debug)]
pub struct Snapshot {
    pub history: Vec<TargetEntry>,
    pub targets: Vec<String>,
    pub primary_target: String,
    pub notification_threshold_ms: u32,
    pub site_monitors: Vec<SiteMonitorConfig>,
    pub vpn_settings: VpnSettings,
    pub ping_interval_secs: u32,
}

impl View for Snapshot {
    type V = SnapshotV;

    open spec fn view(&self) -> SnapshotV {
        SnapshotV {
            history: entries_view(self.history@),
            targets: strings_view(self.targets@),
            primary_target: self.primary_target@,
            notification_threshold_ms: self.notification_threshold_ms,
            site_monitors: site_cfgs_view(self.site_monitors@),
            vpn_settings: vpn_view(self.vpn_settings),
            ping_interval_secs: self.ping_interval_secs,
        }
    }
}

/// A string the canonical encoding can carry verbatim: printable, no
/// quote, no backslash.
pub open spec fn plain_str(s: Seq<char>) -> bool {
    forall|i: int| 0 <= i < s.len() ==> (#[trigger] s[i]) != '"' && s[i] != '\\' && s[i] >= ' '
}

pub open spec fn opt_plain(o: Option<Seq<char>>) -> bool {
    match o {
        Some(s) => plain_str(s),
        None => true,
    }
}

/// Executable form of `plain_str`.
pub fn is_plain_str(s: &str) -> (r: bool)
    ensures
        r == plain_str(s@),
{
    let chars = crate::strutil::string_to_chars(s);
    let mut i: usize = 0;
    while i < chars.len()
        invariant
            0 <= i <= chars@.len(),
            chars@ == s@,
            forall|k: int| 0 <= k < i ==> (#[trigger] s@[k]) != '"' && s@[k] != '\\' && s@[k] >= ' ',
        decreases chars@.len() - i,
    {
        let c = chars[i];
        if c == '"' || c == '\\' || !(c >= ' ') {
            return false;
        }
        i = i + 1;
    }
    true
}

/// Executable plainness of an optional string.
pub fn is_opt_plain(o: &Option<String>) -> (r: bool)
    ensures
        r == opt_plain(opt_view(*o)),
{
    match o {
        Some(s) => is_plain_str(s.as_str()),
        None => true,
    }
}

pub open spec fn sample_wf(v: SampleV) -> bool {
    plain_str(v.target)
}

pub open spec fn samples_wf(s: Seq<SampleV>) -> bool {
    forall|i: int| 0 <= i < s.len() ==> sample_wf(#[trigger] s[i])
}

pub open spec fn entry_wf(e: EntryV) -> bool {
    plain_str(e.target) && samples_wf(e.samples)
}

pub open spec fn entries_wf(s: Seq<EntryV>) -> bool {
    forall|i: int| 0 <= i < s.len() ==> entry_wf(#[trigger] s[i])
}

pub open spec fn site_cfg_wf(c: SiteCfgV) -> bool {
    plain_str(c.url) && opt_plain(c.name)
}

pub open spec fn site_cfgs_wf(s: Seq<SiteCfgV>) -> bool {
    forall|i: int| 0 <= i < s.len() ==> site_cfg_wf(#[trigger] s[i])
}

pub open spec fn strings_wf(s: Seq<Seq<char>>) -> bool {
    forall|i: int| 0 <= i < s.len() ==> plain_str(#[trigger] s[i])
}

/// What the codec asks of a snapshot it round-trips: every string in it
/// is plain.
pub open spec fn snapshot_wf(v: SnapshotV) -> bool {
    &&& entries_wf(v.history)
    &&& strings_wf(v.targets)
    &&& plain_str(v.primary_target)
    &&& site_cfgs_wf(v.site_monitors)
    &&& opt_plain(v.vpn_settings.expected_country)
}

// ---------------------------------------------------------------------
// Canonical encoding, at the specification level.
// ---------------------------------------------------------------------
pub open spec fn null_chars() -> Seq<char> {
    seq!['n', 'u', 'l', 'l']
}

pub open spec fn true_chars() -> Seq<char> {
    seq!['t', 'r', 'u', 'e']
}

pub open spec fn false_chars() -> Seq<char> {
    seq!['f', 'a', 'l', 's', 'e']
}

pub open spec fn enc_string(s: Seq<char>) -> Seq<char> {
    seq!['"'] + s + seq!['"']
}

pub open spec fn enc_u64(n: u64) -> Seq<char> {
    dec_digits(n as nat)
}

pub open spec fn enc_u32(n: u32) -> Seq<char> {
    dec_digits(n as nat)
}

pub open spec fn enc_bool(b: bool) -> Seq<char> {
    if b {
        true_chars()
    } else {
        false_chars()
    }
}

pub open spec fn enc_opt_u32(o: Option<u32>) -> Seq<char> {
    match o {
        Some(n) => enc_u32(n),
        None => null_chars(),
    }
}

pub open spec fn enc_opt_string(o: Option<Seq<char>>) -> Seq<char> {
    match o {
        Some(s) => enc_string(s),
        None => null_chars(),
    }
}

pub open spec fn method_name(m: ProbeMethod) -> Seq<char> {
    match m {
        ProbeMethod::Icmp => seq!['I', 'c', 'm', 'p'],
        ProbeMethod::TcpDns => seq!['T', 'c', 'p', 'D', 'n', 's'],
        ProbeMethod::TcpHttps => seq!['T', 'c', 'p', 'H', 't', 't', 'p', 's'],
        ProbeMethod::TcpHttp => seq!['T', 'c', 'p', 'H', 't', 't', 'p'],
    }
}

pub open spec fn enc_opt_method(o: Option<ProbeMethod>) -> Seq<char> {
    match o {
        Some(m) => enc_string(method_name(m)),
        None => null_chars(),
    }
}

/// A key as it appears in an object: quoted name followed by ':'.
pub open spec fn enc_key(name: Seq<char>) -> Seq<char> {
    seq!['"'] + name + seq!['"', ':']
}

#[verifier::opaque]
pub open spec fn key_timestamp() -> Seq<char> {
    seq!['t', 'i', 'm', 'e', 's', 't', 'a', 'm', 'p']
}

#[verifier::opaque]
pub open spec fn key_latency() -> Seq<char> {
    seq!['l', 'a', 't', 'e', 'n', 'c', 'y', '_', 'm', 's']
}

#[verifier::opaque]
pub open spec fn key_target() -> Seq<char> {
    seq!['t', 'a', 'r', 'g', 'e', 't']
}

#[verifier::opaque]
pub open spec fn key_method() -> Seq<char> {
    seq!['m', 'e', 't', 'h', 'o', 'd']
}

#[verifier::opaque]
pub open spec fn key_history() -> Seq<char> {
    seq!['h', 'i', 's', 't', 'o', 'r', 'y']
}

#[verifier::opaque]
pub open spec fn key_targets() -> Seq<char> {
    seq!['t', 'a', 'r', 'g', 'e', 't', 's']
}

#[verifier::opaque]
pub open spec fn key_primary() -> Seq<char> {
    seq!['p', 'r', 'i', 'm', 'a', 'r', 'y', '_', 't', 'a', 'r', 'g', 'e', 't']
}

#[verifier::opaque]
pub open spec fn key_threshold() -> Seq<char> {
    seq![
        'n',
        'o',
        't',
        'i',
        'f',
        'i',
        'c',
        'a',
        't',
        'i',
        'o',
        'n',
        '_',
        't',
        'h',
        'r',
        'e',
        's',
        'h',
        'o',
        'l',
        'd',
        '_',
        'm',
        's',
    ]
}

#[verifier::opaque]
pub open spec fn key_sites() -> Seq<char> {
    seq!['s', 'i', 't', 'e', '_', 'm', 'o', 'n', 'i', 't', 'o', 'r', 's']
}

#[verifier::opaque]
pub open spec fn key_vpn() -> Seq<char> {
    seq!['v', 'p', 'n', '_', 's', 'e', 't', 't', 'i', 'n', 'g', 's']
}

#[verifier::opaque]
pub open spec fn key_interval() -> Seq<char> {
    seq![
        'p',
        'i',
        'n',
        'g',
        '_',
        'i',
        'n',
        't',
        'e',
        'r',
        'v',
        'a',
        'l',
        '_',
        's',
        'e',
        'c',
        's',
    ]
}

#[verifier::opaque]
pub open spec fn key_url() -> Seq<char> {
    seq!['u', 'r', 'l']
}

#[verifier::opaque]
pub open spec fn key_name() -> Seq<char> {
    seq!['n', 'a', 'm', 'e']
}

#[verifier::opaque]
pub open spec fn key_enabled() -> Seq<char> {
    seq!['e', 'n', 'a', 'b', 'l', 'e', 'd']
}

#[verifier::opaque]
pub open spec fn key_check_interval() -> Seq<char> {
    seq![
        'c',
        'h',
        'e',
        'c',
        'k',
        '_',
        'i',
        'n',
        't',
        'e',
        'r',
        'v',
        'a',
        'l',
        '_',
        's',
        'e',
        'c',
        's',
    ]
}

#[verifier::opaque]
pub open spec fn key_alert_country() -> Seq<char> {
    seq![
        'a',
        'l',
        'e',
        'r',
        't',
        '_',
        'o',
        'n',
        '_',
        'c',
        'o',
        'u',
        'n',
        't',
        'r',
        'y',
        '_',
        'c',
        'h',
        'a',
        'n',
        'g',
        'e',
    ]
}

#[verifier::opaque]
pub open spec fn key_alert_ip() -> Seq<char> {
    seq![
        'a',
        'l',
        'e',
        'r',
        't',
        '_',
        'o',
        'n',
        '_',
        'i',
        'p',
        '_',
        'c',
        'h',
        'a',
        'n',
        'g',
        'e',
    ]
}

#[verifier::opaque]
pub open spec fn key_expected_country() -> Seq<char> {
    seq![
        'e',
        'x',
        'p',
        'e',
        'c',
        't',
        'e',
        'd',
        '_',
        'c',
        'o',
        'u',
        'n',
        't',
        'r',
        'y',
    ]
}

pub open spec fn enc_sample(v: SampleV) -> Seq<char> {
    seq!['{'] + enc_key(key_timestamp()) + enc_u64(v.timestamp_ms) + seq![','] + enc_key(
        key_latency(),
    ) + enc_opt_u32(v.latency_ms) + seq![','] + enc_key(key_target()) + enc_string(v.target)
        + seq![','] + enc_key(key_method()) + enc_opt_method(v.method) + seq!['}']
}

/// The elements of a sample list after the first, each preceded by ','.
pub open spec fn enc_samples_rest(s: Seq<SampleV>) -> Seq<char>
    decreases s.len(),
{
    if s.len() == 0 {
        Seq::<char>::empty()
    } else {
        seq![','] + enc_sample(s[0]) + enc_samples_rest(s.drop_first())
    }
}

pub open spec fn enc_samples(s: Seq<SampleV>) -> Seq<char> {
    if s.len() == 0 {
        seq!['[', ']']
    } else {
        seq!['['] + enc_sample(s[0]) + enc_samples_rest(s.drop_first()) + seq![']']
    }
}

pub open spec fn enc_entry(e: EntryV) -> Seq<char> {
    enc_key(e.target) + enc_samples(e.samples)
}

pub open spec fn enc_entries_rest(s: Seq<EntryV>) -> Seq<char>
    decreases s.len(),
{
    if s.len() == 0 {
        Seq::<char>::empty()
    } else {
        seq![','] + enc_entry(s[0]) + enc_entries_rest(s.drop_first())
    }
}

pub open spec fn enc_history(s: Seq<EntryV>) -> Seq<char> {
    if s.len() == 0 {
        seq!['{', '}']
    } else {
        seq!['{'] + enc_entry(s[0]) + enc_entries_rest(s.drop_first()) + seq!['}']
    }
}

pub open spec fn enc_strings_rest(s: Seq<Seq<char>>) -> Seq<char>
    decreases s.len(),
{
    if s.len() == 0 {
        Seq::<char>::empty()
    } else {
        seq![','] + enc_string(s[0]) + enc_strings_rest(s.drop_first())
    }
}

pub open spec fn enc_strings(s: Seq<Seq<char>>) -> Seq<char> {
    if s.len() == 0 {
        seq!['[', ']']
    } else {
        seq!['['] + enc_string(s[0]) + enc_strings_rest(s.drop_first()) + seq![']']
    }
}

pub open spec fn enc_site_cfg(c: SiteCfgV) -> Seq<char> {
    seq!['{'] + enc_key(key_url()) + enc_string(c.url) + seq![','] + enc_key(key_name())
        + enc_opt_string(c.name) + seq![','] + enc_key(key_enabled()) + enc_bool(c.enabled)
        + seq!['}']
}

pub open spec fn enc_site_cfgs_rest(s: Seq<SiteCfgV>) -> Seq<char>
    decreases s.len(),
{
    if s.len() == 0 {
        Seq::<char>::empty()
    } else {
        seq![','] + enc_site_cfg(s[0]) + enc_site_cfgs_rest(s.drop_first())
    }
}

pub open spec fn enc_site_cfgs(s: Seq<SiteCfgV>) -> Seq<char> {
    if s.len() == 0 {
        seq!['[', ']']
    } else {
        seq!['['] + enc_site_cfg(s[0]) + enc_site_cfgs_rest(s.drop_first()) + seq![']']
    }
}

pub open spec fn enc_vpn(v: VpnV) -> Seq<char> {
    seq!['{'] + enc_key(key_enabled()) + enc_bool(v.enabled) + seq![','] + enc_key(
        key_check_interval(),
    ) + enc_u32(v.check_interval_secs) + seq![','] + enc_key(key_alert_country()) + enc_bool(
        v.alert_on_country_change,
    ) + seq![','] + enc_key(key_alert_ip()) + enc_bool(v.alert_on_ip_change) + seq![','] + enc_key(
        key_expected_country(),
    ) + enc_opt_string(v.expected_country) + seq!['}']
}

/// The first half of the snapshot encoding: history through threshold.
pub open spec fn enc_snap_head(v: SnapshotV) -> Seq<char> {
    seq!['{'] + enc_key(key_history()) + enc_history(v.history) + seq![','] + enc_key(
        key_targets(),
    ) + enc_strings(v.targets) + seq![','] + enc_key(key_primary()) + enc_string(v.primary_target)
        + seq![','] + enc_key(key_threshold()) + enc_u32(v.notification_threshold_ms)
}

/// The second half of the snapshot encoding: site monitors through the
/// closing brace.
pub open spec fn enc_snap_tail(v: SnapshotV) -> Seq<char> {
    seq![','] + enc_key(key_sites()) + enc_site_cfgs(v.site_monitors) + seq![','] + enc_key(
        key_vpn(),
    ) + enc_vpn(v.vpn_settings) + seq![','] + enc_key(key_interval()) + enc_u32(
        v.ping_interval_secs,
    ) + seq!['}']
}

/// The canonical encoding of a snapshot: the two halves in order.
pub open spec fn enc_snapshot(v: SnapshotV) -> Seq<char> {
    enc_snap_head(v) + enc_snap_tail(v)
}

// ---------------------------------------------------------------------
// The executable encoder.
// ---------------------------------------------------------------------
/// Appends the characters of `s` to `out`.
pub fn push_str_chars(out: &mut Vec<char>, s: &str)
    ensures
        final(out)@ == old(out)@ + s@,
{
    let chars = crate::strutil::string_to_chars(s);
    let mut i: usize = 0;
    while i < chars.len()
        invariant
            0 <= i <= chars@.len(),
            chars@ == s@,
            out@ == old(out)@ + s@.take(i as int),
        decreases chars@.len() - i,
    {
        out.push(chars[i]);
        proof {
            assert(old(out)@ + s@.take(i as int) + seq![s@[i as int]] =~= old(out)@ + s@.take(
                i + 1 as int,
            ));
        }
        i = i + 1;
    }
    proof {
        assert(old(out)@ + s@.take(s@.len() as int) =~= old(out)@ + s@);
    }
}

fn push_quoted(out: &mut Vec<char>, s: &str)
    ensures
        final(out)@ == old(out)@ + enc_string(s@),
{
    out.push('"');
    push_str_chars(out, s);
    out.push('"');
    proof {
        assert(final(out)@ =~= old(out)@ + enc_string(s@));
    }
}

fn push_null(out: &mut Vec<char>)
    ensures
        final(out)@ == old(out)@ + null_chars(),
{
    out.push('n');
    out.push('u');
    out.push('l');
    out.push('l');
    proof {
        assert(final(out)@ =~= old(out)@ + null_chars());
    }
}

fn push_bool(out: &mut Vec<char>, b: bool)
    ensures
        final(out)@ == old(out)@ + enc_bool(b),
{
    if b {
        out.push('t');
        out.push('r');
        out.push('u');
        out.push('e');
        proof {
            assert(final(out)@ =~= old(out)@ + true_chars());
        }
    } else {
        out.push('f');
        out.push('a');
        out.push('l');
        out.push('s');
        out.push('e');
        proof {
            assert(final(out)@ =~= old(out)@ + false_chars());
        }
    }
}

fn push_u64_enc(out: &mut Vec<char>, n: u64)
    ensures
        final(out)@ == old(out)@ + enc_u64(n),
{
    crate::strutil::push_dec_digits(n, out);
}

fn push_u32_enc(out: &mut Vec<char>, n: u32)
    ensures
        final(out)@ == old(out)@ + enc_u32(n),
{
    crate::strutil::push_dec_digits(n as u64, out);
}

fn push_opt_u32(out: &mut Vec<char>, o: &Option<u32>)
    ensures
        final(out)@ == old(out)@ + enc_opt_u32(*o),
{
    match o {
        Some(n) => push_u32_enc(out, *n),
        None => push_null(out),
    }
}

fn push_opt_string(out: &mut Vec<char>, o: &Option<String>)
    ensures
        final(out)@ == old(out)@ + enc_opt_string(opt_view(*o)),
{
    match o {
        Some(s) => push_quoted(out, s.as_str()),
        None => push_null(out),
    }
}

fn push_opt_method(out: &mut Vec<char>, o: &Option<ProbeMethod>)
    ensures
        final(out)@ == old(out)@ + enc_opt_method(*o),
{
    match o {
        None => push_null(out),
        Some(m) => {
            let name: &str = match m {
                ProbeMethod::Icmp => "Icmp",
                ProbeMethod::TcpDns => "TcpDns",
                ProbeMethod::TcpHttps => "TcpHttps",
                ProbeMethod::TcpHttp => "TcpHttp",
            };
            proof {
                reveal_strlit("Icmp");
                reveal_strlit("TcpDns");
                reveal_strlit("TcpHttps");
                reveal_strlit("TcpHttp");
                assert(name@ =~= method_name(*m));
            }
            push_quoted(out, name);
        },
    }
}

fn push_sample(out: &mut Vec<char>, p: &PingResult)
    ensures
        final(out)@ == old(out)@ + enc_sample(sample_view(*p)),
{
    out.push('{');
    push_str_chars(out, "\"timestamp\":");
    proof {
        reveal_strlit("\"timestamp\":");
        reveal(key_timestamp);
        assert("\"timestamp\":"@ =~= enc_key(key_timestamp()));
    }
    push_u64_enc(out, p.timestamp_ms);
    push_str_chars(out, ",\"latency_ms\":");
    proof {
        reveal_strlit(",\"latency_ms\":");
        reveal(key_latency);
        assert(",\"latency_ms\":"@ =~= seq![','] + enc_key(key_latency()));
    }
    push_opt_u32(out, &p.latency_ms);
    push_str_chars(out, ",\"target\":");
    proof {
        reveal_strlit(",\"target\":");
        reveal(key_target);
        assert(",\"target\":"@ =~= seq![','] + enc_key(key_target()));
    }
    push_quoted(out, p.target.as_str());
    push_str_chars(out, ",\"method\":");
    proof {
        reveal_strlit(",\"method\":");
        reveal(key_method);
        assert(",\"method\":"@ =~= seq![','] + enc_key(key_method()));
    }
    push_opt_method(out, &p.method);
    out.push('}');
    proof {
        assert(final(out)@ =~= old(out)@ + enc_sample(sample_view(*p)));
    }
}

proof fn lemma_enc_samples_rest_snoc(s: Seq<SampleV>)
    requires
        s.len() > 0,
    ensures
        enc_samples_rest(s) == enc_samples_rest(s.drop_last()) + seq![','] + enc_sample(s.last()),
    decreases s.len(),
{
    if s.len() == 1 {
        assert(s.drop_last() =~= Seq::<SampleV>::empty());
        assert(s.drop_first() =~= Seq::<SampleV>::empty());
        assert(enc_samples_rest(s) =~= enc_samples_rest(s.drop_last()) + seq![','] + enc_sample(
            s.last(),
        ));
    } else {
        lemma_enc_samples_rest_snoc(s.drop_first());
        assert(s.drop_first().drop_last() =~= s.drop_last().drop_first());
        assert(s.drop_first().last() == s.last());
        assert(s.drop_last()[0] == s[0]);
        assert(enc_samples_rest(s) =~= enc_samples_rest(s.drop_last()) + seq![','] + enc_sample(
            s.last(),
        ));
    }
}

fn push_samples(out: &mut Vec<char>, v: &Vec<PingResult>)
    ensures
        final(out)@ == old(out)@ + enc_samples(samples_view(v@)),
{
    out.push('[');
    let mut i: usize = 0;
    while i < v.len()
        invariant
            0 <= i <= v@.len(),
            out@ == old(out)@ + seq!['['] + (if i == 0 {
                Seq::<char>::empty()
            } else {
                enc_sample(sample_view(v@[0])) + enc_samples_rest(
                    samples_view(v@).take(i as int).drop_first(),
                )
            }),
        decreases v@.len() - i,
    {
        if i > 0 {
            out.push(',');
        }
        push_sample(out, &v[i]);
        proof {
            let sv = samples_view(v@);
            assert(sv[i as int] == sample_view(v@[i as int]));
            if i == 0 {
                assert(sv.take(1).drop_first() =~= Seq::<SampleV>::empty());
                assert(out@ =~= old(out)@ + seq!['['] + enc_sample(sv[0]) + enc_samples_rest(
                    sv.take(1).drop_first(),
                ));
            } else {
                lemma_enc_samples_rest_snoc(sv.take(i + 1 as int).drop_first());
                assert(sv.take(i + 1 as int).drop_first().drop_last() =~= sv.take(
                    i as int,
                ).drop_first());
                assert(sv.take(i + 1 as int).drop_first().last() == sv[i as int]);
                assert(sv.take(i + 1 as int)[0] == sv[0]);
                assert(out@ =~= old(out)@ + seq!['['] + (enc_sample(sv[0]) + enc_samples_rest(
                    sv.take(i + 1 as int).drop_first(),
                )));
            }
        }
        i = i + 1;
    }
    out.push(']');
    proof {
        let sv = samples_view(v@);
        if v@.len() == 0 {
            assert(final(out)@ =~= old(out)@ + enc_samples(sv));
        } else {
            assert(sv.take(sv.len() as int) =~= sv);
            assert(final(out)@ =~= old(out)@ + enc_samples(sv));
        }
    }
}

proof fn lemma_enc_entries_rest_snoc(s: Seq<EntryV>)
    requires
        s.len() > 0,
    ensures
        enc_entries_rest(s) == enc_entries_rest(s.drop_last()) + seq![','] + enc_entry(s.last()),
    decreases s.len(),
{
    if s.len() == 1 {
        assert(s.drop_last() =~= Seq::<EntryV>::empty());
        assert(s.drop_first() =~= Seq::<EntryV>::empty());
        assert(enc_entries_rest(s) =~= enc_entries_rest(s.drop_last()) + seq![','] + enc_entry(
            s.last(),
        ));
    } else {
        lemma_enc_entries_rest_snoc(s.drop_first());
        assert(s.drop_first().drop_last() =~= s.drop_last().drop_first());
        assert(s.drop_first().last() == s.last());
        assert(s.drop_last()[0] == s[0]);
        assert(enc_entries_rest(s) =~= enc_entries_rest(s.drop_last()) + seq![','] + enc_entry(
            s.last(),
        ));
    }
}

fn push_entry(out: &mut Vec<char>, e: &TargetEntry)
    ensures
        final(out)@ == old(out)@ + enc_entry(entry_view(*e)),
{
    out.push('"');
    push_str_chars(out, e.target.as_str());
    out.push('"');
    out.push(':');
    push_samples(out, &e.samples);
    proof {
        assert(final(out)@ =~= old(out)@ + enc_entry(entry_view(*e)));
    }
}

#[verifier::rlimit(100)]
fn push_history(out: &mut Vec<char>, v: &Vec<TargetEntry>)
    ensures
        final(out)@ == old(out)@ + enc_history(entries_view(v@)),
{
    out.push('{');
    let mut i: usize = 0;
    while i < v.len()
        invariant
            0 <= i <= v@.len(),
            out@ == old(out)@ + seq!['{'] + (if i == 0 {
                Seq::<char>::empty()
            } else {
                enc_entry(entry_view(v@[0])) + enc_entries_rest(
                    entries_view(v@).take(i as int).drop_first(),
                )
            }),
        decreases v@.len() - i,
    {
        if i > 0 {
            out.push(',');
        }
        push_entry(out, &v[i]);
        proof {
            let ev = entries_view(v@);
            assert(ev[i as int] == entry_view(v@[i as int]));
            if i == 0 {
                assert(ev.take(1).drop_first() =~= Seq::<EntryV>::empty());
                assert(out@ =~= old(out)@ + seq!['{'] + enc_entry(ev[0]) + enc_entries_rest(
                    ev.take(1).drop_first(),
                ));
            } else {
                lemma_enc_entries_rest_snoc(ev.take(i + 1 as int).drop_first());
                assert(ev.take(i + 1 as int).drop_first().drop_last() =~= ev.take(
                    i as int,
                ).drop_first());
                assert(ev.take(i + 1 as int).drop_first().last() == ev[i as int]);
                assert(ev.take(i + 1 as int)[0] == ev[0]);
                assert(out@ =~= old(out)@ + seq!['{'] + (enc_entry(ev[0]) + enc_entries_rest(
                    ev.take(i + 1 as int).drop_first(),
                )));
            }
        }
        i = i + 1;
    }
    out.push('}');
    proof {
        let ev = entries_view(v@);
        if v@.len() == 0 {
            assert(final(out)@ =~= old(out)@ + enc_history(ev));
        } else {
            assert(ev.take(ev.len() as int) =~= ev);
            assert(final(out)@ =~= old(out)@ + enc_history(ev));
        }
    }
}

proof fn lemma_enc_strings_rest_snoc(s: Seq<Seq<char>>)
    requires
        s.len() > 0,
    ensures
        enc_strings_rest(s) == enc_strings_rest(s.drop_last()) + seq![','] + enc_string(s.last()),
    decreases s.len(),
{
    if s.len() == 1 {
        assert(s.drop_last() =~= Seq::<Seq<char>>::empty());
        assert(s.drop_first() =~= Seq::<Seq<char>>::empty());
        assert(enc_strings_rest(s) =~= enc_strings_rest(s.drop_last()) + seq![','] + enc_string(
            s.last(),
        ));
    } else {
        lemma_enc_strings_rest_snoc(s.drop_first());
        assert(s.drop_first().drop_last() =~= s.drop_last().drop_first());
        assert(s.drop_first().last() == s.last());
        assert(s.drop_last()[0] == s[0]);
        assert(enc_strings_rest(s) =~= enc_strings_rest(s.drop_last()) + seq![','] + enc_string(
            s.last(),
        ));
    }
}

fn push_strings(out: &mut Vec<char>, v: &Vec<String>)
    ensures
        final(out)@ == old(out)@ + enc_strings(strings_view(v@)),
{
    out.push('[');
    let mut i: usize = 0;
    while i < v.len()
        invariant
            0 <= i <= v@.len(),
            out@ == old(out)@ + seq!['['] + (if i == 0 {
                Seq::<char>::empty()
            } else {
                enc_string(v@[0]@) + enc_strings_rest(strings_view(v@).take(i as int).drop_first())
            }),
        decreases v@.len() - i,
    {
        if i > 0 {
            out.push(',');
        }
        push_quoted(out, v[i].as_str());
        proof {
            let sv = strings_view(v@);
            assert(sv[i as int] == v@[i as int]@);
            if i == 0 {
                assert(sv.take(1).drop_first() =~= Seq::<Seq<char>>::empty());
                assert(out@ =~= old(out)@ + seq!['['] + enc_string(sv[0]) + enc_strings_rest(
                    sv.take(1).drop_first(),
                ));
            } else {
                lemma_enc_strings_rest_snoc(sv.take(i + 1 as int).drop_first());
                assert(sv.take(i + 1 as int).drop_first().drop_last() =~= sv.take(
                    i as int,
                ).drop_first());
                assert(sv.take(i + 1 as int).drop_first().last() == sv[i as int]);
                assert(sv.take(i + 1 as int)[0] == sv[0]);
                assert(out@ =~= old(out)@ + seq!['['] + (enc_string(sv[0]) + enc_strings_rest(
                    sv.take(i + 1 as int).drop_first(),
                )));
            }
        }
        i = i + 1;
    }
    out.push(']');
    proof {
        let sv = strings_view(v@);
        if v@.len() == 0 {
            assert(final(out)@ =~= old(out)@ + enc_strings(sv));
        } else {
            assert(sv.take(sv.len() as int) =~= sv);
            assert(final(out)@ =~= old(out)@ + enc_strings(sv));
        }
    }
}

fn push_site_cfg(out: &mut Vec<char>, c: &SiteMonitorConfig)
    ensures
        final(out)@ == old(out)@ + enc_site_cfg(site_cfg_view(*c)),
{
    out.push('{');
    push_str_chars(out, "\"url\":");
    proof {
        reveal_strlit("\"url\":");
        reveal(key_url);
        assert("\"url\":"@ =~= enc_key(key_url()));
    }
    push_quoted(out, c.url.as_str());
    push_str_chars(out, ",\"name\":");
    proof {
        reveal_strlit(",\"name\":");
        reveal(key_name);
        assert(",\"name\":"@ =~= seq![','] + enc_key(key_name()));
    }
    push_opt_string(out, &c.name);
    push_str_chars(out, ",\"enabled\":");
    proof {
        reveal_strlit(",\"enabled\":");
        reveal(key_enabled);
        assert(",\"enabled\":"@ =~= seq![','] + enc_key(key_enabled()));
    }
    push_bool(out, c.enabled);
    out.push('}');
    proof {
        assert(final(out)@ =~= old(out)@ + enc_site_cfg(site_cfg_view(*c)));
    }
}

proof fn lemma_enc_site_cfgs_rest_snoc(s: Seq<SiteCfgV>)
    requires
        s.len() > 0,
    ensures
        enc_site_cfgs_rest(s) == enc_site_cfgs_rest(s.drop_last()) + seq![','] + enc_site_cfg(
            s.last(),
        ),
    decreases s.len(),
{
    if s.len() == 1 {
        assert(s.drop_last() =~= Seq::<SiteCfgV>::empty());
        assert(s.drop_first() =~= Seq::<SiteCfgV>::empty());
        assert(enc_site_cfgs_rest(s) =~= enc_site_cfgs_rest(s.drop_last()) + seq![',']
            + enc_site_cfg(s.last()));
    } else {
        lemma_enc_site_cfgs_rest_snoc(s.drop_first());
        assert(s.drop_first().drop_last() =~= s.drop_last().drop_first());
        assert(s.drop_first().last() == s.last());
        assert(s.drop_last()[0] == s[0]);
        assert(enc_site_cfgs_rest(s) =~= enc_site_cfgs_rest(s.drop_last()) + seq![',']
            + enc_site_cfg(s.last()));
    }
}

fn push_site_cfgs(out: &mut Vec<char>, v: &Vec<SiteMonitorConfig>)
    ensures
        final(out)@ == old(out)@ + enc_site_cfgs(site_cfgs_view(v@)),
{
    out.push('[');
    let mut i: usize = 0;
    while i < v.len()
        invariant
            0 <= i <= v@.len(),
            out@ == old(out)@ + seq!['['] + (if i == 0 {
                Seq::<char>::empty()
            } else {
                enc_site_cfg(site_cfg_view(v@[0])) + enc_site_cfgs_rest(
                    site_cfgs_view(v@).take(i as int).drop_first(),
                )
            }),
        decreases v@.len() - i,
    {
        if i > 0 {
            out.push(',');
        }
        push_site_cfg(out, &v[i]);
        proof {
            let sv = site_cfgs_view(v@);
            assert(sv[i as int] == site_cfg_view(v@[i as int]));
            if i == 0 {
                assert(sv.take(1).drop_first() =~= Seq::<SiteCfgV>::empty());
                assert(out@ =~= old(out)@ + seq!['['] + enc_site_cfg(sv[0])
                    + enc_site_cfgs_rest(sv.take(1).drop_first()));
            } else {
                lemma_enc_site_cfgs_rest_snoc(sv.take(i + 1 as int).drop_first());
                assert(sv.take(i + 1 as int).drop_first().drop_last() =~= sv.take(
                    i as int,
                ).drop_first());
                assert(sv.take(i + 1 as int).drop_first().last() == sv[i as int]);
                assert(sv.take(i + 1 as int)[0] == sv[0]);
                assert(out@ =~= old(out)@ + seq!['['] + (enc_site_cfg(sv[0])
                    + enc_site_cfgs_rest(sv.take(i + 1 as int).drop_first())));
            }
        }
        i = i + 1;
    }
    out.push(']');
    proof {
        let sv = site_cfgs_view(v@);
        if v@.len() == 0 {
            assert(final(out)@ =~= old(out)@ + enc_site_cfgs(sv));
        } else {
            assert(sv.take(sv.len() as int) =~= sv);
            assert(final(out)@ =~= old(out)@ + enc_site_cfgs(sv));
        }
    }
}

#[verifier::rlimit(100)]
fn push_vpn(out: &mut Vec<char>, v: &VpnSettings)
    ensures
        final(out)@ == old(out)@ + enc_vpn(vpn_view(*v)),
{
    out.push('{');
    push_str_chars(out, "\"enabled\":");
    proof {
        reveal_strlit("\"enabled\":");
        reveal(key_enabled);
        assert("\"enabled\":"@ =~= enc_key(key_enabled()));
    }
    push_bool(out, v.enabled);
    push_str_chars(out, ",\"check_interval_secs\":");
    proof {
        reveal_strlit(",\"check_interval_secs\":");
        reveal(key_check_interval);
        assert(",\"check_interval_secs\":"@ =~= seq![','] + enc_key(key_check_interval()));
    }
    push_u32_enc(out, v.check_interval_secs);
    push_str_chars(out, ",\"alert_on_country_change\":");
    proof {
        reveal_strlit(",\"alert_on_country_change\":");
        reveal(key_alert_country);
        assert(",\"alert_on_country_change\":"@ =~= seq![','] + enc_key(key_alert_country()));
    }
    push_bool(out, v.alert_on_country_change);
    push_str_chars(out, ",\"alert_on_ip_change\":");
    proof {
        reveal_strlit(",\"alert_on_ip_change\":");
        reveal(key_alert_ip);
        assert(",\"alert_on_ip_change\":"@ =~= seq![','] + enc_key(key_alert_ip()));
    }
    push_bool(out, v.alert_on_ip_change);
    push_str_chars(out, ",\"expected_country\":");
    proof {
        reveal_strlit(",\"expected_country\":");
        reveal(key_expected_country);
        assert(",\"expected_country\":"@ =~= seq![','] + enc_key(key_expected_country()));
    }
    push_opt_string(out, &v.expected_country);
    out.push('}');
    proof {
        assert(final(out)@ =~= old(out)@ + enc_vpn(vpn_view(*v)));
    }
}

/// Encodes the snapshot into its canonical JSON document.
#[verifier::rlimit(100)]
pub fn encode_snapshot(s: &Snapshot) -> (r: String)
    ensures
        r@ == enc_snapshot(s@),
{
    let mut out: Vec<char> = Vec::new();
    out.push('{');
    push_str_chars(&mut out, "\"history\":");
    proof {
        reveal_strlit("\"history\":");
        reveal(key_history);
        assert("\"history\":"@ =~= enc_key(key_history()));
    }
    push_history(&mut out, &s.history);
    push_str_chars(&mut out, ",\"targets\":");
    proof {
        reveal_strlit(",\"targets\":");
        reveal(key_targets);
        assert(",\"targets\":"@ =~= seq![','] + enc_key(key_targets()));
    }
    push_strings(&mut out, &s.targets);
    push_str_chars(&mut out, ",\"primary_target\":");
    proof {
        reveal_strlit(",\"primary_target\":");
        reveal(key_primary);
        assert(",\"primary_target\":"@ =~= seq![','] + enc_key(key_primary()));
    }
    push_quoted(&mut out, s.primary_target.as_str());
    push_str_chars(&mut out, ",\"notification_threshold_ms\":");
    proof {
        reveal_strlit(",\"notification_threshold_ms\":");
        reveal(key_threshold);
        assert(",\"notification_threshold_ms\":"@ =~= seq![','] + enc_key(key_threshold()));
    }
    push_u32_enc(&mut out, s.notification_threshold_ms);
    push_str_chars(&mut out, ",\"site_monitors\":");
    proof {
        reveal_strlit(",\"site_monitors\":");
        reveal(key_sites);
        assert(",\"site_monitors\":"@ =~= seq![','] + enc_key(key_sites()));
    }
    push_site_cfgs(&mut out, &s.site_monitors);
    push_str_chars(&mut out, ",\"vpn_settings\":");
    proof {
        reveal_strlit(",\"vpn_settings\":");
        reveal(key_vpn);
        assert(",\"vpn_settings\":"@ =~= seq![','] + enc_key(key_vpn()));
    }
    push_vpn(&mut out, &s.vpn_settings);
    push_str_chars(&mut out, ",\"ping_interval_secs\":");
    proof {
        reveal_strlit(",\"ping_interval_secs\":");
        reveal(key_interval);
        assert(",\"ping_interval_secs\":"@ =~= seq![','] + enc_key(key_interval()));
    }
    push_u32_enc(&mut out, s.ping_interval_secs);
    out.push('}');
    proof {
        assert(out@ =~= enc_snapshot(s@));
    }
    crate::strutil::chars_to_string(&out)
}

} // verus!
