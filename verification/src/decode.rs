//! The snapshot decoder: a recursive-descent parser for the canonical
//! encoding of `codec`, with the proof that decoding inverts encoding.
//!
//! Each specification parser consumes a prefix of the input and returns
//! the parsed value with the number of characters consumed; each
//! executable parser is proved to agree with its specification parser on
//! every input.
use vstd::prelude::*;
use crate::codec::{SampleV, EntryV, SiteCfgV, VpnV, SnapshotV, null_chars, true_chars,
    false_chars, enc_key, method_name, key_timestamp, key_latency, key_target, key_method,
    key_history, key_targets, key_primary, key_threshold, key_sites, key_vpn, key_interval,
    key_url, key_name, key_enabled, key_check_interval, key_alert_country, key_alert_ip,
    key_expected_country};
use crate::history::ProbeMethod;
use crate::strutil::{is_digit, digits_value, has_prefix, spec_find_char, string_to_chars,
    chars_to_string, char_to_digit, find_char_from, digit_run, lemma_digit_run};

verus! {

// ---------------------------------------------------------------------
// Specification parsers.
// ---------------------------------------------------------------------
/// Consumes exactly `lit` from the front of `s`.
pub open spec fn sp_lit(s: Seq<char>, lit: Seq<char>) -> Option<int> {
    if has_prefix(s, lit) {
        Some(lit.len() as int)
    } else {
        None
    }
}

/// A decimal number that fits a u64.
pub open spec fn sp_u64(s: Seq<char>) -> Option<(u64, int)> {
    let k = digit_run(s);
    if k == 0 {
        None
    } else if digits_value(s.take(k)) > u64::MAX {
        None
    } else {
        Some((digits_value(s.take(k)) as u64, k))
    }
}

/// A decimal number that fits a u32.
pub open spec fn sp_u32(s: Seq<char>) -> Option<(u32, int)> {
    let k = digit_run(s);
    if k == 0 {
        None
    } else if digits_value(s.take(k)) > u32::MAX {
        None
    } else {
        Some((digits_value(s.take(k)) as u32, k))
    }
}

/// A quoted string without escapes: everything up to the next '"'.
pub open spec fn sp_string(s: Seq<char>) -> Option<(Seq<char>, int)> {
    if s.len() == 0 || s[0] != '"' {
        None
    } else {
        match spec_find_char(s.skip(1), '"') {
            Some(i) => Some((s.skip(1).take(i), i + 2)),
            None => None,
        }
    }
}

pub open spec fn sp_bool(s: Seq<char>) -> Option<(bool, int)> {
    if has_prefix(s, true_chars()) {
        Some((true, 4))
    } else if has_prefix(s, false_chars()) {
        Some((false, 5))
    } else {
        None
    }
}

pub open spec fn sp_opt_u32(s: Seq<char>) -> Option<(Option<u32>, int)> {
    if has_prefix(s, null_chars()) {
        Some((None, 4))
    } else {
        match sp_u32(s) {
            Some((n, k)) => Some((Some(n), k)),
            None => None,
        }
    }
}

pub open spec fn sp_opt_string(s: Seq<char>) -> Option<(Option<Seq<char>>, int)> {
    if has_prefix(s, null_chars()) {
        Some((None, 4))
    } else {
        match sp_string(s) {
            Some((v, k)) => Some((Some(v), k)),
            None => None,
        }
    }
}

/// The probe method a quoted name denotes, if any.
pub open spec fn sp_method_of_name(name: Seq<char>) -> Option<ProbeMethod> {
    if name == method_name(ProbeMethod::Icmp) {
        Some(ProbeMethod::Icmp)
    } else if name == method_name(ProbeMethod::TcpDns) {
        Some(ProbeMethod::TcpDns)
    } else if name == method_name(ProbeMethod::TcpHttps) {
        Some(ProbeMethod::TcpHttps)
    } else if name == method_name(ProbeMethod::TcpHttp) {
        Some(ProbeMethod::TcpHttp)
    } else {
        None
    }
}

pub open spec fn sp_opt_method(s: Seq<char>) -> Option<(Option<ProbeMethod>, int)> {
    if has_prefix(s, null_chars()) {
        Some((None, 4))
    } else {
        match sp_string(s) {
            Some((name, k)) => match sp_method_of_name(name) {
                Some(m) => Some((Some(m), k)),
                None => None,
            },
            None => None,
        }
    }
}

// ---------------------------------------------------------------------
// Executable primitive parsers.
// ---------------------------------------------------------------------
/// Matches the literal `lit` at `pos`.
fn p_lit(v: &Vec<char>, pos: usize, lit: &str) -> (r: Option<usize>)
    requires
        pos <= v@.len(),
    ensures
        match r {
            Some(np) => {
                &&& np == pos + lit@.len()
                &&& np <= v@.len()
                &&& sp_lit(v@.skip(pos as int), lit@) == Some(lit@.len() as int)
            },
            None => sp_lit(v@.skip(pos as int), lit@) is None,
        },
{
    let lc = string_to_chars(lit);
    let ghost s = v@.skip(pos as int);
    if v.len() - pos < lc.len() {
        proof {
            assert(s.len() < lit@.len());
        }
        return None;
    }
    let mut i: usize = 0;
    while i < lc.len()
        invariant
            0 <= i <= lc@.len(),
            lc@ == lit@,
            pos + lc@.len() <= v@.len(),
            s == v@.skip(pos as int),
            forall|k: int| 0 <= k < i ==> s[k] == lit@[k],
        decreases lc@.len() - i,
    {
        if v[pos + i] != lc[i] {
            proof {
                assert(s[i as int] == v@[pos + i]);
                assert(s.take(lit@.len() as int)[i as int] != lit@[i as int]);
            }
            return None;
        }
        proof {
            assert(s[i as int] == v@[pos + i]);
        }
        i = i + 1;
    }
    proof {
        assert(s.take(lit@.len() as int) =~= lit@);
    }
    Some(pos + lc.len())
}

/// Parses a u64 decimal number at `pos`.
fn p_u64(v: &Vec<char>, pos: usize) -> (r: Option<(u64, usize)>)
    requires
        pos <= v@.len(),
    ensures
        match r {
            Some(p) => {
                &&& pos < p.1 <= v@.len()
                &&& sp_u64(v@.skip(pos as int)) == Some((p.0, p.1 - pos as int))
            },
            None => sp_u64(v@.skip(pos as int)) is None,
        },
{
    let ghost s = v@.skip(pos as int);
    proof {
        lemma_digit_run(s);
        assert(s.skip(0) =~= s);
    }
    let mut i: usize = pos;
    let mut acc: u64 = 0;
    while i < v.len()
        invariant
            pos <= i <= v@.len(),
            s == v@.skip(pos as int),
            forall|k: int| 0 <= k < i - pos ==> is_digit(#[trigger] s[k]),
            digit_run(s) == (i - pos) + digit_run(s.skip(i - pos as int)),
            acc == digits_value(s.take(i - pos as int)),
        decreases v@.len() - i,
    {
        let c = v[i];
        proof {
            assert(s[i - pos as int] == v@[i as int]);
            assert(s.skip(i - pos as int)[0] == s[i - pos as int]);
            assert(s.skip(i - pos as int).drop_first() =~= s.skip(i + 1 - pos as int));
        }
        match char_to_digit(c) {
            None => {
                break ;
            },
            Some(d) => {
                proof {
                    assert(s.take(i + 1 - pos as int).drop_last() =~= s.take(i - pos as int));
                    assert(s.take(i + 1 - pos as int).last() == s[i - pos as int]);
                }
                if acc > 0xffff_ffff_ffff_ffffu64 / 10 || (acc == 0xffff_ffff_ffff_ffffu64 / 10
                    && d > 0xffff_ffff_ffff_ffffu64 % 10) {
                    proof {
                        let k = digit_run(s);
                        assert(digits_value(s.take(i + 1 - pos as int)) > u64::MAX);
                        assert(k >= i + 1 - pos);
                        assert(s.take(k).take(i + 1 - pos as int) =~= s.take(i + 1 - pos as int));
                        crate::strutil::lemma_digits_value_monotonic(s.take(k), i + 1 - pos as int);
                        assert(digits_value(s.take(k)) > u64::MAX);
                    }
                    return None;
                }
                acc = acc * 10 + d;
                i = i + 1;
            },
        }
    }
    proof {
        if i < v@.len() {
            assert(!is_digit(s[i - pos as int]));
            assert(digit_run(s.skip(i - pos as int)) == 0);
        } else {
            assert(s.skip(i - pos as int).len() == 0);
        }
        assert(digit_run(s) == i - pos);
    }
    if i == pos {
        proof {
            assert(sp_u64(s) is None);
        }
        None
    } else {
        Some((acc, i))
    }
}

/// Parses a u32 decimal number at `pos`.
fn p_u32(v: &Vec<char>, pos: usize) -> (r: Option<(u32, usize)>)
    requires
        pos <= v@.len(),
    ensures
        match r {
            Some(p) => {
                &&& pos < p.1 <= v@.len()
                &&& sp_u32(v@.skip(pos as int)) == Some((p.0, p.1 - pos as int))
            },
            None => sp_u32(v@.skip(pos as int)) is None,
        },
{
    let ghost s = v@.skip(pos as int);
    match p_u64(v, pos) {
        None => {
            proof {
                let k = digit_run(s);
                if k != 0 {
                    assert(digits_value(s.take(k)) > u64::MAX);
                }
            }
            None
        },
        Some((n, np)) => {
            if n <= 0xffff_ffffu64 {
                Some((n as u32, np))
            } else {
                None
            }
        },
    }
}

/// Parses a quoted escape-free string at `pos`.
fn p_string(v: &Vec<char>, pos: usize) -> (r: Option<(String, usize)>)
    requires
        pos <= v@.len(),
    ensures
        match r {
            Some(p) => {
                &&& pos < p.1 <= v@.len()
                &&& sp_string(v@.skip(pos as int)) == Some((p.0@, p.1 - pos as int))
            },
            None => sp_string(v@.skip(pos as int)) is None,
        },
{
    let ghost s = v@.skip(pos as int);
    if pos >= v.len() {
        return None;
    }
    if v[pos] != '"' {
        proof {
            assert(s[0] == v@[pos as int]);
        }
        return None;
    }
    proof {
        assert(s[0] == v@[pos as int]);
        assert(s.skip(1) =~= v@.skip(pos + 1 as int));
    }
    match find_char_from(v, pos + 1, '"') {
        None => None,
        Some(q) => {
            let mut content: Vec<char> = Vec::new();
            let mut i: usize = pos + 1;
            while i < q
                invariant
                    pos + 1 <= i <= q < v@.len(),
                    content@ =~= v@.subrange(pos + 1 as int, i as int),
                decreases q - i,
            {
                content.push(v[i]);
                proof {
                    assert(content@ =~= v@.subrange(pos + 1 as int, i + 1 as int));
                }
                i = i + 1;
            }
            let text = chars_to_string(&content);
            proof {
                assert(s.skip(1).take(q - (pos + 1)) =~= v@.subrange(pos + 1 as int, q as int));
            }
            Some((text, q + 1))
        },
    }
}

/// Parses `true` or `false` at `pos`.
fn p_bool(v: &Vec<char>, pos: usize) -> (r: Option<(bool, usize)>)
    requires
        pos <= v@.len(),
    ensures
        match r {
            Some(p) => {
                &&& pos < p.1 <= v@.len()
                &&& sp_bool(v@.skip(pos as int)) == Some((p.0, p.1 - pos as int))
            },
            None => sp_bool(v@.skip(pos as int)) is None,
        },
{
    proof {
        reveal_strlit("true");
        reveal_strlit("false");
        assert("true"@ =~= true_chars());
        assert("false"@ =~= false_chars());
    }
    match p_lit(v, pos, "true") {
        Some(np) => Some((true, np)),
        None => match p_lit(v, pos, "false") {
            Some(np) => Some((false, np)),
            None => None,
        },
    }
}

/// Parses `null` or a u32 at `pos`.
fn p_opt_u32(v: &Vec<char>, pos: usize) -> (r: Option<(Option<u32>, usize)>)
    requires
        pos <= v@.len(),
    ensures
        match r {
            Some(p) => {
                &&& pos < p.1 <= v@.len()
                &&& sp_opt_u32(v@.skip(pos as int)) == Some((p.0, p.1 - pos as int))
            },
            None => sp_opt_u32(v@.skip(pos as int)) is None,
        },
{
    proof {
        reveal_strlit("null");
        assert("null"@ =~= null_chars());
    }
    match p_lit(v, pos, "null") {
        Some(np) => Some((None, np)),
        None => match p_u32(v, pos) {
            Some((n, np)) => Some((Some(n), np)),
            None => None,
        },
    }
}

/// Parses `null` or a quoted string at `pos`.
fn p_opt_string(v: &Vec<char>, pos: usize) -> (r: Option<(Option<String>, usize)>)
    requires
        pos <= v@.len(),
    ensures
        match r {
            Some(p) => {
                &&& pos < p.1 <= v@.len()
                &&& sp_opt_string(v@.skip(pos as int)) == Some(
                    (crate::codec::opt_view(p.0), p.1 - pos as int),
                )
            },
            None => sp_opt_string(v@.skip(pos as int)) is None,
        },
{
    proof {
        reveal_strlit("null");
        assert("null"@ =~= null_chars());
    }
    match p_lit(v, pos, "null") {
        Some(np) => Some((None, np)),
        None => match p_string(v, pos) {
            Some((s, np)) => Some((Some(s), np)),
            None => None,
        },
    }
}

/// Parses `null` or a quoted probe-method name at `pos`.
fn p_opt_method(v: &Vec<char>, pos: usize) -> (r: Option<(Option<ProbeMethod>, usize)>)
    requires
        pos <= v@.len(),
    ensures
        match r {
            Some(p) => {
                &&& pos < p.1 <= v@.len()
                &&& sp_opt_method(v@.skip(pos as int)) == Some((p.0, p.1 - pos as int))
            },
            None => sp_opt_method(v@.skip(pos as int)) is None,
        },
{
    proof {
        reveal_strlit("null");
        assert("null"@ =~= null_chars());
    }
    match p_lit(v, pos, "null") {
        Some(np) => Some((None, np)),
        None => match p_string(v, pos) {
            None => None,
            Some((name, np)) => {
                proof {
                    reveal_strlit("Icmp");
                    reveal_strlit("TcpDns");
                    reveal_strlit("TcpHttps");
                    reveal_strlit("TcpHttp");
                    assert("Icmp"@ =~= method_name(ProbeMethod::Icmp));
                    assert("TcpDns"@ =~= method_name(ProbeMethod::TcpDns));
                    assert("TcpHttps"@ =~= method_name(ProbeMethod::TcpHttps));
                    assert("TcpHttp"@ =~= method_name(ProbeMethod::TcpHttp));
                }
                let icmp: String = "Icmp".to_owned();
                let tcp_dns: String = "TcpDns".to_owned();
                let tcp_https: String = "TcpHttps".to_owned();
                let tcp_http: String = "TcpHttp".to_owned();
                if name == icmp {
                    Some((Some(ProbeMethod::Icmp), np))
                } else if name == tcp_dns {
                    Some((Some(ProbeMethod::TcpDns), np))
                } else if name == tcp_https {
                    Some((Some(ProbeMethod::TcpHttps), np))
                } else if name == tcp_http {
                    Some((Some(ProbeMethod::TcpHttp), np))
                } else {
                    None
                }
            },
        },
    }
}

// ---------------------------------------------------------------------
// Composite specification parsers.
// ---------------------------------------------------------------------
/// One sample object, fixed key order.
#[verifier::opaque]
pub open spec fn sp_sample(s: Seq<char>) -> Option<(SampleV, int)> {
    match sp_lit(s, seq!['{'] + enc_key(key_timestamp())) {
        None => None,
        Some(n0) => match sp_u64(s.skip(n0)) {
            None => None,
            Some((ts, n1)) => match sp_lit(s.skip(n0 + n1), seq![','] + enc_key(key_latency())) {
                None => None,
                Some(n2) => match sp_opt_u32(s.skip(n0 + n1 + n2)) {
                    None => None,
                    Some((lat, n3)) => match sp_lit(
                        s.skip(n0 + n1 + n2 + n3),
                        seq![','] + enc_key(key_target()),
                    ) {
                        None => None,
                        Some(n4) => match sp_string(s.skip(n0 + n1 + n2 + n3 + n4)) {
                            None => None,
                            Some((tgt, n5)) => match sp_lit(
                                s.skip(n0 + n1 + n2 + n3 + n4 + n5),
                                seq![','] + enc_key(key_method()),
                            ) {
                                None => None,
                                Some(n6) => match sp_opt_method(
                                    s.skip(n0 + n1 + n2 + n3 + n4 + n5 + n6),
                                ) {
                                    None => None,
                                    Some((m, n7)) => match sp_lit(
                                        s.skip(n0 + n1 + n2 + n3 + n4 + n5 + n6 + n7),
                                        seq!['}'],
                                    ) {
                                        None => None,
                                        Some(n8) => Some(
                                            (
                                                SampleV {
                                                    timestamp_ms: ts,
                                                    latency_ms: lat,
                                                    target: tgt,
                                                    method: m,
                                                },
                                                n0 + n1 + n2 + n3 + n4 + n5 + n6 + n7 + n8,
                                            ),
                                        ),
                                    },
                                },
                            },
                        },
                    },
                },
            },
        },
    }
}

/// The elements of a sample list after the first: ',' element ... ']'.
pub open spec fn sp_samples_rest(s: Seq<char>) -> Option<(Seq<SampleV>, int)>
    decreases s.len(),
{
    if s.len() == 0 {
        None
    } else if s[0] == ']' {
        Some((Seq::<SampleV>::empty(), 1))
    } else if s[0] == ',' {
        match sp_sample(s.skip(1)) {
            None => None,
            Some((x, k)) => if 0 <= k && 1 + k <= s.len() {
                match sp_samples_rest(s.skip(1 + k)) {
                    None => None,
                    Some((xs, k2)) => Some((seq![x] + xs, 1 + k + k2)),
                }
            } else {
                None
            },
        }
    } else {
        None
    }
}

/// A sample list.
pub open spec fn sp_samples(s: Seq<char>) -> Option<(Seq<SampleV>, int)> {
    if s.len() < 1 || s[0] != '[' {
        None
    } else if s.len() >= 2 && s[1] == ']' {
        Some((Seq::<SampleV>::empty(), 2))
    } else {
        match sp_sample(s.skip(1)) {
            None => None,
            Some((x, k)) => if 0 <= k && 1 + k <= s.len() {
                match sp_samples_rest(s.skip(1 + k)) {
                    None => None,
                    Some((xs, k2)) => Some((seq![x] + xs, 1 + k + k2)),
                }
            } else {
                None
            },
        }
    }
}

/// One history entry: quoted target, ':', sample list.
#[verifier::opaque]
pub open spec fn sp_entry(s: Seq<char>) -> Option<(EntryV, int)> {
    match sp_string(s) {
        None => None,
        Some((tgt, n0)) => match sp_lit(s.skip(n0), seq![':']) {
            None => None,
            Some(n1) => match sp_samples(s.skip(n0 + n1)) {
                None => None,
                Some((xs, n2)) => Some((EntryV { target: tgt, samples: xs }, n0 + n1 + n2)),
            },
        },
    }
}

/// The entries of the history object after the first: ',' entry ... '}'.
pub open spec fn sp_entries_rest(s: Seq<char>) -> Option<(Seq<EntryV>, int)>
    decreases s.len(),
{
    if s.len() == 0 {
        None
    } else if s[0] == '}' {
        Some((Seq::<EntryV>::empty(), 1))
    } else if s[0] == ',' {
        match sp_entry(s.skip(1)) {
            None => None,
            Some((x, k)) => if 0 <= k && 1 + k <= s.len() {
                match sp_entries_rest(s.skip(1 + k)) {
                    None => None,
                    Some((xs, k2)) => Some((seq![x] + xs, 1 + k + k2)),
                }
            } else {
                None
            },
        }
    } else {
        None
    }
}

/// The history object.
pub open spec fn sp_history(s: Seq<char>) -> Option<(Seq<EntryV>, int)> {
    if s.len() < 1 || s[0] != '{' {
        None
    } else if s.len() >= 2 && s[1] == '}' {
        Some((Seq::<EntryV>::empty(), 2))
    } else {
        match sp_entry(s.skip(1)) {
            None => None,
            Some((x, k)) => if 0 <= k && 1 + k <= s.len() {
                match sp_entries_rest(s.skip(1 + k)) {
                    None => None,
                    Some((xs, k2)) => Some((seq![x] + xs, 1 + k + k2)),
                }
            } else {
                None
            },
        }
    }
}

/// The elements of a string list after the first.
pub open spec fn sp_strings_rest(s: Seq<char>) -> Option<(Seq<Seq<char>>, int)>
    decreases s.len(),
{
    if s.len() == 0 {
        None
    } else if s[0] == ']' {
        Some((Seq::<Seq<char>>::empty(), 1))
    } else if s[0] == ',' {
        match sp_string(s.skip(1)) {
            None => None,
            Some((x, k)) => if 0 <= k && 1 + k <= s.len() {
                match sp_strings_rest(s.skip(1 + k)) {
                    None => None,
                    Some((xs, k2)) => Some((seq![x] + xs, 1 + k + k2)),
                }
            } else {
                None
            },
        }
    } else {
        None
    }
}

/// A list of quoted strings.
pub open spec fn sp_strings(s: Seq<char>) -> Option<(Seq<Seq<char>>, int)> {
    if s.len() < 1 || s[0] != '[' {
        None
    } else if s.len() >= 2 && s[1] == ']' {
        Some((Seq::<Seq<char>>::empty(), 2))
    } else {
        match sp_string(s.skip(1)) {
            None => None,
            Some((x, k)) => if 0 <= k && 1 + k <= s.len() {
                match sp_strings_rest(s.skip(1 + k)) {
                    None => None,
                    Some((xs, k2)) => Some((seq![x] + xs, 1 + k + k2)),
                }
            } else {
                None
            },
        }
    }
}

/// One site monitor object, fixed key order.
#[verifier::opaque]
pub open spec fn sp_site_cfg(s: Seq<char>) -> Option<(SiteCfgV, int)> {
    match sp_lit(s, seq!['{'] + enc_key(key_url())) {
        None => None,
        Some(n0) => match sp_string(s.skip(n0)) {
            None => None,
            Some((url, n1)) => match sp_lit(s.skip(n0 + n1), seq![','] + enc_key(key_name())) {
                None => None,
                Some(n2) => match sp_opt_string(s.skip(n0 + n1 + n2)) {
                    None => None,
                    Some((name, n3)) => match sp_lit(
                        s.skip(n0 + n1 + n2 + n3),
                        seq![','] + enc_key(key_enabled()),
                    ) {
                        None => None,
                        Some(n4) => match sp_bool(s.skip(n0 + n1 + n2 + n3 + n4)) {
                            None => None,
                            Some((en, n5)) => match sp_lit(
                                s.skip(n0 + n1 + n2 + n3 + n4 + n5),
                                seq!['}'],
                            ) {
                                None => None,
                                Some(n6) => Some(
                                    (
                                        SiteCfgV { url: url, name: name, enabled: en },
                                        n0 + n1 + n2 + n3 + n4 + n5 + n6,
                                    ),
                                ),
                            },
                        },
                    },
                },
            },
        },
    }
}

/// The elements of a site monitor list after the first.
pub open spec fn sp_site_cfgs_rest(s: Seq<char>) -> Option<(Seq<SiteCfgV>, int)>
    decreases s.len(),
{
    if s.len() == 0 {
        None
    } else if s[0] == ']' {
        Some((Seq::<SiteCfgV>::empty(), 1))
    } else if s[0] == ',' {
        match sp_site_cfg(s.skip(1)) {
            None => None,
            Some((x, k)) => if 0 <= k && 1 + k <= s.len() {
                match sp_site_cfgs_rest(s.skip(1 + k)) {
                    None => None,
                    Some((xs, k2)) => Some((seq![x] + xs, 1 + k + k2)),
                }
            } else {
                None
            },
        }
    } else {
        None
    }
}

/// A site monitor list.
pub open spec fn sp_site_cfgs(s: Seq<char>) -> Option<(Seq<SiteCfgV>, int)> {
    if s.len() < 1 || s[0] != '[' {
        None
    } else if s.len() >= 2 && s[1] == ']' {
        Some((Seq::<SiteCfgV>::empty(), 2))
    } else {
        match sp_site_cfg(s.skip(1)) {
            None => None,
            Some((x, k)) => if 0 <= k && 1 + k <= s.len() {
                match sp_site_cfgs_rest(s.skip(1 + k)) {
                    None => None,
                    Some((xs, k2)) => Some((seq![x] + xs, 1 + k + k2)),
                }
            } else {
                None
            },
        }
    }
}

/// The VPN settings object, fixed key order.
#[verifier::opaque]
pub open spec fn sp_vpn(s: Seq<char>) -> Option<(VpnV, int)> {
    match sp_lit(s, seq!['{'] + enc_key(key_enabled())) {
        None => None,
        Some(n0) => match sp_bool(s.skip(n0)) {
            None => None,
            Some((en, n1)) => match sp_lit(
                s.skip(n0 + n1),
                seq![','] + enc_key(key_check_interval()),
            ) {
                None => None,
                Some(n2) => match sp_u32(s.skip(n0 + n1 + n2)) {
                    None => None,
                    Some((ci, n3)) => match sp_lit(
                        s.skip(n0 + n1 + n2 + n3),
                        seq![','] + enc_key(key_alert_country()),
                    ) {
                        None => None,
                        Some(n4) => match sp_bool(s.skip(n0 + n1 + n2 + n3 + n4)) {
                            None => None,
                            Some((ac, n5)) => match sp_lit(
                                s.skip(n0 + n1 + n2 + n3 + n4 + n5),
                                seq![','] + enc_key(key_alert_ip()),
                            ) {
                                None => None,
                                Some(n6) => match sp_bool(s.skip(n0 + n1 + n2 + n3 + n4 + n5 + n6)) {
                                    None => None,
                                    Some((ai, n7)) => match sp_lit(
                                        s.skip(n0 + n1 + n2 + n3 + n4 + n5 + n6 + n7),
                                        seq![','] + enc_key(key_expected_country()),
                                    ) {
                                        None => None,
                                        Some(n8) => match sp_opt_string(
                                            s.skip(n0 + n1 + n2 + n3 + n4 + n5 + n6 + n7 + n8),
                                        ) {
                                            None => None,
                                            Some((ec, n9)) => match sp_lit(
                                                s.skip(
                                                    n0 + n1 + n2 + n3 + n4 + n5 + n6 + n7 + n8
                                                        + n9,
                                                ),
                                                seq!['}'],
                                            ) {
                                                None => None,
                                                Some(n10) => Some(
                                                    (
                                                        VpnV {
                                                            enabled: en,
                                                            check_interval_secs: ci,
                                                            alert_on_country_change: ac,
                                                            alert_on_ip_change: ai,
                                                            expected_country: ec,
                                                        },
                                                        n0 + n1 + n2 + n3 + n4 + n5 + n6 + n7 + n8
                                                            + n9 + n10,
                                                    ),
                                                ),
                                            },
                                        },
                                    },
                                },
                            },
                        },
                    },
                },
            },
        },
    }
}

/// The first half of the snapshot object: history, targets, primary
/// target and threshold.
#[verifier::opaque]
pub open spec fn sp_snap_head(s: Seq<char>) -> Option<
    ((Seq<EntryV>, Seq<Seq<char>>, Seq<char>, u32), int),
> {
    match sp_lit(s, seq!['{'] + enc_key(key_history())) {
        None => None,
        Some(n0) => match sp_history(s.skip(n0)) {
            None => None,
            Some((hist, n1)) => match sp_lit(s.skip(n0 + n1), seq![','] + enc_key(key_targets())) {
                None => None,
                Some(n2) => match sp_strings(s.skip(n0 + n1 + n2)) {
                    None => None,
                    Some((tgts, n3)) => match sp_lit(
                        s.skip(n0 + n1 + n2 + n3),
                        seq![','] + enc_key(key_primary()),
                    ) {
                        None => None,
                        Some(n4) => match sp_string(s.skip(n0 + n1 + n2 + n3 + n4)) {
                            None => None,
                            Some((prim, n5)) => match sp_lit(
                                s.skip(n0 + n1 + n2 + n3 + n4 + n5),
                                seq![','] + enc_key(key_threshold()),
                            ) {
                                None => None,
                                Some(n6) => match sp_u32(s.skip(n0 + n1 + n2 + n3 + n4 + n5 + n6)) {
                                    None => None,
                                    Some((thr, n7)) => Some(
                                        (
                                            (hist, tgts, prim, thr),
                                            n0 + n1 + n2 + n3 + n4 + n5 + n6 + n7,
                                        ),
                                    ),
                                },
                            },
                        },
                    },
                },
            },
        },
    }
}

/// The second half of the snapshot object: site monitors, VPN settings,
/// probe interval and the closing brace.
#[verifier::opaque]
pub open spec fn sp_snap_tail(s: Seq<char>) -> Option<((Seq<SiteCfgV>, VpnV, u32), int)> {
    match sp_lit(s, seq![','] + enc_key(key_sites())) {
        None => None,
        Some(n0) => match sp_site_cfgs(s.skip(n0)) {
            None => None,
            Some((sites, n1)) => match sp_lit(s.skip(n0 + n1), seq![','] + enc_key(key_vpn())) {
                None => None,
                Some(n2) => match sp_vpn(s.skip(n0 + n1 + n2)) {
                    None => None,
                    Some((vpn, n3)) => match sp_lit(
                        s.skip(n0 + n1 + n2 + n3),
                        seq![','] + enc_key(key_interval()),
                    ) {
                        None => None,
                        Some(n4) => match sp_u32(s.skip(n0 + n1 + n2 + n3 + n4)) {
                            None => None,
                            Some((iv, n5)) => match sp_lit(
                                s.skip(n0 + n1 + n2 + n3 + n4 + n5),
                                seq!['}'],
                            ) {
                                None => None,
                                Some(n6) => Some(
                                    ((sites, vpn, iv), n0 + n1 + n2 + n3 + n4 + n5 + n6),
                                ),
                            },
                        },
                    },
                },
            },
        },
    }
}

/// The whole snapshot object, fixed key order.
pub open spec fn sp_snapshot(s: Seq<char>) -> Option<(SnapshotV, int)> {
    match sp_snap_head(s) {
        None => None,
        Some(((hist, tgts, prim, thr), n)) => match sp_snap_tail(s.skip(n)) {
            None => None,
            Some(((sites, vpn, iv), m)) => Some(
                (
                    SnapshotV {
                        history: hist,
                        targets: tgts,
                        primary_target: prim,
                        notification_threshold_ms: thr,
                        site_monitors: sites,
                        vpn_settings: vpn,
                        ping_interval_secs: iv,
                    },
                    n + m,
                ),
            ),
        },
    }
}

// ---------------------------------------------------------------------
// Executable composite parsers.
// ---------------------------------------------------------------------
/// Parses one sample object at `pos`.
#[verifier::rlimit(100)]
fn p_sample(v: &Vec<char>, pos: usize) -> (r: Option<(crate::history::PingResult, usize)>)
    requires
        pos <= v@.len(),
    ensures
        match r {
            Some(p) => {
                &&& pos < p.1 <= v@.len()
                &&& sp_sample(v@.skip(pos as int)) == Some(
                    (crate::codec::sample_view(p.0), p.1 - pos as int),
                )
            },
            None => sp_sample(v@.skip(pos as int)) is None,
        },
{
    proof {
        reveal(sp_sample);
    }
    let ghost s = v@.skip(pos as int);
    proof {
        reveal_strlit("{\"timestamp\":");
        reveal(crate::codec::key_timestamp);
        assert("{\"timestamp\":"@ =~= seq!['{'] + enc_key(key_timestamp()));
        reveal_strlit(",\"latency_ms\":");
        reveal(crate::codec::key_latency);
        assert(",\"latency_ms\":"@ =~= seq![','] + enc_key(key_latency()));
        reveal_strlit(",\"target\":");
        reveal(crate::codec::key_target);
        assert(",\"target\":"@ =~= seq![','] + enc_key(key_target()));
        reveal_strlit(",\"method\":");
        reveal(crate::codec::key_method);
        assert(",\"method\":"@ =~= seq![','] + enc_key(key_method()));
        reveal_strlit("}");
        assert("}"@ =~= seq!['}']);
    }
    let c0 = match p_lit(v, pos, "{\"timestamp\":") {
        None => {
            return None;
        },
        Some(x) => x,
    };
    proof {
        assert(v@.skip(c0 as int) =~= s.skip(c0 - pos));
    }
    let (ts, c1) = match p_u64(v, c0) {
        None => {
            return None;
        },
        Some(x) => x,
    };
    proof {
        assert(v@.skip(c1 as int) =~= s.skip(c1 - pos));
    }
    let c2 = match p_lit(v, c1, ",\"latency_ms\":") {
        None => {
            return None;
        },
        Some(x) => x,
    };
    proof {
        assert(v@.skip(c2 as int) =~= s.skip(c2 - pos));
    }
    let (lat, c3) = match p_opt_u32(v, c2) {
        None => {
            return None;
        },
        Some(x) => x,
    };
    proof {
        assert(v@.skip(c3 as int) =~= s.skip(c3 - pos));
    }
    let c4 = match p_lit(v, c3, ",\"target\":") {
        None => {
            return None;
        },
        Some(x) => x,
    };
    proof {
        assert(v@.skip(c4 as int) =~= s.skip(c4 - pos));
    }
    let (tgt, c5) = match p_string(v, c4) {
        None => {
            return None;
        },
        Some(x) => x,
    };
    proof {
        assert(v@.skip(c5 as int) =~= s.skip(c5 - pos));
    }
    let c6 = match p_lit(v, c5, ",\"method\":") {
        None => {
            return None;
        },
        Some(x) => x,
    };
    proof {
        assert(v@.skip(c6 as int) =~= s.skip(c6 - pos));
    }
    let (m, c7) = match p_opt_method(v, c6) {
        None => {
            return None;
        },
        Some(x) => x,
    };
    proof {
        assert(v@.skip(c7 as int) =~= s.skip(c7 - pos));
    }
    let c8 = match p_lit(v, c7, "}") {
        None => {
            return None;
        },
        Some(x) => x,
    };
    let result = crate::history::PingResult {
        timestamp_ms: ts,
        latency_ms: lat,
        target: tgt,
        method: m,
    };
    Some((result, c8))
}

/// Parses a sample list at `pos`.
#[verifier::rlimit(100)]
#[verifier::loop_isolation(true)]
fn p_samples(v: &Vec<char>, pos: usize) -> (r: Option<(Vec<crate::history::PingResult>, usize)>)
    requires
        pos <= v@.len(),
    ensures
        match r {
            Some(p) => {
                &&& pos < p.1 <= v@.len()
                &&& sp_samples(v@.skip(pos as int)) == Some(
                    (crate::codec::samples_view(p.0@), p.1 - pos as int),
                )
            },
            None => sp_samples(v@.skip(pos as int)) is None,
        },
{
    let ghost s = v@.skip(pos as int);
    if pos >= v.len() {
        return None;
    }
    if v[pos] != '[' {
        proof {
            assert(s[0] == v@[pos as int]);
        }
        return None;
    }
    proof {
        assert(s[0] == v@[pos as int]);
    }
    if pos + 1 < v.len() && v[pos + 1] == ']' {
        proof {
            assert(s[1] == v@[pos + 1]);
            assert(crate::codec::samples_view(Seq::<crate::history::PingResult>::empty()) =~= Seq::<
                SampleV,
            >::empty());
        }
        return Some((Vec::new(), pos + 2));
    }
    proof {
        if pos + 1 < v@.len() {
            assert(s[1] == v@[pos + 1]);
        }
        assert(!(s.len() >= 2 && s[1] == ']'));
        assert(v@.skip(pos + 1 as int) =~= s.skip(1));
    }
    let (first, start) = match p_sample(v, pos + 1) {
        None => {
            return None;
        },
        Some(x) => x,
    };
    let mut acc: Vec<crate::history::PingResult> = Vec::new();
    acc.push(first);
    proof {
        let k = start - (pos + 1);
        assert(0 <= k && 1 + k <= s.len());
        assert(s.skip(1 + k) =~= v@.skip(start as int));
        assert(crate::codec::samples_view(acc@) =~= seq![crate::codec::sample_view(first)]);
    }
    let mut cur: usize = start;
    loop
        invariant
            pos + 1 <= cur <= v@.len(),
            s == v@.skip(pos as int),
            acc@.len() >= 1,
            match sp_samples_rest(v@.skip(cur as int)) {
                Some((xs, k2)) => sp_samples(s) == Some(
                    (crate::codec::samples_view(acc@) + xs, (cur - pos) + k2),
                ),
                None => sp_samples(s) is None,
            },
        decreases v@.len() - cur,
    {
        if cur >= v.len() {
            proof {
                assert(v@.skip(cur as int).len() == 0);
            }
            return None;
        }
        let ghost scur = v@.skip(cur as int);
        proof {
            assert(scur[0] == v@[cur as int]);
        }
        if v[cur] == ']' {
            proof {
                assert(sp_samples_rest(scur) == Some((Seq::<SampleV>::empty(), 1int)));
                assert(crate::codec::samples_view(acc@) + Seq::<SampleV>::empty()
                    =~= crate::codec::samples_view(acc@));
            }
            return Some((acc, cur + 1));
        }
        if v[cur] != ',' {
            return None;
        }
        proof {
            assert(scur.skip(1) =~= v@.skip(cur + 1 as int));
        }
        let (x, nxt) = match p_sample(v, cur + 1) {
            None => {
                return None;
            },
            Some(x) => x,
        };
        proof {
            let k = nxt - (cur + 1);
            assert(0 <= k && 1 + k <= scur.len());
            assert(scur.skip(1 + k) =~= v@.skip(nxt as int));
            let ghost xv = crate::codec::sample_view(x);
            match sp_samples_rest(v@.skip(nxt as int)) {
                Some((xs2, k2)) => {
                    assert(sp_samples_rest(scur) == Some((seq![xv] + xs2, 1 + k + k2)));
                    assert(crate::codec::samples_view(acc@) + (seq![xv] + xs2)
                        =~= crate::codec::samples_view(acc@.push(x)) + xs2);
                },
                None => {
                    assert(sp_samples_rest(scur) is None);
                },
            }
        }
        acc.push(x);
        cur = nxt;
    }
}

/// Parses one history entry at `pos`.
#[verifier::rlimit(100)]
fn p_entry(v: &Vec<char>, pos: usize) -> (r: Option<(crate::history::TargetEntry, usize)>)
    requires
        pos <= v@.len(),
    ensures
        match r {
            Some(p) => {
                &&& pos < p.1 <= v@.len()
                &&& sp_entry(v@.skip(pos as int)) == Some(
                    (crate::codec::entry_view(p.0), p.1 - pos as int),
                )
            },
            None => sp_entry(v@.skip(pos as int)) is None,
        },
{
    proof {
        reveal(sp_entry);
    }
    let ghost s = v@.skip(pos as int);
    proof {
        reveal_strlit(":");
        assert(":"@ =~= seq![':']);
    }
    let (tgt, c0) = match p_string(v, pos) {
        None => {
            return None;
        },
        Some(x) => x,
    };
    proof {
        assert(v@.skip(c0 as int) =~= s.skip(c0 - pos));
    }
    let c1 = match p_lit(v, c0, ":") {
        None => {
            return None;
        },
        Some(x) => x,
    };
    proof {
        assert(v@.skip(c1 as int) =~= s.skip(c1 - pos));
    }
    let (samples, c2) = match p_samples(v, c1) {
        None => {
            return None;
        },
        Some(x) => x,
    };
    Some((crate::history::TargetEntry { target: tgt, samples }, c2))
}

/// Parses the history object at `pos`.
#[verifier::rlimit(100)]
#[verifier::loop_isolation(true)]
fn p_history(v: &Vec<char>, pos: usize) -> (r: Option<(Vec<crate::history::TargetEntry>, usize)>)
    requires
        pos <= v@.len(),
    ensures
        match r {
            Some(p) => {
                &&& pos < p.1 <= v@.len()
                &&& sp_history(v@.skip(pos as int)) == Some(
                    (crate::codec::entries_view(p.0@), p.1 - pos as int),
                )
            },
            None => sp_history(v@.skip(pos as int)) is None,
        },
{
    let ghost s = v@.skip(pos as int);
    if pos >= v.len() {
        return None;
    }
    if v[pos] != '{' {
        proof {
            assert(s[0] == v@[pos as int]);
        }
        return None;
    }
    proof {
        assert(s[0] == v@[pos as int]);
    }
    if pos + 1 < v.len() && v[pos + 1] == '}' {
        proof {
            assert(s[1] == v@[pos + 1]);
            assert(crate::codec::entries_view(Seq::<crate::history::TargetEntry>::empty())
                =~= Seq::<EntryV>::empty());
        }
        return Some((Vec::new(), pos + 2));
    }
    proof {
        if pos + 1 < v@.len() {
            assert(s[1] == v@[pos + 1]);
        }
        assert(!(s.len() >= 2 && s[1] == '}'));
        assert(v@.skip(pos + 1 as int) =~= s.skip(1));
    }
    let (first, start) = match p_entry(v, pos + 1) {
        None => {
            return None;
        },
        Some(x) => x,
    };
    let mut acc: Vec<crate::history::TargetEntry> = Vec::new();
    acc.push(first);
    proof {
        let k = start - (pos + 1);
        assert(0 <= k && 1 + k <= s.len());
        assert(s.skip(1 + k) =~= v@.skip(start as int));
        assert(crate::codec::entries_view(acc@) =~= seq![crate::codec::entry_view(first)]);
    }
    let mut cur: usize = start;
    loop
        invariant
            pos + 1 <= cur <= v@.len(),
            s == v@.skip(pos as int),
            acc@.len() >= 1,
            match sp_entries_rest(v@.skip(cur as int)) {
                Some((xs, k2)) => sp_history(s) == Some(
                    (crate::codec::entries_view(acc@) + xs, (cur - pos) + k2),
                ),
                None => sp_history(s) is None,
            },
        decreases v@.len() - cur,
    {
        if cur >= v.len() {
            proof {
                assert(v@.skip(cur as int).len() == 0);
            }
            return None;
        }
        let ghost scur = v@.skip(cur as int);
        proof {
            assert(scur[0] == v@[cur as int]);
        }
        if v[cur] == '}' {
            proof {
                assert(sp_entries_rest(scur) == Some((Seq::<EntryV>::empty(), 1int)));
                assert(crate::codec::entries_view(acc@) + Seq::<EntryV>::empty()
                    =~= crate::codec::entries_view(acc@));
            }
            return Some((acc, cur + 1));
        }
        if v[cur] != ',' {
            return None;
        }
        proof {
            assert(scur.skip(1) =~= v@.skip(cur + 1 as int));
        }
        let (x, nxt) = match p_entry(v, cur + 1) {
            None => {
                return None;
            },
            Some(x) => x,
        };
        proof {
            let ghost xv = crate::codec::entry_view(x);
            lemma_entries_rest_step(v@, cur as int, nxt as int, xv);
            match sp_entries_rest(v@.skip(nxt as int)) {
                Some((xs2, k2)) => {
                    assert(crate::codec::entries_view(acc@) + (seq![xv] + xs2)
                        =~= crate::codec::entries_view(acc@.push(x)) + xs2);
                },
                None => {},
            }
        }
        acc.push(x);
        cur = nxt;
    }
}

/// Parses a list of quoted strings at `pos`.
#[verifier::rlimit(100)]
#[verifier::loop_isolation(true)]
fn p_strings(v: &Vec<char>, pos: usize) -> (r: Option<(Vec<String>, usize)>)
    requires
        pos <= v@.len(),
    ensures
        match r {
            Some(p) => {
                &&& pos < p.1 <= v@.len()
                &&& sp_strings(v@.skip(pos as int)) == Some(
                    (crate::codec::strings_view(p.0@), p.1 - pos as int),
                )
            },
            None => sp_strings(v@.skip(pos as int)) is None,
        },
{
    let ghost s = v@.skip(pos as int);
    if pos >= v.len() {
        return None;
    }
    if v[pos] != '[' {
        proof {
            assert(s[0] == v@[pos as int]);
        }
        return None;
    }
    proof {
        assert(s[0] == v@[pos as int]);
    }
    if pos + 1 < v.len() && v[pos + 1] == ']' {
        proof {
            assert(s[1] == v@[pos + 1]);
            assert(crate::codec::strings_view(Seq::<String>::empty()) =~= Seq::<Seq<char>>::empty());
        }
        return Some((Vec::new(), pos + 2));
    }
    proof {
        if pos + 1 < v@.len() {
            assert(s[1] == v@[pos + 1]);
        }
        assert(!(s.len() >= 2 && s[1] == ']'));
        assert(v@.skip(pos + 1 as int) =~= s.skip(1));
    }
    let (first, start) = match p_string(v, pos + 1) {
        None => {
            return None;
        },
        Some(x) => x,
    };
    let mut acc: Vec<String> = Vec::new();
    acc.push(first);
    proof {
        let k = start - (pos + 1);
        assert(0 <= k && 1 + k <= s.len());
        assert(s.skip(1 + k) =~= v@.skip(start as int));
        assert(crate::codec::strings_view(acc@) =~= seq![first@]);
    }
    let mut cur: usize = start;
    loop
        invariant
            pos + 1 <= cur <= v@.len(),
            s == v@.skip(pos as int),
            acc@.len() >= 1,
            match sp_strings_rest(v@.skip(cur as int)) {
                Some((xs, k2)) => sp_strings(s) == Some(
                    (crate::codec::strings_view(acc@) + xs, (cur - pos) + k2),
                ),
                None => sp_strings(s) is None,
            },
        decreases v@.len() - cur,
    {
        if cur >= v.len() {
            proof {
                assert(v@.skip(cur as int).len() == 0);
            }
            return None;
        }
        let ghost scur = v@.skip(cur as int);
        proof {
            assert(scur[0] == v@[cur as int]);
        }
        if v[cur] == ']' {
            proof {
                assert(sp_strings_rest(scur) == Some((Seq::<Seq<char>>::empty(), 1int)));
                assert(crate::codec::strings_view(acc@) + Seq::<Seq<char>>::empty()
                    =~= crate::codec::strings_view(acc@));
            }
            return Some((acc, cur + 1));
        }
        if v[cur] != ',' {
            return None;
        }
        proof {
            assert(scur.skip(1) =~= v@.skip(cur + 1 as int));
        }
        let (x, nxt) = match p_string(v, cur + 1) {
            None => {
                return None;
            },
            Some(x) => x,
        };
        proof {
            let k = nxt - (cur + 1);
            assert(0 <= k && 1 + k <= scur.len());
            assert(scur.skip(1 + k) =~= v@.skip(nxt as int));
            let ghost xv = x@;
            match sp_strings_rest(v@.skip(nxt as int)) {
                Some((xs2, k2)) => {
                    assert(sp_strings_rest(scur) == Some((seq![xv] + xs2, 1 + k + k2)));
                    assert(crate::codec::strings_view(acc@) + (seq![xv] + xs2)
                        =~= crate::codec::strings_view(acc@.push(x)) + xs2);
                },
                None => {
                    assert(sp_strings_rest(scur) is None);
                },
            }
        }
        acc.push(x);
        cur = nxt;
    }
}

/// Parses one site monitor object at `pos`.
#[verifier::rlimit(100)]
fn p_site_cfg(v: &Vec<char>, pos: usize) -> (r: Option<(crate::site::SiteMonitorConfig, usize)>)
    requires
        pos <= v@.len(),
    ensures
        match r {
            Some(p) => {
                &&& pos < p.1 <= v@.len()
                &&& sp_site_cfg(v@.skip(pos as int)) == Some(
                    (crate::codec::site_cfg_view(p.0), p.1 - pos as int),
                )
            },
            None => sp_site_cfg(v@.skip(pos as int)) is None,
        },
{
    proof {
        reveal(sp_site_cfg);
    }
    let ghost s = v@.skip(pos as int);
    proof {
        reveal_strlit("{\"url\":");
        reveal(crate::codec::key_url);
        assert("{\"url\":"@ =~= seq!['{'] + enc_key(key_url()));
        reveal_strlit(",\"name\":");
        reveal(crate::codec::key_name);
        assert(",\"name\":"@ =~= seq![','] + enc_key(key_name()));
        reveal_strlit(",\"enabled\":");
        reveal(crate::codec::key_enabled);
        assert(",\"enabled\":"@ =~= seq![','] + enc_key(key_enabled()));
        reveal_strlit("}");
        assert("}"@ =~= seq!['}']);
    }
    let c0 = match p_lit(v, pos, "{\"url\":") {
        None => {
            return None;
        },
        Some(x) => x,
    };
    proof {
        assert(v@.skip(c0 as int) =~= s.skip(c0 - pos));
    }
    let (url, c1) = match p_string(v, c0) {
        None => {
            return None;
        },
        Some(x) => x,
    };
    proof {
        assert(v@.skip(c1 as int) =~= s.skip(c1 - pos));
    }
    let c2 = match p_lit(v, c1, ",\"name\":") {
        None => {
            return None;
        },
        Some(x) => x,
    };
    proof {
        assert(v@.skip(c2 as int) =~= s.skip(c2 - pos));
    }
    let (name, c3) = match p_opt_string(v, c2) {
        None => {
            return None;
        },
        Some(x) => x,
    };
    proof {
        assert(v@.skip(c3 as int) =~= s.skip(c3 - pos));
    }
    let c4 = match p_lit(v, c3, ",\"enabled\":") {
        None => {
            return None;
        },
        Some(x) => x,
    };
    proof {
        assert(v@.skip(c4 as int) =~= s.skip(c4 - pos));
    }
    let (en, c5) = match p_bool(v, c4) {
        None => {
            return None;
        },
        Some(x) => x,
    };
    proof {
        assert(v@.skip(c5 as int) =~= s.skip(c5 - pos));
    }
    let c6 = match p_lit(v, c5, "}") {
        None => {
            return None;
        },
        Some(x) => x,
    };
    Some((crate::site::SiteMonitorConfig { url, name, enabled: en }, c6))
}

/// Parses a site monitor list at `pos`.
#[verifier::rlimit(100)]
#[verifier::loop_isolation(true)]
fn p_site_cfgs(v: &Vec<char>, pos: usize) -> (r: Option<
    (Vec<crate::site::SiteMonitorConfig>, usize),
>)
    requires
        pos <= v@.len(),
    ensures
        match r {
            Some(p) => {
                &&& pos < p.1 <= v@.len()
                &&& sp_site_cfgs(v@.skip(pos as int)) == Some(
                    (crate::codec::site_cfgs_view(p.0@), p.1 - pos as int),
                )
            },
            None => sp_site_cfgs(v@.skip(pos as int)) is None,
        },
{
    let ghost s = v@.skip(pos as int);
    if pos >= v.len() {
        return None;
    }
    if v[pos] != '[' {
        proof {
            assert(s[0] == v@[pos as int]);
        }
        return None;
    }
    proof {
        assert(s[0] == v@[pos as int]);
    }
    if pos + 1 < v.len() && v[pos + 1] == ']' {
        proof {
            assert(s[1] == v@[pos + 1]);
            assert(crate::codec::site_cfgs_view(Seq::<crate::site::SiteMonitorConfig>::empty())
                =~= Seq::<SiteCfgV>::empty());
        }
        return Some((Vec::new(), pos + 2));
    }
    proof {
        if pos + 1 < v@.len() {
            assert(s[1] == v@[pos + 1]);
        }
        assert(!(s.len() >= 2 && s[1] == ']'));
        assert(v@.skip(pos + 1 as int) =~= s.skip(1));
    }
    let (first, start) = match p_site_cfg(v, pos + 1) {
        None => {
            return None;
        },
        Some(x) => x,
    };
    let mut acc: Vec<crate::site::SiteMonitorConfig> = Vec::new();
    acc.push(first);
    proof {
        let k = start - (pos + 1);
        assert(0 <= k && 1 + k <= s.len());
        assert(s.skip(1 + k) =~= v@.skip(start as int));
        assert(crate::codec::site_cfgs_view(acc@) =~= seq![crate::codec::site_cfg_view(first)]);
    }
    let mut cur: usize = start;
    loop
        invariant
            pos + 1 <= cur <= v@.len(),
            s == v@.skip(pos as int),
            acc@.len() >= 1,
            match sp_site_cfgs_rest(v@.skip(cur as int)) {
                Some((xs, k2)) => sp_site_cfgs(s) == Some(
                    (crate::codec::site_cfgs_view(acc@) + xs, (cur - pos) + k2),
                ),
                None => sp_site_cfgs(s) is None,
            },
        decreases v@.len() - cur,
    {
        if cur >= v.len() {
            proof {
                assert(v@.skip(cur as int).len() == 0);
            }
            return None;
        }
        let ghost scur = v@.skip(cur as int);
        proof {
            assert(scur[0] == v@[cur as int]);
        }
        if v[cur] == ']' {
            proof {
                assert(sp_site_cfgs_rest(scur) == Some((Seq::<SiteCfgV>::empty(), 1int)));
                assert(crate::codec::site_cfgs_view(acc@) + Seq::<SiteCfgV>::empty()
                    =~= crate::codec::site_cfgs_view(acc@));
            }
            return Some((acc, cur + 1));
        }
        if v[cur] != ',' {
            return None;
        }
        proof {
            assert(scur.skip(1) =~= v@.skip(cur + 1 as int));
        }
        let (x, nxt) = match p_site_cfg(v, cur + 1) {
            None => {
                return None;
            },
            Some(x) => x,
        };
        proof {
            let k = nxt - (cur + 1);
            assert(0 <= k && 1 + k <= scur.len());
            assert(scur.skip(1 + k) =~= v@.skip(nxt as int));
            let ghost xv = crate::codec::site_cfg_view(x);
            match sp_site_cfgs_rest(v@.skip(nxt as int)) {
                Some((xs2, k2)) => {
                    assert(sp_site_cfgs_rest(scur) == Some((seq![xv] + xs2, 1 + k + k2)));
                    assert(crate::codec::site_cfgs_view(acc@) + (seq![xv] + xs2)
                        =~= crate::codec::site_cfgs_view(acc@.push(x)) + xs2);
                },
                None => {
                    assert(sp_site_cfgs_rest(scur) is None);
                },
            }
        }
        acc.push(x);
        cur = nxt;
    }
}

/// Parses the VPN settings object at `pos`.
#[verifier::rlimit(100)]
fn p_vpn(v: &Vec<char>, pos: usize) -> (r: Option<(crate::identity::VpnSettings, usize)>)
    requires
        pos <= v@.len(),
    ensures
        match r {
            Some(p) => {
                &&& pos < p.1 <= v@.len()
                &&& sp_vpn(v@.skip(pos as int)) == Some(
                    (crate::codec::vpn_view(p.0), p.1 - pos as int),
                )
            },
            None => sp_vpn(v@.skip(pos as int)) is None,
        },
{
    proof {
        reveal(sp_vpn);
    }
    let ghost s = v@.skip(pos as int);
    proof {
        reveal_strlit("{\"enabled\":");
        reveal(crate::codec::key_enabled);
        assert("{\"enabled\":"@ =~= seq!['{'] + enc_key(key_enabled()));
        reveal_strlit(",\"check_interval_secs\":");
        reveal(crate::codec::key_check_interval);
        assert(",\"check_interval_secs\":"@ =~= seq![','] + enc_key(key_check_interval()));
        reveal_strlit(",\"alert_on_country_change\":");
        reveal(crate::codec::key_alert_country);
        assert(",\"alert_on_country_change\":"@ =~= seq![','] + enc_key(key_alert_country()));
        reveal_strlit(",\"alert_on_ip_change\":");
        reveal(crate::codec::key_alert_ip);
        assert(",\"alert_on_ip_change\":"@ =~= seq![','] + enc_key(key_alert_ip()));
        reveal_strlit(",\"expected_country\":");
        reveal(crate::codec::key_expected_country);
        assert(",\"expected_country\":"@ =~= seq![','] + enc_key(key_expected_country()));
        reveal_strlit("}");
        assert("}"@ =~= seq!['}']);
    }
    let c0 = match p_lit(v, pos, "{\"enabled\":") {
        None => {
            return None;
        },
        Some(x) => x,
    };
    proof {
        assert(v@.skip(c0 as int) =~= s.skip(c0 - pos));
    }
    let (en, c1) = match p_bool(v, c0) {
        None => {
            return None;
        },
        Some(x) => x,
    };
    proof {
        assert(v@.skip(c1 as int) =~= s.skip(c1 - pos));
    }
    let c2 = match p_lit(v, c1, ",\"check_interval_secs\":") {
        None => {
            return None;
        },
        Some(x) => x,
    };
    proof {
        assert(v@.skip(c2 as int) =~= s.skip(c2 - pos));
    }
    let (ci, c3) = match p_u32(v, c2) {
        None => {
            return None;
        },
        Some(x) => x,
    };
    proof {
        assert(v@.skip(c3 as int) =~= s.skip(c3 - pos));
    }
    let c4 = match p_lit(v, c3, ",\"alert_on_country_change\":") {
        None => {
            return None;
        },
        Some(x) => x,
    };
    proof {
        assert(v@.skip(c4 as int) =~= s.skip(c4 - pos));
    }
    let (ac, c5) = match p_bool(v, c4) {
        None => {
            return None;
        },
        Some(x) => x,
    };
    proof {
        assert(v@.skip(c5 as int) =~= s.skip(c5 - pos));
    }
    let c6 = match p_lit(v, c5, ",\"alert_on_ip_change\":") {
        None => {
            return None;
        },
        Some(x) => x,
    };
    proof {
        assert(v@.skip(c6 as int) =~= s.skip(c6 - pos));
    }
    let (ai, c7) = match p_bool(v, c6) {
        None => {
            return None;
        },
        Some(x) => x,
    };
    proof {
        assert(v@.skip(c7 as int) =~= s.skip(c7 - pos));
    }
    let c8 = match p_lit(v, c7, ",\"expected_country\":") {
        None => {
            return None;
        },
        Some(x) => x,
    };
    proof {
        assert(v@.skip(c8 as int) =~= s.skip(c8 - pos));
    }
    let (ec, c9) = match p_opt_string(v, c8) {
        None => {
            return None;
        },
        Some(x) => x,
    };
    proof {
        assert(v@.skip(c9 as int) =~= s.skip(c9 - pos));
    }
    let c10 = match p_lit(v, c9, "}") {
        None => {
            return None;
        },
        Some(x) => x,
    };
    let settings = crate::identity::VpnSettings {
        enabled: en,
        check_interval_secs: ci,
        alert_on_country_change: ac,
        alert_on_ip_change: ai,
        expected_country: ec,
    };
    Some((settings, c10))
}

/// Parses the first half of the snapshot object at `pos`.
#[verifier::rlimit(100)]
fn p_snap_head(v: &Vec<char>, pos: usize) -> (r: Option<
    ((Vec<crate::history::TargetEntry>, Vec<String>, String, u32), usize),
>)
    requires
        pos <= v@.len(),
    ensures
        match r {
            Some(p) => {
                &&& pos < p.1 <= v@.len()
                &&& sp_snap_head(v@.skip(pos as int)) == Some(
                    (
                        (
                            crate::codec::entries_view(p.0.0@),
                            crate::codec::strings_view(p.0.1@),
                            p.0.2@,
                            p.0.3,
                        ),
                        p.1 - pos as int,
                    ),
                )
            },
            None => sp_snap_head(v@.skip(pos as int)) is None,
        },
{
    proof {
        reveal(sp_snap_head);
    }
    let ghost s = v@.skip(pos as int);
    proof {
        reveal_strlit("{\"history\":");
        reveal(crate::codec::key_history);
        assert("{\"history\":"@ =~= seq!['{'] + enc_key(key_history()));
        reveal_strlit(",\"targets\":");
        reveal(crate::codec::key_targets);
        assert(",\"targets\":"@ =~= seq![','] + enc_key(key_targets()));
        reveal_strlit(",\"primary_target\":");
        reveal(crate::codec::key_primary);
        assert(",\"primary_target\":"@ =~= seq![','] + enc_key(key_primary()));
        reveal_strlit(",\"notification_threshold_ms\":");
        reveal(crate::codec::key_threshold);
        assert(",\"notification_threshold_ms\":"@ =~= seq![','] + enc_key(key_threshold()));
    }
    let c0 = match p_lit(v, pos, "{\"history\":") {
        None => {
            return None;
        },
        Some(x) => x,
    };
    proof {
        assert(v@.skip(c0 as int) =~= s.skip(c0 - pos));
    }
    let (hist, c1) = match p_history(v, c0) {
        None => {
            return None;
        },
        Some(x) => x,
    };
    proof {
        assert(v@.skip(c1 as int) =~= s.skip(c1 - pos));
    }
    let c2 = match p_lit(v, c1, ",\"targets\":") {
        None => {
            return None;
        },
        Some(x) => x,
    };
    proof {
        assert(v@.skip(c2 as int) =~= s.skip(c2 - pos));
    }
    let (tgts, c3) = match p_strings(v, c2) {
        None => {
            return None;
        },
        Some(x) => x,
    };
    proof {
        assert(v@.skip(c3 as int) =~= s.skip(c3 - pos));
    }
    let c4 = match p_lit(v, c3, ",\"primary_target\":") {
        None => {
            return None;
        },
        Some(x) => x,
    };
    proof {
        assert(v@.skip(c4 as int) =~= s.skip(c4 - pos));
    }
    let (prim, c5) = match p_string(v, c4) {
        None => {
            return None;
        },
        Some(x) => x,
    };
    proof {
        assert(v@.skip(c5 as int) =~= s.skip(c5 - pos));
    }
    let c6 = match p_lit(v, c5, ",\"notification_threshold_ms\":") {
        None => {
            return None;
        },
        Some(x) => x,
    };
    proof {
        assert(v@.skip(c6 as int) =~= s.skip(c6 - pos));
    }
    let (thr, c7) = match p_u32(v, c6) {
        None => {
            return None;
        },
        Some(x) => x,
    };
    Some(((hist, tgts, prim, thr), c7))
}

/// Parses the second half of the snapshot object at `pos`.
#[verifier::rlimit(100)]
fn p_snap_tail(v: &Vec<char>, pos: usize) -> (r: Option<
    ((Vec<crate::site::SiteMonitorConfig>, crate::identity::VpnSettings, u32), usize),
>)
    requires
        pos <= v@.len(),
    ensures
        match r {
            Some(p) => {
                &&& pos < p.1 <= v@.len()
                &&& sp_snap_tail(v@.skip(pos as int)) == Some(
                    (
                        (crate::codec::site_cfgs_view(p.0.0@), crate::codec::vpn_view(p.0.1), p.0.2),
                        p.1 - pos as int,
                    ),
                )
            },
            None => sp_snap_tail(v@.skip(pos as int)) is None,
        },
{
    proof {
        reveal(sp_snap_tail);
    }
    let ghost s = v@.skip(pos as int);
    proof {
        reveal_strlit(",\"site_monitors\":");
        reveal(crate::codec::key_sites);
        assert(",\"site_monitors\":"@ =~= seq![','] + enc_key(key_sites()));
        reveal_strlit(",\"vpn_settings\":");
        reveal(crate::codec::key_vpn);
        assert(",\"vpn_settings\":"@ =~= seq![','] + enc_key(key_vpn()));
        reveal_strlit(",\"ping_interval_secs\":");
        reveal(crate::codec::key_interval);
        assert(",\"ping_interval_secs\":"@ =~= seq![','] + enc_key(key_interval()));
        reveal_strlit("}");
        assert("}"@ =~= seq!['}']);
    }
    let c0 = match p_lit(v, pos, ",\"site_monitors\":") {
        None => {
            return None;
        },
        Some(x) => x,
    };
    proof {
        assert(v@.skip(c0 as int) =~= s.skip(c0 - pos));
    }
    let (sites, c1) = match p_site_cfgs(v, c0) {
        None => {
            return None;
        },
        Some(x) => x,
    };
    proof {
        assert(v@.skip(c1 as int) =~= s.skip(c1 - pos));
    }
    let c2 = match p_lit(v, c1, ",\"vpn_settings\":") {
        None => {
            return None;
        },
        Some(x) => x,
    };
    proof {
        assert(v@.skip(c2 as int) =~= s.skip(c2 - pos));
    }
    let (vpn, c3) = match p_vpn(v, c2) {
        None => {
            return None;
        },
        Some(x) => x,
    };
    proof {
        assert(v@.skip(c3 as int) =~= s.skip(c3 - pos));
    }
    let c4 = match p_lit(v, c3, ",\"ping_interval_secs\":") {
        None => {
            return None;
        },
        Some(x) => x,
    };
    proof {
        assert(v@.skip(c4 as int) =~= s.skip(c4 - pos));
    }
    let (iv, c5) = match p_u32(v, c4) {
        None => {
            return None;
        },
        Some(x) => x,
    };
    proof {
        assert(v@.skip(c5 as int) =~= s.skip(c5 - pos));
    }
    let c6 = match p_lit(v, c5, "}") {
        None => {
            return None;
        },
        Some(x) => x,
    };
    Some(((sites, vpn, iv), c6))
}

/// Parses the whole snapshot object at `pos`.
#[verifier::rlimit(100)]
fn p_snapshot(v: &Vec<char>, pos: usize) -> (r: Option<(crate::codec::Snapshot, usize)>)
    requires
        pos <= v@.len(),
    ensures
        match r {
            Some(p) => {
                &&& pos < p.1 <= v@.len()
                &&& sp_snapshot(v@.skip(pos as int)) == Some((p.0@, p.1 - pos as int))
            },
            None => sp_snapshot(v@.skip(pos as int)) is None,
        },
{
    let ghost s = v@.skip(pos as int);
    let ((hist, tgts, prim, thr), mid) = match p_snap_head(v, pos) {
        None => {
            return None;
        },
        Some(x) => x,
    };
    proof {
        assert(v@.skip(mid as int) =~= s.skip(mid - pos));
    }
    let ((sites, vpn, iv), endp) = match p_snap_tail(v, mid) {
        None => {
            return None;
        },
        Some(x) => x,
    };
    let snap = crate::codec::Snapshot {
        history: hist,
        targets: tgts,
        primary_target: prim,
        notification_threshold_ms: thr,
        site_monitors: sites,
        vpn_settings: vpn,
        ping_interval_secs: iv,
    };
    Some((snap, endp))
}

/// Decodes a legacy document: a bare array of samples, the whole input.
pub fn decode_legacy_samples(text: &str) -> (r: Option<Vec<crate::history::PingResult>>)
    ensures
        match sp_samples(text@) {
            Some((sv, n)) => if n == text@.len() {
                r is Some && crate::codec::samples_view(r->Some_0@) == sv
            } else {
                r is None
            },
            None => r is None,
        },
{
    let chars = string_to_chars(text);
    proof {
        assert(chars@.skip(0) =~= chars@);
    }
    match p_samples(&chars, 0) {
        None => None,
        Some((samples, np)) => {
            if np == chars.len() {
                Some(samples)
            } else {
                None
            }
        },
    }
}

/// Decodes a full snapshot document: the whole input must be one
/// canonical snapshot object, with nothing trailing.
pub fn decode_snapshot(text: &str) -> (r: Option<crate::codec::Snapshot>)
    ensures
        match sp_snapshot(text@) {
            Some((sv, n)) => if n == text@.len() {
                r is Some && r->Some_0@ == sv
            } else {
                r is None
            },
            None => r is None,
        },
{
    let chars = string_to_chars(text);
    proof {
        assert(chars@.skip(0) =~= chars@);
    }
    match p_snapshot(&chars, 0) {
        None => None,
        Some((snap, np)) => {
            if np == chars.len() {
                Some(snap)
            } else {
                None
            }
        },
    }
}

// ---------------------------------------------------------------------
// Round trip: parsing a canonical encoding recovers the encoded value.
// ---------------------------------------------------------------------
/// Splitting a concatenation back at the seam.
proof fn lemma_unconcat(a: Seq<char>, b: Seq<char>)
    ensures
        (a + b).skip(a.len() as int) =~= b,
        has_prefix(a + b, a),
        sp_lit(a + b, a) == Some(a.len() as int),
{
    assert((a + b).take(a.len() as int) =~= a);
    assert((a + b).skip(a.len() as int) =~= b);
}

/// A digit run followed by a non-digit (or nothing) is read back whole.
proof fn lemma_digit_run_exact(d: Seq<char>, rest: Seq<char>)
    requires
        crate::strutil::all_digits(d),
        rest.len() == 0 || !is_digit(rest[0]),
    ensures
        digit_run(d + rest) == d.len(),
    decreases d.len(),
{
    if d.len() == 0 {
        assert(d + rest =~= rest);
    } else {
        assert((d + rest)[0] == d[0]);
        assert((d + rest).drop_first() =~= d.drop_first() + rest);
        assert(crate::strutil::all_digits(d.drop_first())) by {
            assert(forall|k: int|
                0 <= k < d.drop_first().len() ==> #[trigger] d.drop_first()[k] == d[k + 1]);
        }
        lemma_digit_run_exact(d.drop_first(), rest);
    }
}

proof fn lemma_sp_u64_rt(n: u64, rest: Seq<char>)
    requires
        rest.len() == 0 || !is_digit(rest[0]),
    ensures
        sp_u64(crate::codec::enc_u64(n) + rest) == Some((n, crate::codec::enc_u64(n).len() as int)),
{
    let d = crate::codec::enc_u64(n);
    crate::strutil::lemma_digits_value_of_dec(n as nat);
    lemma_digit_run_exact(d, rest);
    assert((d + rest).take(d.len() as int) =~= d);
}

proof fn lemma_sp_u32_rt(n: u32, rest: Seq<char>)
    requires
        rest.len() == 0 || !is_digit(rest[0]),
    ensures
        sp_u32(crate::codec::enc_u32(n) + rest) == Some((n, crate::codec::enc_u32(n).len() as int)),
{
    let d = crate::codec::enc_u32(n);
    crate::strutil::lemma_digits_value_of_dec(n as nat);
    lemma_digit_run_exact(d, rest);
    assert((d + rest).take(d.len() as int) =~= d);
}

/// The first occurrence of `c` is exactly where it stands.
proof fn lemma_find_char_at(s: Seq<char>, c: char, i: int)
    requires
        0 <= i < s.len(),
        s[i] == c,
        forall|k: int| 0 <= k < i ==> s[k] != c,
    ensures
        spec_find_char(s, c) == Some(i),
    decreases i,
{
    if i == 0 {
    } else {
        assert(s[0] != c);
        lemma_find_char_at(s.drop_first(), c, i - 1);
    }
}

proof fn lemma_sp_string_rt(t: Seq<char>, rest: Seq<char>)
    requires
        crate::codec::plain_str(t),
    ensures
        sp_string(crate::codec::enc_string(t) + rest) == Some((t, t.len() + 2int)),
{
    let s = crate::codec::enc_string(t) + rest;
    assert(s[0] == '"');
    assert(s.skip(1) =~= t + (seq!['"'] + rest));
    let s1 = s.skip(1);
    assert(s1[t.len() as int] == '"');
    assert(forall|k: int| 0 <= k < t.len() ==> s1[k] == t[k] && s1[k] != '"');
    lemma_find_char_at(s1, '"', t.len() as int);
    assert(s1.take(t.len() as int) =~= t);
}

proof fn lemma_sp_bool_rt(b: bool, rest: Seq<char>)
    ensures
        sp_bool(crate::codec::enc_bool(b) + rest) == Some(
            (b, crate::codec::enc_bool(b).len() as int),
        ),
{
    let s = crate::codec::enc_bool(b) + rest;
    if b {
        lemma_unconcat(crate::codec::true_chars(), rest);
        assert(s =~= crate::codec::true_chars() + rest);
    } else {
        lemma_unconcat(crate::codec::false_chars(), rest);
        assert(s =~= crate::codec::false_chars() + rest);
        assert(s[0] == 'f');
        if has_prefix(s, crate::codec::true_chars()) {
            assert(s.take(4)[0] == 't');
            assert(false);
        }
    }
}

/// `null` never begins like a digit, a quote or a brace, so the optional
/// parsers are unambiguous.
proof fn lemma_sp_opt_u32_rt(o: Option<u32>, rest: Seq<char>)
    requires
        rest.len() == 0 || !is_digit(rest[0]),
    ensures
        sp_opt_u32(crate::codec::enc_opt_u32(o) + rest) == Some(
            (o, crate::codec::enc_opt_u32(o).len() as int),
        ),
{
    let s = crate::codec::enc_opt_u32(o) + rest;
    match o {
        None => {
            lemma_unconcat(null_chars(), rest);
            assert(s =~= null_chars() + rest);
        },
        Some(n) => {
            crate::strutil::lemma_dec_digits_len(n as nat);
            assert(s[0] == crate::codec::enc_u32(n)[0]);
            assert(is_digit(s[0]));
            if has_prefix(s, null_chars()) {
                assert(s.take(4)[0] == 'n');
                assert(false);
            }
            lemma_sp_u32_rt(n, rest);
        },
    }
}

proof fn lemma_sp_opt_string_rt(o: Option<Seq<char>>, rest: Seq<char>)
    requires
        crate::codec::opt_plain(o),
    ensures
        sp_opt_string(crate::codec::enc_opt_string(o) + rest) == Some(
            (o, crate::codec::enc_opt_string(o).len() as int),
        ),
{
    let s = crate::codec::enc_opt_string(o) + rest;
    match o {
        None => {
            lemma_unconcat(null_chars(), rest);
            assert(s =~= null_chars() + rest);
        },
        Some(t) => {
            assert(s[0] == '"');
            if has_prefix(s, null_chars()) {
                assert(s.take(4)[0] == 'n');
                assert(false);
            }
            lemma_sp_string_rt(t, rest);
        },
    }
}

proof fn lemma_sp_opt_method_rt(o: Option<crate::history::ProbeMethod>, rest: Seq<char>)
    ensures
        sp_opt_method(crate::codec::enc_opt_method(o) + rest) == Some(
            (o, crate::codec::enc_opt_method(o).len() as int),
        ),
{
    let s = crate::codec::enc_opt_method(o) + rest;
    match o {
        None => {
            lemma_unconcat(null_chars(), rest);
            assert(s =~= null_chars() + rest);
        },
        Some(m) => {
            let name = crate::codec::method_name(m);
            assert(crate::codec::plain_str(name)) by {
                match m {
                    crate::history::ProbeMethod::Icmp => {},
                    crate::history::ProbeMethod::TcpDns => {},
                    crate::history::ProbeMethod::TcpHttps => {},
                    crate::history::ProbeMethod::TcpHttp => {},
                }
            }
            assert(s[0] == '"');
            if has_prefix(s, null_chars()) {
                assert(s.take(4)[0] == 'n');
                assert(false);
            }
            lemma_sp_string_rt(name, rest);
            assert(sp_method_of_name(name) == Some(m));
        },
    }
}

proof fn lemma_skip_skip(s: Seq<char>, a: int, b: int)
    requires
        0 <= a,
        0 <= b,
        a + b <= s.len(),
    ensures
        s.skip(a).skip(b) == s.skip(a + b),
{
    assert(s.skip(a).skip(b) =~= s.skip(a + b));
}


proof fn lemma_shape_samples_rest(xs: Seq<SampleV>, rest: Seq<char>)
    requires
        xs.len() > 0,
    ensures
        crate::codec::enc_samples_rest(xs) + seq![']'] + rest == seq![','] + (
        crate::codec::enc_sample(xs[0]) + (crate::codec::enc_samples_rest(xs.drop_first()) + (
        seq![']'] + rest))),
        crate::codec::enc_samples_rest(xs.drop_first()) + seq![']'] + rest
            == crate::codec::enc_samples_rest(xs.drop_first()) + (seq![']'] + rest),
{
    let c = seq![','];
    let e0 = crate::codec::enc_sample(xs[0]);
    let er = crate::codec::enc_samples_rest(xs.drop_first());
    let b = seq![']'];
    vstd::seq_lib::lemma_concat_associative(c + e0 + er, b, rest);
    vstd::seq_lib::lemma_concat_associative(c + e0, er, b + rest);
    vstd::seq_lib::lemma_concat_associative(c, e0, er + (b + rest));
    vstd::seq_lib::lemma_concat_associative(er, b, rest);
}

proof fn lemma_shape_samples(xs: Seq<SampleV>, rest: Seq<char>)
    requires
        xs.len() > 0,
    ensures
        crate::codec::enc_samples(xs) + rest == seq!['['] + (crate::codec::enc_sample(xs[0]) + (
        crate::codec::enc_samples_rest(xs.drop_first()) + (seq![']'] + rest))),
        crate::codec::enc_samples_rest(xs.drop_first()) + seq![']'] + rest
            == crate::codec::enc_samples_rest(xs.drop_first()) + (seq![']'] + rest),
{
    let o = seq!['['];
    let e0 = crate::codec::enc_sample(xs[0]);
    let er = crate::codec::enc_samples_rest(xs.drop_first());
    let b = seq![']'];
    vstd::seq_lib::lemma_concat_associative(o + e0 + er, b, rest);
    vstd::seq_lib::lemma_concat_associative(o + e0, er, b + rest);
    vstd::seq_lib::lemma_concat_associative(o, e0, er + (b + rest));
    vstd::seq_lib::lemma_concat_associative(er, b, rest);
}

proof fn lemma_shape_entries_rest(xs: Seq<EntryV>, rest: Seq<char>)
    requires
        xs.len() > 0,
    ensures
        crate::codec::enc_entries_rest(xs) + seq!['}'] + rest == seq![','] + (
        crate::codec::enc_entry(xs[0]) + (crate::codec::enc_entries_rest(xs.drop_first()) + (
        seq!['}'] + rest))),
        crate::codec::enc_entries_rest(xs.drop_first()) + seq!['}'] + rest
            == crate::codec::enc_entries_rest(xs.drop_first()) + (seq!['}'] + rest),
{
    let c = seq![','];
    let e0 = crate::codec::enc_entry(xs[0]);
    let er = crate::codec::enc_entries_rest(xs.drop_first());
    let b = seq!['}'];
    vstd::seq_lib::lemma_concat_associative(c + e0 + er, b, rest);
    vstd::seq_lib::lemma_concat_associative(c + e0, er, b + rest);
    vstd::seq_lib::lemma_concat_associative(c, e0, er + (b + rest));
    vstd::seq_lib::lemma_concat_associative(er, b, rest);
}

proof fn lemma_shape_entries(xs: Seq<EntryV>, rest: Seq<char>)
    requires
        xs.len() > 0,
    ensures
        crate::codec::enc_history(xs) + rest == seq!['{'] + (crate::codec::enc_entry(xs[0]) + (
        crate::codec::enc_entries_rest(xs.drop_first()) + (seq!['}'] + rest))),
        crate::codec::enc_entries_rest(xs.drop_first()) + seq!['}'] + rest
            == crate::codec::enc_entries_rest(xs.drop_first()) + (seq!['}'] + rest),
{
    let o = seq!['{'];
    let e0 = crate::codec::enc_entry(xs[0]);
    let er = crate::codec::enc_entries_rest(xs.drop_first());
    let b = seq!['}'];
    vstd::seq_lib::lemma_concat_associative(o + e0 + er, b, rest);
    vstd::seq_lib::lemma_concat_associative(o + e0, er, b + rest);
    vstd::seq_lib::lemma_concat_associative(o, e0, er + (b + rest));
    vstd::seq_lib::lemma_concat_associative(er, b, rest);
}

proof fn lemma_shape_strings_rest(xs: Seq<Seq<char>>, rest: Seq<char>)
    requires
        xs.len() > 0,
    ensures
        crate::codec::enc_strings_rest(xs) + seq![']'] + rest == seq![','] + (
        crate::codec::enc_string(xs[0]) + (crate::codec::enc_strings_rest(xs.drop_first()) + (
        seq![']'] + rest))),
        crate::codec::enc_strings_rest(xs.drop_first()) + seq![']'] + rest
            == crate::codec::enc_strings_rest(xs.drop_first()) + (seq![']'] + rest),
{
    let c = seq![','];
    let e0 = crate::codec::enc_string(xs[0]);
    let er = crate::codec::enc_strings_rest(xs.drop_first());
    let b = seq![']'];
    vstd::seq_lib::lemma_concat_associative(c + e0 + er, b, rest);
    vstd::seq_lib::lemma_concat_associative(c + e0, er, b + rest);
    vstd::seq_lib::lemma_concat_associative(c, e0, er + (b + rest));
    vstd::seq_lib::lemma_concat_associative(er, b, rest);
}

proof fn lemma_shape_strings(xs: Seq<Seq<char>>, rest: Seq<char>)
    requires
        xs.len() > 0,
    ensures
        crate::codec::enc_strings(xs) + rest == seq!['['] + (crate::codec::enc_string(xs[0]) + (
        crate::codec::enc_strings_rest(xs.drop_first()) + (seq![']'] + rest))),
        crate::codec::enc_strings_rest(xs.drop_first()) + seq![']'] + rest
            == crate::codec::enc_strings_rest(xs.drop_first()) + (seq![']'] + rest),
{
    let o = seq!['['];
    let e0 = crate::codec::enc_string(xs[0]);
    let er = crate::codec::enc_strings_rest(xs.drop_first());
    let b = seq![']'];
    vstd::seq_lib::lemma_concat_associative(o + e0 + er, b, rest);
    vstd::seq_lib::lemma_concat_associative(o + e0, er, b + rest);
    vstd::seq_lib::lemma_concat_associative(o, e0, er + (b + rest));
    vstd::seq_lib::lemma_concat_associative(er, b, rest);
}

proof fn lemma_shape_site_cfgs_rest(xs: Seq<SiteCfgV>, rest: Seq<char>)
    requires
        xs.len() > 0,
    ensures
        crate::codec::enc_site_cfgs_rest(xs) + seq![']'] + rest == seq![','] + (
        crate::codec::enc_site_cfg(xs[0]) + (crate::codec::enc_site_cfgs_rest(xs.drop_first()) + (
        seq![']'] + rest))),
        crate::codec::enc_site_cfgs_rest(xs.drop_first()) + seq![']'] + rest
            == crate::codec::enc_site_cfgs_rest(xs.drop_first()) + (seq![']'] + rest),
{
    let c = seq![','];
    let e0 = crate::codec::enc_site_cfg(xs[0]);
    let er = crate::codec::enc_site_cfgs_rest(xs.drop_first());
    let b = seq![']'];
    vstd::seq_lib::lemma_concat_associative(c + e0 + er, b, rest);
    vstd::seq_lib::lemma_concat_associative(c + e0, er, b + rest);
    vstd::seq_lib::lemma_concat_associative(c, e0, er + (b + rest));
    vstd::seq_lib::lemma_concat_associative(er, b, rest);
}

proof fn lemma_shape_site_cfgs(xs: Seq<SiteCfgV>, rest: Seq<char>)
    requires
        xs.len() > 0,
    ensures
        crate::codec::enc_site_cfgs(xs) + rest == seq!['['] + (crate::codec::enc_site_cfg(xs[0]) + (
        crate::codec::enc_site_cfgs_rest(xs.drop_first()) + (seq![']'] + rest))),
        crate::codec::enc_site_cfgs_rest(xs.drop_first()) + seq![']'] + rest
            == crate::codec::enc_site_cfgs_rest(xs.drop_first()) + (seq![']'] + rest),
{
    let o = seq!['['];
    let e0 = crate::codec::enc_site_cfg(xs[0]);
    let er = crate::codec::enc_site_cfgs_rest(xs.drop_first());
    let b = seq![']'];
    vstd::seq_lib::lemma_concat_associative(o + e0 + er, b, rest);
    vstd::seq_lib::lemma_concat_associative(o + e0, er, b + rest);
    vstd::seq_lib::lemma_concat_associative(o, e0, er + (b + rest));
    vstd::seq_lib::lemma_concat_associative(er, b, rest);
}

#[verifier::rlimit(100)]
proof fn lemma_shape_sample(x: SampleV, rest: Seq<char>)
    ensures
        crate::codec::enc_sample(x) + rest == (seq!['{'] + enc_key(key_timestamp())) + (
        crate::codec::enc_u64(x.timestamp_ms) + ((seq![','] + enc_key(key_latency())) + (
        crate::codec::enc_opt_u32(x.latency_ms) + ((seq![','] + enc_key(key_target())) + (
        crate::codec::enc_string(x.target) + ((seq![','] + enc_key(key_method())) + (
        crate::codec::enc_opt_method(x.method) + (seq!['}'] + rest)))))))),
{
    let t1 = seq!['{'];
    let t2 = enc_key(key_timestamp());
    let t3 = crate::codec::enc_u64(x.timestamp_ms);
    let t4 = seq![','];
    let t5 = enc_key(key_latency());
    let t6 = crate::codec::enc_opt_u32(x.latency_ms);
    let t7 = seq![','];
    let t8 = enc_key(key_target());
    let t9 = crate::codec::enc_string(x.target);
    let t10 = seq![','];
    let t11 = enc_key(key_method());
    let t12 = crate::codec::enc_opt_method(x.method);
    let t13 = seq!['}'];
    vstd::seq_lib::lemma_concat_associative(
        t1 + t2 + t3 + t4 + t5 + t6 + t7 + t8 + t9 + t10 + t11 + t12,
        t13,
        rest,
    );
    vstd::seq_lib::lemma_concat_associative(
        t1 + t2 + t3 + t4 + t5 + t6 + t7 + t8 + t9 + t10 + t11,
        t12,
        t13 + rest,
    );
    vstd::seq_lib::lemma_concat_associative(
        t1 + t2 + t3 + t4 + t5 + t6 + t7 + t8 + t9 + t10,
        t11,
        t12 + (t13 + rest),
    );
    vstd::seq_lib::lemma_concat_associative(
        t1 + t2 + t3 + t4 + t5 + t6 + t7 + t8 + t9,
        t10,
        t11 + (t12 + (t13 + rest)),
    );
    vstd::seq_lib::lemma_concat_associative(
        t1 + t2 + t3 + t4 + t5 + t6 + t7 + t8,
        t9,
        t10 + (t11 + (t12 + (t13 + rest))),
    );
    vstd::seq_lib::lemma_concat_associative(
        t1 + t2 + t3 + t4 + t5 + t6 + t7,
        t8,
        t9 + (t10 + (t11 + (t12 + (t13 + rest)))),
    );
    vstd::seq_lib::lemma_concat_associative(
        t1 + t2 + t3 + t4 + t5 + t6,
        t7,
        t8 + (t9 + (t10 + (t11 + (t12 + (t13 + rest))))),
    );
    vstd::seq_lib::lemma_concat_associative(
        t1 + t2 + t3 + t4 + t5,
        t6,
        t7 + (t8 + (t9 + (t10 + (t11 + (t12 + (t13 + rest)))))),
    );
    vstd::seq_lib::lemma_concat_associative(
        t1 + t2 + t3 + t4,
        t5,
        t6 + (t7 + (t8 + (t9 + (t10 + (t11 + (t12 + (t13 + rest))))))),
    );
    vstd::seq_lib::lemma_concat_associative(
        t1 + t2 + t3,
        t4,
        t5 + (t6 + (t7 + (t8 + (t9 + (t10 + (t11 + (t12 + (t13 + rest)))))))),
    );
    vstd::seq_lib::lemma_concat_associative(
        t1 + t2,
        t3,
        t4 + (t5 + (t6 + (t7 + (t8 + (t9 + (t10 + (t11 + (t12 + (t13 + rest))))))))),
    );
    vstd::seq_lib::lemma_concat_associative(
        t1,
        t2,
        t3 + (t4 + (t5 + (t6 + (t7 + (t8 + (t9 + (t10 + (t11 + (t12 + (t13 + rest)))))))))),
    );
}

/// First half of the sample round trip: timestamp and latency fields.
#[verifier::rlimit(100)]
#[verifier::spinoff_prover]
proof fn lemma_rt_sample_head(x: SampleV, rest: Seq<char>)
    ensures
        ({
            let s = crate::codec::enc_sample(x) + rest;
            let lit0 = seq!['{'] + enc_key(key_timestamp());
            let p_ts = crate::codec::enc_u64(x.timestamp_ms);
            let lit1 = seq![','] + enc_key(key_latency());
            let p_lat = crate::codec::enc_opt_u32(x.latency_ms);
            let n0 = lit0.len() as int;
            let n1 = p_ts.len() as int;
            let n2 = lit1.len() as int;
            let n3 = p_lat.len() as int;
            &&& sp_lit(s, lit0) == Some(n0)
            &&& sp_u64(s.skip(n0)) == Some((x.timestamp_ms, n1))
            &&& sp_lit(s.skip(n0 + n1), lit1) == Some(n2)
            &&& sp_opt_u32(s.skip(n0 + n1 + n2)) == Some((x.latency_ms, n3))
            &&& s.skip(n0 + n1 + n2 + n3) == (seq![','] + enc_key(key_target())) + (
            crate::codec::enc_string(x.target) + ((seq![','] + enc_key(key_method())) + (
            crate::codec::enc_opt_method(x.method) + (seq!['}'] + rest))))
            &&& s.len() == crate::codec::enc_sample(x).len() + rest.len()
        }),
{
    let s = crate::codec::enc_sample(x) + rest;
    let lit0 = seq!['{'] + enc_key(key_timestamp());
    let p_ts = crate::codec::enc_u64(x.timestamp_ms);
    let lit1 = seq![','] + enc_key(key_latency());
    let p_lat = crate::codec::enc_opt_u32(x.latency_ms);
    let r4 = (seq![','] + enc_key(key_target())) + (crate::codec::enc_string(x.target) + ((
    seq![','] + enc_key(key_method())) + (crate::codec::enc_opt_method(x.method) + (seq!['}']
        + rest))));
    let r3 = p_lat + r4;
    let r2 = lit1 + r3;
    let r1 = p_ts + r2;
    let n0 = lit0.len() as int;
    let n1 = p_ts.len() as int;
    let n2 = lit1.len() as int;
    let n3 = p_lat.len() as int;
    lemma_shape_sample(x, rest);
    assert(s == lit0 + r1);
    lemma_unconcat(lit0, r1);
    assert(s.skip(n0) == r1);
    assert(r2[0] == ',');
    lemma_sp_u64_rt(x.timestamp_ms, r2);
    lemma_unconcat(p_ts, r2);
    lemma_skip_skip(s, n0, n1);
    assert(s.skip(n0 + n1) == r2);
    lemma_unconcat(lit1, r3);
    lemma_skip_skip(s, n0 + n1, n2);
    assert(s.skip(n0 + n1 + n2) == r3);
    assert(r4[0] == ',');
    lemma_sp_opt_u32_rt(x.latency_ms, r4);
    lemma_unconcat(p_lat, r4);
    lemma_skip_skip(s, n0 + n1 + n2, n3);
    assert(s.skip(n0 + n1 + n2 + n3) == r4);
}

#[verifier::rlimit(100)]
#[verifier::spinoff_prover]
proof fn lemma_rt_sample(x: SampleV, rest: Seq<char>)
    requires
        crate::codec::sample_wf(x),
    ensures
        sp_sample(crate::codec::enc_sample(x) + rest) == Some(
            (x, crate::codec::enc_sample(x).len() as int),
        ),
{
    reveal(sp_sample);
    let s = crate::codec::enc_sample(x) + rest;
    let lit0 = seq!['{'] + enc_key(key_timestamp());
    let p_ts = crate::codec::enc_u64(x.timestamp_ms);
    let lit1 = seq![','] + enc_key(key_latency());
    let p_lat = crate::codec::enc_opt_u32(x.latency_ms);
    let lit2 = seq![','] + enc_key(key_target());
    let p_tgt = crate::codec::enc_string(x.target);
    let lit3 = seq![','] + enc_key(key_method());
    let p_m = crate::codec::enc_opt_method(x.method);
    let close = seq!['}'];
    let r8 = close + rest;
    let r7 = p_m + r8;
    let r6 = lit3 + r7;
    let r5 = p_tgt + r6;
    let r4 = lit2 + r5;
    let n0 = lit0.len() as int;
    let n1 = p_ts.len() as int;
    let n2 = lit1.len() as int;
    let n3 = p_lat.len() as int;
    let n4 = lit2.len() as int;
    let n5 = p_tgt.len() as int;
    let n6 = lit3.len() as int;
    let n7 = p_m.len() as int;
    lemma_rt_sample_head(x, rest);
    assert(s.skip(n0 + n1 + n2 + n3) == r4);
    lemma_unconcat(lit2, r5);
    lemma_skip_skip(s, n0 + n1 + n2 + n3, n4);
    assert(s.skip(n0 + n1 + n2 + n3 + n4) == r5);
    lemma_sp_string_rt(x.target, r6);
    lemma_unconcat(p_tgt, r6);
    lemma_skip_skip(s, n0 + n1 + n2 + n3 + n4, n5);
    assert(s.skip(n0 + n1 + n2 + n3 + n4 + n5) == r6);
    lemma_unconcat(lit3, r7);
    lemma_skip_skip(s, n0 + n1 + n2 + n3 + n4, n5 + n6);
    assert(s.skip(n0 + n1 + n2 + n3 + n4 + n5 + n6) == r7);
    lemma_sp_opt_method_rt(x.method, r8);
    lemma_unconcat(p_m, r8);
    lemma_skip_skip(s, n0 + n1 + n2 + n3 + n4 + n5 + n6, n7);
    assert(s.skip(n0 + n1 + n2 + n3 + n4 + n5 + n6 + n7) == r8);
    lemma_unconcat(close, rest);
    assert(crate::codec::enc_sample(x).len() == n0 + n1 + n2 + n3 + n4 + n5 + n6 + n7 + 1);
}

#[verifier::rlimit(100)]
#[verifier::spinoff_prover]
proof fn lemma_rt_samples_rest(xs: Seq<SampleV>, rest: Seq<char>)
    requires
        crate::codec::samples_wf(xs),
    ensures
        sp_samples_rest(crate::codec::enc_samples_rest(xs) + seq![']'] + rest) == Some(
            (xs, crate::codec::enc_samples_rest(xs).len() + 1int),
        ),
    decreases xs.len(),
{
    let s = crate::codec::enc_samples_rest(xs) + seq![']'] + rest;
    if xs.len() == 0 {
        assert(crate::codec::enc_samples_rest(xs) =~= Seq::<char>::empty());
        assert(s =~= seq![']'] + rest);
        assert(s[0] == ']');
    } else {
        let e0 = crate::codec::enc_sample(xs[0]);
        let tail = crate::codec::enc_samples_rest(xs.drop_first()) + seq![']'] + rest;
        let t = e0 + tail;
        lemma_shape_samples_rest(xs, rest);
        assert(s == seq![','] + t);
        assert(s[0] == ',');
        assert(crate::codec::sample_wf(xs[0]));
        lemma_rt_sample(xs[0], tail);
        lemma_unconcat(seq![','], t);
        assert(s.skip(1) == t);
        assert(sp_sample(s.skip(1)) == Some((xs[0], e0.len() as int)));
        assert(1 + e0.len() <= s.len());
        assert(crate::codec::samples_wf(xs.drop_first())) by {
            assert(forall|k: int|
                0 <= k < xs.drop_first().len() ==> #[trigger] xs.drop_first()[k] == xs[k + 1]);
        }
        lemma_rt_samples_rest(xs.drop_first(), rest);
        lemma_unconcat(e0, tail);
        lemma_skip_skip(s, 1, e0.len() as int);
        assert(s.skip(1 + e0.len() as int) == tail);
        assert(seq![xs[0]] + xs.drop_first() =~= xs);
    }
}

#[verifier::rlimit(100)]
#[verifier::spinoff_prover]
proof fn lemma_rt_samples(xs: Seq<SampleV>, rest: Seq<char>)
    requires
        crate::codec::samples_wf(xs),
    ensures
        sp_samples(crate::codec::enc_samples(xs) + rest) == Some(
            (xs, crate::codec::enc_samples(xs).len() as int),
        ),
{
    let s = crate::codec::enc_samples(xs) + rest;
    if xs.len() == 0 {
        assert(s[0] == '[');
        assert(s[1] == ']');
    } else {
        let e0 = crate::codec::enc_sample(xs[0]);
        let tail = crate::codec::enc_samples_rest(xs.drop_first()) + seq![']'] + rest;
        let t = e0 + tail;
        lemma_shape_samples(xs, rest);
        assert(s == seq!['['] + t);
        assert(s[0] == '[');
        assert(e0[0] == '{');
        assert(s[1] == e0[0]);
        assert(crate::codec::sample_wf(xs[0]));
        lemma_rt_sample(xs[0], tail);
        lemma_unconcat(seq!['['], t);
        assert(s.skip(1) == t);
        assert(sp_sample(s.skip(1)) == Some((xs[0], e0.len() as int)));
        assert(1 + e0.len() <= s.len());
        assert(crate::codec::samples_wf(xs.drop_first())) by {
            assert(forall|k: int|
                0 <= k < xs.drop_first().len() ==> #[trigger] xs.drop_first()[k] == xs[k + 1]);
        }
        lemma_rt_samples_rest(xs.drop_first(), rest);
        lemma_unconcat(e0, tail);
        lemma_skip_skip(s, 1, e0.len() as int);
        assert(s.skip(1 + e0.len() as int) == tail);
        assert(seq![xs[0]] + xs.drop_first() =~= xs);
    }
}

/// One step of walking the history object: consuming ',' and an entry
/// relates the rest-parse before and after.
proof fn lemma_entries_rest_step(w: Seq<char>, cur: int, nxt: int, xv: EntryV)
    requires
        0 <= cur < w.len(),
        w[cur] == ',',
        cur + 1 <= nxt <= w.len(),
        sp_entry(w.skip(cur + 1)) == Some((xv, nxt - (cur + 1))),
    ensures
        sp_entries_rest(w.skip(cur)) == match sp_entries_rest(w.skip(nxt)) {
            Some((xs, k2)) => Some((seq![xv] + xs, (nxt - cur) + k2)),
            None => None::<(Seq<EntryV>, int)>,
        },
{
    let scur = w.skip(cur);
    assert(scur[0] == ',');
    assert(scur.skip(1) =~= w.skip(cur + 1));
    let k = nxt - (cur + 1);
    assert(1 + k <= scur.len());
    assert(scur.skip(1 + k) =~= w.skip(nxt));
}

#[verifier::rlimit(100)]
#[verifier::spinoff_prover]
proof fn lemma_rt_entry(x: EntryV, rest: Seq<char>)
    requires
        crate::codec::entry_wf(x),
    ensures
        sp_entry(crate::codec::enc_entry(x) + rest) == Some(
            (x, crate::codec::enc_entry(x).len() as int),
        ),
{
    reveal(sp_entry);
    let e = crate::codec::enc_entry(x);
    let s = e + rest;
    let p_t = crate::codec::enc_string(x.target);
    let r2 = crate::codec::enc_samples(x.samples) + rest;
    let r1 = seq![':'] + r2;
    let n0 = p_t.len() as int;
    assert(s =~= p_t + r1);
    lemma_sp_string_rt(x.target, r1);
    lemma_unconcat(p_t, r1);
    assert(s.skip(n0) == r1);
    lemma_unconcat(seq![':'], r2);
    lemma_skip_skip(s, n0, 1);
    assert(s.skip(n0 + 1) == r2);
    lemma_rt_samples(x.samples, rest);
    assert(e.len() == n0 + 1 + crate::codec::enc_samples(x.samples).len());
}

#[verifier::rlimit(100)]
#[verifier::spinoff_prover]
proof fn lemma_rt_entries_rest(xs: Seq<EntryV>, rest: Seq<char>)
    requires
        crate::codec::entries_wf(xs),
    ensures
        sp_entries_rest(crate::codec::enc_entries_rest(xs) + seq!['}'] + rest) == Some(
            (xs, crate::codec::enc_entries_rest(xs).len() + 1int),
        ),
    decreases xs.len(),
{
    let s = crate::codec::enc_entries_rest(xs) + seq!['}'] + rest;
    if xs.len() == 0 {
        assert(crate::codec::enc_entries_rest(xs) =~= Seq::<char>::empty());
        assert(s =~= seq!['}'] + rest);
        assert(s[0] == '}');
    } else {
        let e0 = crate::codec::enc_entry(xs[0]);
        let tail = crate::codec::enc_entries_rest(xs.drop_first()) + seq!['}'] + rest;
        let t = e0 + tail;
        lemma_shape_entries_rest(xs, rest);
        assert(s == seq![','] + t);
        assert(s[0] == ',');
        assert(crate::codec::entry_wf(xs[0]));
        lemma_rt_entry(xs[0], tail);
        lemma_unconcat(seq![','], t);
        assert(s.skip(1) == t);
        assert(sp_entry(s.skip(1)) == Some((xs[0], e0.len() as int)));
        assert(1 + e0.len() <= s.len());
        assert(crate::codec::entries_wf(xs.drop_first())) by {
            assert(forall|k: int|
                0 <= k < xs.drop_first().len() ==> #[trigger] xs.drop_first()[k] == xs[k + 1]);
        }
        lemma_rt_entries_rest(xs.drop_first(), rest);
        lemma_unconcat(e0, tail);
        lemma_skip_skip(s, 1, e0.len() as int);
        assert(s.skip(1 + e0.len() as int) == tail);
        assert(seq![xs[0]] + xs.drop_first() =~= xs);
    }
}

#[verifier::rlimit(100)]
#[verifier::spinoff_prover]
proof fn lemma_rt_history(xs: Seq<EntryV>, rest: Seq<char>)
    requires
        crate::codec::entries_wf(xs),
    ensures
        sp_history(crate::codec::enc_history(xs) + rest) == Some(
            (xs, crate::codec::enc_history(xs).len() as int),
        ),
{
    let s = crate::codec::enc_history(xs) + rest;
    if xs.len() == 0 {
        assert(s[0] == '{');
        assert(s[1] == '}');
    } else {
        let e0 = crate::codec::enc_entry(xs[0]);
        let tail = crate::codec::enc_entries_rest(xs.drop_first()) + seq!['}'] + rest;
        let t = e0 + tail;
        lemma_shape_entries(xs, rest);
        assert(s == seq!['{'] + t);
        assert(s[0] == '{');
        assert(e0[0] == '"');
        assert(s[1] == e0[0]);
        assert(crate::codec::entry_wf(xs[0]));
        lemma_rt_entry(xs[0], tail);
        lemma_unconcat(seq!['{'], t);
        assert(s.skip(1) == t);
        assert(sp_entry(s.skip(1)) == Some((xs[0], e0.len() as int)));
        assert(1 + e0.len() <= s.len());
        assert(crate::codec::entries_wf(xs.drop_first())) by {
            assert(forall|k: int|
                0 <= k < xs.drop_first().len() ==> #[trigger] xs.drop_first()[k] == xs[k + 1]);
        }
        lemma_rt_entries_rest(xs.drop_first(), rest);
        lemma_unconcat(e0, tail);
        lemma_skip_skip(s, 1, e0.len() as int);
        assert(s.skip(1 + e0.len() as int) == tail);
        assert(seq![xs[0]] + xs.drop_first() =~= xs);
    }
}

#[verifier::rlimit(100)]
#[verifier::spinoff_prover]
proof fn lemma_rt_strings_rest(xs: Seq<Seq<char>>, rest: Seq<char>)
    requires
        crate::codec::strings_wf(xs),
    ensures
        sp_strings_rest(crate::codec::enc_strings_rest(xs) + seq![']'] + rest) == Some(
            (xs, crate::codec::enc_strings_rest(xs).len() + 1int),
        ),
    decreases xs.len(),
{
    let s = crate::codec::enc_strings_rest(xs) + seq![']'] + rest;
    if xs.len() == 0 {
        assert(crate::codec::enc_strings_rest(xs) =~= Seq::<char>::empty());
        assert(s =~= seq![']'] + rest);
        assert(s[0] == ']');
    } else {
        let e0 = crate::codec::enc_string(xs[0]);
        let tail = crate::codec::enc_strings_rest(xs.drop_first()) + seq![']'] + rest;
        let t = e0 + tail;
        lemma_shape_strings_rest(xs, rest);
        assert(s == seq![','] + t);
        assert(s[0] == ',');
        assert(crate::codec::plain_str(xs[0]));
        lemma_sp_string_rt(xs[0], tail);
        lemma_unconcat(seq![','], t);
        assert(s.skip(1) == t);
        assert(sp_string(s.skip(1)) == Some((xs[0], e0.len() as int)));
        assert(1 + e0.len() <= s.len());
        assert(crate::codec::strings_wf(xs.drop_first())) by {
            assert(forall|k: int|
                0 <= k < xs.drop_first().len() ==> #[trigger] xs.drop_first()[k] == xs[k + 1]);
        }
        lemma_rt_strings_rest(xs.drop_first(), rest);
        lemma_unconcat(e0, tail);
        lemma_skip_skip(s, 1, e0.len() as int);
        assert(s.skip(1 + e0.len() as int) == tail);
        assert(seq![xs[0]] + xs.drop_first() =~= xs);
    }
}

#[verifier::rlimit(100)]
#[verifier::spinoff_prover]
proof fn lemma_rt_strings(xs: Seq<Seq<char>>, rest: Seq<char>)
    requires
        crate::codec::strings_wf(xs),
    ensures
        sp_strings(crate::codec::enc_strings(xs) + rest) == Some(
            (xs, crate::codec::enc_strings(xs).len() as int),
        ),
{
    let s = crate::codec::enc_strings(xs) + rest;
    if xs.len() == 0 {
        assert(s[0] == '[');
        assert(s[1] == ']');
    } else {
        let e0 = crate::codec::enc_string(xs[0]);
        let tail = crate::codec::enc_strings_rest(xs.drop_first()) + seq![']'] + rest;
        let t = e0 + tail;
        lemma_shape_strings(xs, rest);
        assert(s == seq!['['] + t);
        assert(s[0] == '[');
        assert(e0[0] == '"');
        assert(s[1] == e0[0]);
        assert(crate::codec::plain_str(xs[0]));
        lemma_sp_string_rt(xs[0], tail);
        lemma_unconcat(seq!['['], t);
        assert(s.skip(1) == t);
        assert(sp_string(s.skip(1)) == Some((xs[0], e0.len() as int)));
        assert(1 + e0.len() <= s.len());
        assert(crate::codec::strings_wf(xs.drop_first())) by {
            assert(forall|k: int|
                0 <= k < xs.drop_first().len() ==> #[trigger] xs.drop_first()[k] == xs[k + 1]);
        }
        lemma_rt_strings_rest(xs.drop_first(), rest);
        lemma_unconcat(e0, tail);
        lemma_skip_skip(s, 1, e0.len() as int);
        assert(s.skip(1 + e0.len() as int) == tail);
        assert(seq![xs[0]] + xs.drop_first() =~= xs);
    }
}

#[verifier::rlimit(100)]
#[verifier::spinoff_prover]
proof fn lemma_rt_site_cfg(x: SiteCfgV, rest: Seq<char>)
    requires
        crate::codec::site_cfg_wf(x),
    ensures
        sp_site_cfg(crate::codec::enc_site_cfg(x) + rest) == Some(
            (x, crate::codec::enc_site_cfg(x).len() as int),
        ),
{
    reveal(sp_site_cfg);
    let e = crate::codec::enc_site_cfg(x);
    let s = e + rest;
    let lit0 = seq!['{'] + enc_key(key_url());
    let p_url = crate::codec::enc_string(x.url);
    let lit1 = seq![','] + enc_key(key_name());
    let p_name = crate::codec::enc_opt_string(x.name);
    let lit2 = seq![','] + enc_key(key_enabled());
    let p_en = crate::codec::enc_bool(x.enabled);
    let close = seq!['}'];
    let r6 = close + rest;
    let r5 = p_en + r6;
    let r4 = lit2 + r5;
    let r3 = p_name + r4;
    let r2 = lit1 + r3;
    let r1 = p_url + r2;
    let n0 = lit0.len() as int;
    let n1 = p_url.len() as int;
    let n2 = lit1.len() as int;
    let n3 = p_name.len() as int;
    let n4 = lit2.len() as int;
    let n5 = p_en.len() as int;
    assert(s =~= lit0 + r1);
    lemma_unconcat(lit0, r1);
    assert(s.skip(n0) == r1);
    lemma_sp_string_rt(x.url, r2);
    lemma_unconcat(p_url, r2);
    lemma_skip_skip(s, n0, n1);
    assert(s.skip(n0 + n1) == r2);
    lemma_unconcat(lit1, r3);
    lemma_skip_skip(s, n0 + n1, n2);
    assert(s.skip(n0 + n1 + n2) == r3);
    lemma_sp_opt_string_rt(x.name, r4);
    lemma_unconcat(p_name, r4);
    lemma_skip_skip(s, n0 + n1 + n2, n3);
    assert(s.skip(n0 + n1 + n2 + n3) == r4);
    lemma_unconcat(lit2, r5);
    lemma_skip_skip(s, n0 + n1 + n2 + n3, n4);
    assert(s.skip(n0 + n1 + n2 + n3 + n4) == r5);
    lemma_sp_bool_rt(x.enabled, r6);
    lemma_unconcat(p_en, r6);
    lemma_skip_skip(s, n0 + n1 + n2 + n3 + n4, n5);
    assert(s.skip(n0 + n1 + n2 + n3 + n4 + n5) == r6);
    lemma_unconcat(close, rest);
    assert(e.len() == n0 + n1 + n2 + n3 + n4 + n5 + 1);
}

#[verifier::rlimit(100)]
#[verifier::spinoff_prover]
proof fn lemma_rt_site_cfgs_rest(xs: Seq<SiteCfgV>, rest: Seq<char>)
    requires
        crate::codec::site_cfgs_wf(xs),
    ensures
        sp_site_cfgs_rest(crate::codec::enc_site_cfgs_rest(xs) + seq![']'] + rest) == Some(
            (xs, crate::codec::enc_site_cfgs_rest(xs).len() + 1int),
        ),
    decreases xs.len(),
{
    let s = crate::codec::enc_site_cfgs_rest(xs) + seq![']'] + rest;
    if xs.len() == 0 {
        assert(crate::codec::enc_site_cfgs_rest(xs) =~= Seq::<char>::empty());
        assert(s =~= seq![']'] + rest);
        assert(s[0] == ']');
    } else {
        let e0 = crate::codec::enc_site_cfg(xs[0]);
        let tail = crate::codec::enc_site_cfgs_rest(xs.drop_first()) + seq![']'] + rest;
        let t = e0 + tail;
        lemma_shape_site_cfgs_rest(xs, rest);
        assert(s == seq![','] + t);
        assert(s[0] == ',');
        assert(crate::codec::site_cfg_wf(xs[0]));
        lemma_rt_site_cfg(xs[0], tail);
        lemma_unconcat(seq![','], t);
        assert(s.skip(1) == t);
        assert(sp_site_cfg(s.skip(1)) == Some((xs[0], e0.len() as int)));
        assert(1 + e0.len() <= s.len());
        assert(crate::codec::site_cfgs_wf(xs.drop_first())) by {
            assert(forall|k: int|
                0 <= k < xs.drop_first().len() ==> #[trigger] xs.drop_first()[k] == xs[k + 1]);
        }
        lemma_rt_site_cfgs_rest(xs.drop_first(), rest);
        lemma_unconcat(e0, tail);
        lemma_skip_skip(s, 1, e0.len() as int);
        assert(s.skip(1 + e0.len() as int) == tail);
        assert(seq![xs[0]] + xs.drop_first() =~= xs);
    }
}

#[verifier::rlimit(100)]
#[verifier::spinoff_prover]
proof fn lemma_rt_site_cfgs(xs: Seq<SiteCfgV>, rest: Seq<char>)
    requires
        crate::codec::site_cfgs_wf(xs),
    ensures
        sp_site_cfgs(crate::codec::enc_site_cfgs(xs) + rest) == Some(
            (xs, crate::codec::enc_site_cfgs(xs).len() as int),
        ),
{
    let s = crate::codec::enc_site_cfgs(xs) + rest;
    if xs.len() == 0 {
        assert(s[0] == '[');
        assert(s[1] == ']');
    } else {
        let e0 = crate::codec::enc_site_cfg(xs[0]);
        let tail = crate::codec::enc_site_cfgs_rest(xs.drop_first()) + seq![']'] + rest;
        let t = e0 + tail;
        lemma_shape_site_cfgs(xs, rest);
        assert(s == seq!['['] + t);
        assert(s[0] == '[');
        assert(e0[0] == '{');
        assert(s[1] == e0[0]);
        assert(crate::codec::site_cfg_wf(xs[0]));
        lemma_rt_site_cfg(xs[0], tail);
        lemma_unconcat(seq!['['], t);
        assert(s.skip(1) == t);
        assert(sp_site_cfg(s.skip(1)) == Some((xs[0], e0.len() as int)));
        assert(1 + e0.len() <= s.len());
        assert(crate::codec::site_cfgs_wf(xs.drop_first())) by {
            assert(forall|k: int|
                0 <= k < xs.drop_first().len() ==> #[trigger] xs.drop_first()[k] == xs[k + 1]);
        }
        lemma_rt_site_cfgs_rest(xs.drop_first(), rest);
        lemma_unconcat(e0, tail);
        lemma_skip_skip(s, 1, e0.len() as int);
        assert(s.skip(1 + e0.len() as int) == tail);
        assert(seq![xs[0]] + xs.drop_first() =~= xs);
    }
}


#[verifier::rlimit(100)]
proof fn lemma_shape_vpn(x: VpnV, rest: Seq<char>)
    ensures
        crate::codec::enc_vpn(x) + rest == ((seq!['{'] + enc_key(key_enabled())) + (crate::codec::enc_bool(x.enabled) + ((seq![','] + enc_key(key_check_interval())) + (crate::codec::enc_u32(x.check_interval_secs) + ((seq![','] + enc_key(key_alert_country())) + (crate::codec::enc_bool(x.alert_on_country_change) + ((seq![','] + enc_key(key_alert_ip())) + (crate::codec::enc_bool(x.alert_on_ip_change) + ((seq![','] + enc_key(key_expected_country())) + (crate::codec::enc_opt_string(x.expected_country) + (seq!['}'] + rest))))))))))),
{
    vstd::seq_lib::lemma_concat_associative(seq!['{'] + enc_key(key_enabled()) + crate::codec::enc_bool(x.enabled) + seq![','] + enc_key(key_check_interval()) + crate::codec::enc_u32(x.check_interval_secs) + seq![','] + enc_key(key_alert_country()) + crate::codec::enc_bool(x.alert_on_country_change) + seq![','] + enc_key(key_alert_ip()) + crate::codec::enc_bool(x.alert_on_ip_change) + seq![','] + enc_key(key_expected_country()) + crate::codec::enc_opt_string(x.expected_country), seq!['}'], rest);
    vstd::seq_lib::lemma_concat_associative(seq!['{'] + enc_key(key_enabled()) + crate::codec::enc_bool(x.enabled) + seq![','] + enc_key(key_check_interval()) + crate::codec::enc_u32(x.check_interval_secs) + seq![','] + enc_key(key_alert_country()) + crate::codec::enc_bool(x.alert_on_country_change) + seq![','] + enc_key(key_alert_ip()) + crate::codec::enc_bool(x.alert_on_ip_change) + seq![','] + enc_key(key_expected_country()), crate::codec::enc_opt_string(x.expected_country), (seq!['}'] + rest));
    vstd::seq_lib::lemma_concat_associative(seq!['{'] + enc_key(key_enabled()) + crate::codec::enc_bool(x.enabled) + seq![','] + enc_key(key_check_interval()) + crate::codec::enc_u32(x.check_interval_secs) + seq![','] + enc_key(key_alert_country()) + crate::codec::enc_bool(x.alert_on_country_change) + seq![','] + enc_key(key_alert_ip()) + crate::codec::enc_bool(x.alert_on_ip_change) + seq![','], enc_key(key_expected_country()), (crate::codec::enc_opt_string(x.expected_country) + (seq!['}'] + rest)));
    vstd::seq_lib::lemma_concat_associative(seq!['{'] + enc_key(key_enabled()) + crate::codec::enc_bool(x.enabled) + seq![','] + enc_key(key_check_interval()) + crate::codec::enc_u32(x.check_interval_secs) + seq![','] + enc_key(key_alert_country()) + crate::codec::enc_bool(x.alert_on_country_change) + seq![','] + enc_key(key_alert_ip()) + crate::codec::enc_bool(x.alert_on_ip_change), seq![','], (enc_key(key_expected_country()) + (crate::codec::enc_opt_string(x.expected_country) + (seq!['}'] + rest))));
    vstd::seq_lib::lemma_concat_associative(seq!['{'] + enc_key(key_enabled()) + crate::codec::enc_bool(x.enabled) + seq![','] + enc_key(key_check_interval()) + crate::codec::enc_u32(x.check_interval_secs) + seq![','] + enc_key(key_alert_country()) + crate::codec::enc_bool(x.alert_on_country_change) + seq![','] + enc_key(key_alert_ip()), crate::codec::enc_bool(x.alert_on_ip_change), (seq![','] + (enc_key(key_expected_country()) + (crate::codec::enc_opt_string(x.expected_country) + (seq!['}'] + rest)))));
    vstd::seq_lib::lemma_concat_associative(seq!['{'] + enc_key(key_enabled()) + crate::codec::enc_bool(x.enabled) + seq![','] + enc_key(key_check_interval()) + crate::codec::enc_u32(x.check_interval_secs) + seq![','] + enc_key(key_alert_country()) + crate::codec::enc_bool(x.alert_on_country_change) + seq![','], enc_key(key_alert_ip()), (crate::codec::enc_bool(x.alert_on_ip_change) + (seq![','] + (enc_key(key_expected_country()) + (crate::codec::enc_opt_string(x.expected_country) + (seq!['}'] + rest))))));
    vstd::seq_lib::lemma_concat_associative(seq!['{'] + enc_key(key_enabled()) + crate::codec::enc_bool(x.enabled) + seq![','] + enc_key(key_check_interval()) + crate::codec::enc_u32(x.check_interval_secs) + seq![','] + enc_key(key_alert_country()) + crate::codec::enc_bool(x.alert_on_country_change), seq![','], (enc_key(key_alert_ip()) + (crate::codec::enc_bool(x.alert_on_ip_change) + (seq![','] + (enc_key(key_expected_country()) + (crate::codec::enc_opt_string(x.expected_country) + (seq!['}'] + rest)))))));
    vstd::seq_lib::lemma_concat_associative(seq!['{'] + enc_key(key_enabled()) + crate::codec::enc_bool(x.enabled) + seq![','] + enc_key(key_check_interval()) + crate::codec::enc_u32(x.check_interval_secs) + seq![','] + enc_key(key_alert_country()), crate::codec::enc_bool(x.alert_on_country_change), (seq![','] + (enc_key(key_alert_ip()) + (crate::codec::enc_bool(x.alert_on_ip_change) + (seq![','] + (enc_key(key_expected_country()) + (crate::codec::enc_opt_string(x.expected_country) + (seq!['}'] + rest))))))));
    vstd::seq_lib::lemma_concat_associative(seq!['{'] + enc_key(key_enabled()) + crate::codec::enc_bool(x.enabled) + seq![','] + enc_key(key_check_interval()) + crate::codec::enc_u32(x.check_interval_secs) + seq![','], enc_key(key_alert_country()), (crate::codec::enc_bool(x.alert_on_country_change) + (seq![','] + (enc_key(key_alert_ip()) + (crate::codec::enc_bool(x.alert_on_ip_change) + (seq![','] + (enc_key(key_expected_country()) + (crate::codec::enc_opt_string(x.expected_country) + (seq!['}'] + rest)))))))));
    vstd::seq_lib::lemma_concat_associative(seq!['{'] + enc_key(key_enabled()) + crate::codec::enc_bool(x.enabled) + seq![','] + enc_key(key_check_interval()) + crate::codec::enc_u32(x.check_interval_secs), seq![','], (enc_key(key_alert_country()) + (crate::codec::enc_bool(x.alert_on_country_change) + (seq![','] + (enc_key(key_alert_ip()) + (crate::codec::enc_bool(x.alert_on_ip_change) + (seq![','] + (enc_key(key_expected_country()) + (crate::codec::enc_opt_string(x.expected_country) + (seq!['}'] + rest))))))))));
    vstd::seq_lib::lemma_concat_associative(seq!['{'] + enc_key(key_enabled()) + crate::codec::enc_bool(x.enabled) + seq![','] + enc_key(key_check_interval()), crate::codec::enc_u32(x.check_interval_secs), (seq![','] + (enc_key(key_alert_country()) + (crate::codec::enc_bool(x.alert_on_country_change) + (seq![','] + (enc_key(key_alert_ip()) + (crate::codec::enc_bool(x.alert_on_ip_change) + (seq![','] + (enc_key(key_expected_country()) + (crate::codec::enc_opt_string(x.expected_country) + (seq!['}'] + rest)))))))))));
    vstd::seq_lib::lemma_concat_associative(seq!['{'] + enc_key(key_enabled()) + crate::codec::enc_bool(x.enabled) + seq![','], enc_key(key_check_interval()), (crate::codec::enc_u32(x.check_interval_secs) + (seq![','] + (enc_key(key_alert_country()) + (crate::codec::enc_bool(x.alert_on_country_change) + (seq![','] + (enc_key(key_alert_ip()) + (crate::codec::enc_bool(x.alert_on_ip_change) + (seq![','] + (enc_key(key_expected_country()) + (crate::codec::enc_opt_string(x.expected_country) + (seq!['}'] + rest))))))))))));
    vstd::seq_lib::lemma_concat_associative(seq!['{'] + enc_key(key_enabled()) + crate::codec::enc_bool(x.enabled), seq![','], (enc_key(key_check_interval()) + (crate::codec::enc_u32(x.check_interval_secs) + (seq![','] + (enc_key(key_alert_country()) + (crate::codec::enc_bool(x.alert_on_country_change) + (seq![','] + (enc_key(key_alert_ip()) + (crate::codec::enc_bool(x.alert_on_ip_change) + (seq![','] + (enc_key(key_expected_country()) + (crate::codec::enc_opt_string(x.expected_country) + (seq!['}'] + rest)))))))))))));
    vstd::seq_lib::lemma_concat_associative(seq!['{'] + enc_key(key_enabled()), crate::codec::enc_bool(x.enabled), (seq![','] + (enc_key(key_check_interval()) + (crate::codec::enc_u32(x.check_interval_secs) + (seq![','] + (enc_key(key_alert_country()) + (crate::codec::enc_bool(x.alert_on_country_change) + (seq![','] + (enc_key(key_alert_ip()) + (crate::codec::enc_bool(x.alert_on_ip_change) + (seq![','] + (enc_key(key_expected_country()) + (crate::codec::enc_opt_string(x.expected_country) + (seq!['}'] + rest))))))))))))));
    vstd::seq_lib::lemma_concat_associative(seq!['{'], enc_key(key_enabled()), (crate::codec::enc_bool(x.enabled) + (seq![','] + (enc_key(key_check_interval()) + (crate::codec::enc_u32(x.check_interval_secs) + (seq![','] + (enc_key(key_alert_country()) + (crate::codec::enc_bool(x.alert_on_country_change) + (seq![','] + (enc_key(key_alert_ip()) + (crate::codec::enc_bool(x.alert_on_ip_change) + (seq![','] + (enc_key(key_expected_country()) + (crate::codec::enc_opt_string(x.expected_country) + (seq!['}'] + rest)))))))))))))));
    vstd::seq_lib::lemma_concat_associative(seq!['{'], enc_key(key_enabled()), (crate::codec::enc_bool(x.enabled) + (seq![','] + (enc_key(key_check_interval()) + (crate::codec::enc_u32(x.check_interval_secs) + (seq![','] + (enc_key(key_alert_country()) + (crate::codec::enc_bool(x.alert_on_country_change) + (seq![','] + (enc_key(key_alert_ip()) + (crate::codec::enc_bool(x.alert_on_ip_change) + (seq![','] + (enc_key(key_expected_country()) + (crate::codec::enc_opt_string(x.expected_country) + (seq!['}'] + rest)))))))))))))));
    vstd::seq_lib::lemma_concat_associative(seq![','], enc_key(key_check_interval()), (crate::codec::enc_u32(x.check_interval_secs) + (seq![','] + (enc_key(key_alert_country()) + (crate::codec::enc_bool(x.alert_on_country_change) + (seq![','] + (enc_key(key_alert_ip()) + (crate::codec::enc_bool(x.alert_on_ip_change) + (seq![','] + (enc_key(key_expected_country()) + (crate::codec::enc_opt_string(x.expected_country) + (seq!['}'] + rest))))))))))));
    vstd::seq_lib::lemma_concat_associative(seq![','], enc_key(key_alert_country()), (crate::codec::enc_bool(x.alert_on_country_change) + (seq![','] + (enc_key(key_alert_ip()) + (crate::codec::enc_bool(x.alert_on_ip_change) + (seq![','] + (enc_key(key_expected_country()) + (crate::codec::enc_opt_string(x.expected_country) + (seq!['}'] + rest)))))))));
    vstd::seq_lib::lemma_concat_associative(seq![','], enc_key(key_alert_ip()), (crate::codec::enc_bool(x.alert_on_ip_change) + (seq![','] + (enc_key(key_expected_country()) + (crate::codec::enc_opt_string(x.expected_country) + (seq!['}'] + rest))))));
    vstd::seq_lib::lemma_concat_associative(seq![','], enc_key(key_expected_country()), (crate::codec::enc_opt_string(x.expected_country) + (seq!['}'] + rest)));
}

#[verifier::rlimit(100)]
proof fn lemma_shape_snap_head(x: SnapshotV, rest: Seq<char>)
    ensures
        crate::codec::enc_snap_head(x) + rest == ((seq!['{'] + enc_key(key_history())) + (crate::codec::enc_history(x.history) + ((seq![','] + enc_key(key_targets())) + (crate::codec::enc_strings(x.targets) + ((seq![','] + enc_key(key_primary())) + (crate::codec::enc_string(x.primary_target) + ((seq![','] + enc_key(key_threshold())) + (crate::codec::enc_u32(x.notification_threshold_ms) + rest)))))))),
{
    vstd::seq_lib::lemma_concat_associative(seq!['{'] + enc_key(key_history()) + crate::codec::enc_history(x.history) + seq![','] + enc_key(key_targets()) + crate::codec::enc_strings(x.targets) + seq![','] + enc_key(key_primary()) + crate::codec::enc_string(x.primary_target) + seq![','] + enc_key(key_threshold()), crate::codec::enc_u32(x.notification_threshold_ms), rest);
    vstd::seq_lib::lemma_concat_associative(seq!['{'] + enc_key(key_history()) + crate::codec::enc_history(x.history) + seq![','] + enc_key(key_targets()) + crate::codec::enc_strings(x.targets) + seq![','] + enc_key(key_primary()) + crate::codec::enc_string(x.primary_target) + seq![','], enc_key(key_threshold()), (crate::codec::enc_u32(x.notification_threshold_ms) + rest));
    vstd::seq_lib::lemma_concat_associative(seq!['{'] + enc_key(key_history()) + crate::codec::enc_history(x.history) + seq![','] + enc_key(key_targets()) + crate::codec::enc_strings(x.targets) + seq![','] + enc_key(key_primary()) + crate::codec::enc_string(x.primary_target), seq![','], (enc_key(key_threshold()) + (crate::codec::enc_u32(x.notification_threshold_ms) + rest)));
    vstd::seq_lib::lemma_concat_associative(seq!['{'] + enc_key(key_history()) + crate::codec::enc_history(x.history) + seq![','] + enc_key(key_targets()) + crate::codec::enc_strings(x.targets) + seq![','] + enc_key(key_primary()), crate::codec::enc_string(x.primary_target), (seq![','] + (enc_key(key_threshold()) + (crate::codec::enc_u32(x.notification_threshold_ms) + rest))));
    vstd::seq_lib::lemma_concat_associative(seq!['{'] + enc_key(key_history()) + crate::codec::enc_history(x.history) + seq![','] + enc_key(key_targets()) + crate::codec::enc_strings(x.targets) + seq![','], enc_key(key_primary()), (crate::codec::enc_string(x.primary_target) + (seq![','] + (enc_key(key_threshold()) + (crate::codec::enc_u32(x.notification_threshold_ms) + rest)))));
    vstd::seq_lib::lemma_concat_associative(seq!['{'] + enc_key(key_history()) + crate::codec::enc_history(x.history) + seq![','] + enc_key(key_targets()) + crate::codec::enc_strings(x.targets), seq![','], (enc_key(key_primary()) + (crate::codec::enc_string(x.primary_target) + (seq![','] + (enc_key(key_threshold()) + (crate::codec::enc_u32(x.notification_threshold_ms) + rest))))));
    vstd::seq_lib::lemma_concat_associative(seq!['{'] + enc_key(key_history()) + crate::codec::enc_history(x.history) + seq![','] + enc_key(key_targets()), crate::codec::enc_strings(x.targets), (seq![','] + (enc_key(key_primary()) + (crate::codec::enc_string(x.primary_target) + (seq![','] + (enc_key(key_threshold()) + (crate::codec::enc_u32(x.notification_threshold_ms) + rest)))))));
    vstd::seq_lib::lemma_concat_associative(seq!['{'] + enc_key(key_history()) + crate::codec::enc_history(x.history) + seq![','], enc_key(key_targets()), (crate::codec::enc_strings(x.targets) + (seq![','] + (enc_key(key_primary()) + (crate::codec::enc_string(x.primary_target) + (seq![','] + (enc_key(key_threshold()) + (crate::codec::enc_u32(x.notification_threshold_ms) + rest))))))));
    vstd::seq_lib::lemma_concat_associative(seq!['{'] + enc_key(key_history()) + crate::codec::enc_history(x.history), seq![','], (enc_key(key_targets()) + (crate::codec::enc_strings(x.targets) + (seq![','] + (enc_key(key_primary()) + (crate::codec::enc_string(x.primary_target) + (seq![','] + (enc_key(key_threshold()) + (crate::codec::enc_u32(x.notification_threshold_ms) + rest)))))))));
    vstd::seq_lib::lemma_concat_associative(seq!['{'] + enc_key(key_history()), crate::codec::enc_history(x.history), (seq![','] + (enc_key(key_targets()) + (crate::codec::enc_strings(x.targets) + (seq![','] + (enc_key(key_primary()) + (crate::codec::enc_string(x.primary_target) + (seq![','] + (enc_key(key_threshold()) + (crate::codec::enc_u32(x.notification_threshold_ms) + rest))))))))));
    vstd::seq_lib::lemma_concat_associative(seq!['{'], enc_key(key_history()), (crate::codec::enc_history(x.history) + (seq![','] + (enc_key(key_targets()) + (crate::codec::enc_strings(x.targets) + (seq![','] + (enc_key(key_primary()) + (crate::codec::enc_string(x.primary_target) + (seq![','] + (enc_key(key_threshold()) + (crate::codec::enc_u32(x.notification_threshold_ms) + rest)))))))))));
    vstd::seq_lib::lemma_concat_associative(seq!['{'], enc_key(key_history()), (crate::codec::enc_history(x.history) + (seq![','] + (enc_key(key_targets()) + (crate::codec::enc_strings(x.targets) + (seq![','] + (enc_key(key_primary()) + (crate::codec::enc_string(x.primary_target) + (seq![','] + (enc_key(key_threshold()) + (crate::codec::enc_u32(x.notification_threshold_ms) + rest)))))))))));
    vstd::seq_lib::lemma_concat_associative(seq![','], enc_key(key_targets()), (crate::codec::enc_strings(x.targets) + (seq![','] + (enc_key(key_primary()) + (crate::codec::enc_string(x.primary_target) + (seq![','] + (enc_key(key_threshold()) + (crate::codec::enc_u32(x.notification_threshold_ms) + rest))))))));
    vstd::seq_lib::lemma_concat_associative(seq![','], enc_key(key_primary()), (crate::codec::enc_string(x.primary_target) + (seq![','] + (enc_key(key_threshold()) + (crate::codec::enc_u32(x.notification_threshold_ms) + rest)))));
    vstd::seq_lib::lemma_concat_associative(seq![','], enc_key(key_threshold()), (crate::codec::enc_u32(x.notification_threshold_ms) + rest));
}

#[verifier::rlimit(100)]
proof fn lemma_shape_snap_tail(x: SnapshotV, rest: Seq<char>)
    ensures
        crate::codec::enc_snap_tail(x) + rest == ((seq![','] + enc_key(key_sites())) + (crate::codec::enc_site_cfgs(x.site_monitors) + ((seq![','] + enc_key(key_vpn())) + (crate::codec::enc_vpn(x.vpn_settings) + ((seq![','] + enc_key(key_interval())) + (crate::codec::enc_u32(x.ping_interval_secs) + (seq!['}'] + rest))))))),
{
    vstd::seq_lib::lemma_concat_associative(seq![','] + enc_key(key_sites()) + crate::codec::enc_site_cfgs(x.site_monitors) + seq![','] + enc_key(key_vpn()) + crate::codec::enc_vpn(x.vpn_settings) + seq![','] + enc_key(key_interval()) + crate::codec::enc_u32(x.ping_interval_secs), seq!['}'], rest);
    vstd::seq_lib::lemma_concat_associative(seq![','] + enc_key(key_sites()) + crate::codec::enc_site_cfgs(x.site_monitors) + seq![','] + enc_key(key_vpn()) + crate::codec::enc_vpn(x.vpn_settings) + seq![','] + enc_key(key_interval()), crate::codec::enc_u32(x.ping_interval_secs), (seq!['}'] + rest));
    vstd::seq_lib::lemma_concat_associative(seq![','] + enc_key(key_sites()) + crate::codec::enc_site_cfgs(x.site_monitors) + seq![','] + enc_key(key_vpn()) + crate::codec::enc_vpn(x.vpn_settings) + seq![','], enc_key(key_interval()), (crate::codec::enc_u32(x.ping_interval_secs) + (seq!['}'] + rest)));
    vstd::seq_lib::lemma_concat_associative(seq![','] + enc_key(key_sites()) + crate::codec::enc_site_cfgs(x.site_monitors) + seq![','] + enc_key(key_vpn()) + crate::codec::enc_vpn(x.vpn_settings), seq![','], (enc_key(key_interval()) + (crate::codec::enc_u32(x.ping_interval_secs) + (seq!['}'] + rest))));
    vstd::seq_lib::lemma_concat_associative(seq![','] + enc_key(key_sites()) + crate::codec::enc_site_cfgs(x.site_monitors) + seq![','] + enc_key(key_vpn()), crate::codec::enc_vpn(x.vpn_settings), (seq![','] + (enc_key(key_interval()) + (crate::codec::enc_u32(x.ping_interval_secs) + (seq!['}'] + rest)))));
    vstd::seq_lib::lemma_concat_associative(seq![','] + enc_key(key_sites()) + crate::codec::enc_site_cfgs(x.site_monitors) + seq![','], enc_key(key_vpn()), (crate::codec::enc_vpn(x.vpn_settings) + (seq![','] + (enc_key(key_interval()) + (crate::codec::enc_u32(x.ping_interval_secs) + (seq!['}'] + rest))))));
    vstd::seq_lib::lemma_concat_associative(seq![','] + enc_key(key_sites()) + crate::codec::enc_site_cfgs(x.site_monitors), seq![','], (enc_key(key_vpn()) + (crate::codec::enc_vpn(x.vpn_settings) + (seq![','] + (enc_key(key_interval()) + (crate::codec::enc_u32(x.ping_interval_secs) + (seq!['}'] + rest)))))));
    vstd::seq_lib::lemma_concat_associative(seq![','] + enc_key(key_sites()), crate::codec::enc_site_cfgs(x.site_monitors), (seq![','] + (enc_key(key_vpn()) + (crate::codec::enc_vpn(x.vpn_settings) + (seq![','] + (enc_key(key_interval()) + (crate::codec::enc_u32(x.ping_interval_secs) + (seq!['}'] + rest))))))));
    vstd::seq_lib::lemma_concat_associative(seq![','], enc_key(key_sites()), (crate::codec::enc_site_cfgs(x.site_monitors) + (seq![','] + (enc_key(key_vpn()) + (crate::codec::enc_vpn(x.vpn_settings) + (seq![','] + (enc_key(key_interval()) + (crate::codec::enc_u32(x.ping_interval_secs) + (seq!['}'] + rest)))))))));
    vstd::seq_lib::lemma_concat_associative(seq![','], enc_key(key_sites()), (crate::codec::enc_site_cfgs(x.site_monitors) + (seq![','] + (enc_key(key_vpn()) + (crate::codec::enc_vpn(x.vpn_settings) + (seq![','] + (enc_key(key_interval()) + (crate::codec::enc_u32(x.ping_interval_secs) + (seq!['}'] + rest)))))))));
    vstd::seq_lib::lemma_concat_associative(seq![','], enc_key(key_vpn()), (crate::codec::enc_vpn(x.vpn_settings) + (seq![','] + (enc_key(key_interval()) + (crate::codec::enc_u32(x.ping_interval_secs) + (seq!['}'] + rest))))));
    vstd::seq_lib::lemma_concat_associative(seq![','], enc_key(key_interval()), (crate::codec::enc_u32(x.ping_interval_secs) + (seq!['}'] + rest)));
}

#[verifier::rlimit(100)]
#[verifier::spinoff_prover]
proof fn lemma_rt_vpn(x: VpnV, rest: Seq<char>)
    requires
        crate::codec::opt_plain(x.expected_country),
    ensures
        sp_vpn(crate::codec::enc_vpn(x) + rest) == Some(
            (x, crate::codec::enc_vpn(x).len() as int),
        ),
{
    reveal(sp_vpn);
    let e = crate::codec::enc_vpn(x);
    let s = e + rest;
    let lit0 = seq!['{'] + enc_key(key_enabled());
    let p_en = crate::codec::enc_bool(x.enabled);
    let lit1 = seq![','] + enc_key(key_check_interval());
    let p_ci = crate::codec::enc_u32(x.check_interval_secs);
    let lit2 = seq![','] + enc_key(key_alert_country());
    let p_ac = crate::codec::enc_bool(x.alert_on_country_change);
    let lit3 = seq![','] + enc_key(key_alert_ip());
    let p_ai = crate::codec::enc_bool(x.alert_on_ip_change);
    let lit4 = seq![','] + enc_key(key_expected_country());
    let p_ec = crate::codec::enc_opt_string(x.expected_country);
    let close = seq!['}'];
    let r10 = close + rest;
    let r9 = p_ec + r10;
    let r8 = lit4 + r9;
    let r7 = p_ai + r8;
    let r6 = lit3 + r7;
    let r5 = p_ac + r6;
    let r4 = lit2 + r5;
    let r3 = p_ci + r4;
    let r2 = lit1 + r3;
    let r1 = p_en + r2;
    let n0 = lit0.len() as int;
    let n1 = p_en.len() as int;
    let n2 = lit1.len() as int;
    let n3 = p_ci.len() as int;
    let n4 = lit2.len() as int;
    let n5 = p_ac.len() as int;
    let n6 = lit3.len() as int;
    let n7 = p_ai.len() as int;
    let n8 = lit4.len() as int;
    let n9 = p_ec.len() as int;
    lemma_shape_vpn(x, rest);
    assert(s == lit0 + r1);
    lemma_unconcat(lit0, r1);
    assert(s.skip(n0) == r1);
    lemma_sp_bool_rt(x.enabled, r2);
    lemma_unconcat(p_en, r2);
    lemma_skip_skip(s, n0, n1);
    assert(s.skip(n0 + n1) == r2);
    lemma_unconcat(lit1, r3);
    lemma_skip_skip(s, n0 + n1, n2);
    assert(s.skip(n0 + n1 + n2) == r3);
    assert(r4[0] == ',');
    lemma_sp_u32_rt(x.check_interval_secs, r4);
    lemma_unconcat(p_ci, r4);
    lemma_skip_skip(s, n0 + n1 + n2, n3);
    assert(s.skip(n0 + n1 + n2 + n3) == r4);
    lemma_unconcat(lit2, r5);
    lemma_skip_skip(s, n0 + n1 + n2 + n3, n4);
    assert(s.skip(n0 + n1 + n2 + n3 + n4) == r5);
    lemma_sp_bool_rt(x.alert_on_country_change, r6);
    lemma_unconcat(p_ac, r6);
    lemma_skip_skip(s, n0 + n1 + n2 + n3 + n4, n5);
    assert(s.skip(n0 + n1 + n2 + n3 + n4 + n5) == r6);
    lemma_unconcat(lit3, r7);
    lemma_skip_skip(s, n0 + n1 + n2 + n3 + n4 + n5, n6);
    assert(s.skip(n0 + n1 + n2 + n3 + n4 + n5 + n6) == r7);
    lemma_sp_bool_rt(x.alert_on_ip_change, r8);
    lemma_unconcat(p_ai, r8);
    lemma_skip_skip(s, n0 + n1 + n2 + n3 + n4 + n5 + n6, n7);
    assert(s.skip(n0 + n1 + n2 + n3 + n4 + n5 + n6 + n7) == r8);
    lemma_unconcat(lit4, r9);
    lemma_skip_skip(s, n0 + n1 + n2 + n3 + n4 + n5 + n6 + n7, n8);
    assert(s.skip(n0 + n1 + n2 + n3 + n4 + n5 + n6 + n7 + n8) == r9);
    lemma_sp_opt_string_rt(x.expected_country, r10);
    lemma_unconcat(p_ec, r10);
    lemma_skip_skip(s, n0 + n1 + n2 + n3 + n4 + n5 + n6 + n7 + n8, n9);
    assert(s.skip(n0 + n1 + n2 + n3 + n4 + n5 + n6 + n7 + n8 + n9) == r10);
    lemma_unconcat(close, rest);
    assert(e.len() == n0 + n1 + n2 + n3 + n4 + n5 + n6 + n7 + n8 + n9 + 1);
}

#[verifier::rlimit(100)]
#[verifier::spinoff_prover]
proof fn lemma_rt_snap_head(v: SnapshotV, rest: Seq<char>)
    requires
        crate::codec::entries_wf(v.history),
        crate::codec::strings_wf(v.targets),
        crate::codec::plain_str(v.primary_target),
        rest.len() == 0 || !is_digit(rest[0]),
    ensures
        sp_snap_head(crate::codec::enc_snap_head(v) + rest) == Some(
            (
                (v.history, v.targets, v.primary_target, v.notification_threshold_ms),
                crate::codec::enc_snap_head(v).len() as int,
            ),
        ),
{
    reveal(sp_snap_head);
    let e = crate::codec::enc_snap_head(v);
    let s = e + rest;
    let lit0 = seq!['{'] + enc_key(key_history());
    let p_h = crate::codec::enc_history(v.history);
    let lit1 = seq![','] + enc_key(key_targets());
    let p_t = crate::codec::enc_strings(v.targets);
    let lit2 = seq![','] + enc_key(key_primary());
    let p_p = crate::codec::enc_string(v.primary_target);
    let lit3 = seq![','] + enc_key(key_threshold());
    let p_n = crate::codec::enc_u32(v.notification_threshold_ms);
    let r7 = p_n + rest;
    let r6 = lit3 + r7;
    let r5 = p_p + r6;
    let r4 = lit2 + r5;
    let r3 = p_t + r4;
    let r2 = lit1 + r3;
    let r1 = p_h + r2;
    let n0 = lit0.len() as int;
    let n1 = p_h.len() as int;
    let n2 = lit1.len() as int;
    let n3 = p_t.len() as int;
    let n4 = lit2.len() as int;
    let n5 = p_p.len() as int;
    let n6 = lit3.len() as int;
    let n7 = p_n.len() as int;
    lemma_shape_snap_head(v, rest);
    assert(s == lit0 + r1);
    lemma_unconcat(lit0, r1);
    assert(s.skip(n0) == r1);
    lemma_rt_history(v.history, r2);
    lemma_unconcat(p_h, r2);
    lemma_skip_skip(s, n0, n1);
    assert(s.skip(n0 + n1) == r2);
    lemma_unconcat(lit1, r3);
    lemma_skip_skip(s, n0 + n1, n2);
    assert(s.skip(n0 + n1 + n2) == r3);
    lemma_rt_strings(v.targets, r4);
    lemma_unconcat(p_t, r4);
    lemma_skip_skip(s, n0 + n1 + n2, n3);
    assert(s.skip(n0 + n1 + n2 + n3) == r4);
    lemma_unconcat(lit2, r5);
    lemma_skip_skip(s, n0 + n1 + n2 + n3, n4);
    assert(s.skip(n0 + n1 + n2 + n3 + n4) == r5);
    lemma_sp_string_rt(v.primary_target, r6);
    lemma_unconcat(p_p, r6);
    lemma_skip_skip(s, n0 + n1 + n2 + n3 + n4, n5);
    assert(s.skip(n0 + n1 + n2 + n3 + n4 + n5) == r6);
    lemma_unconcat(lit3, r7);
    lemma_skip_skip(s, n0 + n1 + n2 + n3 + n4 + n5, n6);
    assert(s.skip(n0 + n1 + n2 + n3 + n4 + n5 + n6) == r7);
    lemma_sp_u32_rt(v.notification_threshold_ms, rest);
    assert(e.len() == n0 + n1 + n2 + n3 + n4 + n5 + n6 + n7);
}

#[verifier::rlimit(100)]
#[verifier::spinoff_prover]
proof fn lemma_rt_snap_tail(v: SnapshotV, rest: Seq<char>)
    requires
        crate::codec::site_cfgs_wf(v.site_monitors),
        crate::codec::opt_plain(v.vpn_settings.expected_country),
    ensures
        sp_snap_tail(crate::codec::enc_snap_tail(v) + rest) == Some(
            (
                (v.site_monitors, v.vpn_settings, v.ping_interval_secs),
                crate::codec::enc_snap_tail(v).len() as int,
            ),
        ),
{
    reveal(sp_snap_tail);
    let e = crate::codec::enc_snap_tail(v);
    let s = e + rest;
    let lit0 = seq![','] + enc_key(key_sites());
    let p_s = crate::codec::enc_site_cfgs(v.site_monitors);
    let lit1 = seq![','] + enc_key(key_vpn());
    let p_v = crate::codec::enc_vpn(v.vpn_settings);
    let lit2 = seq![','] + enc_key(key_interval());
    let p_i = crate::codec::enc_u32(v.ping_interval_secs);
    let close = seq!['}'];
    let r6 = close + rest;
    let r5 = p_i + r6;
    let r4 = lit2 + r5;
    let r3 = p_v + r4;
    let r2 = lit1 + r3;
    let r1 = p_s + r2;
    let n0 = lit0.len() as int;
    let n1 = p_s.len() as int;
    let n2 = lit1.len() as int;
    let n3 = p_v.len() as int;
    let n4 = lit2.len() as int;
    let n5 = p_i.len() as int;
    lemma_shape_snap_tail(v, rest);
    assert(s == lit0 + r1);
    lemma_unconcat(lit0, r1);
    assert(s.skip(n0) == r1);
    lemma_rt_site_cfgs(v.site_monitors, r2);
    lemma_unconcat(p_s, r2);
    lemma_skip_skip(s, n0, n1);
    assert(s.skip(n0 + n1) == r2);
    lemma_unconcat(lit1, r3);
    lemma_skip_skip(s, n0 + n1, n2);
    assert(s.skip(n0 + n1 + n2) == r3);
    lemma_rt_vpn(v.vpn_settings, r4);
    lemma_unconcat(p_v, r4);
    lemma_skip_skip(s, n0 + n1 + n2, n3);
    assert(s.skip(n0 + n1 + n2 + n3) == r4);
    lemma_unconcat(lit2, r5);
    lemma_skip_skip(s, n0 + n1 + n2 + n3, n4);
    assert(s.skip(n0 + n1 + n2 + n3 + n4) == r5);
    assert(r6[0] == '}');
    lemma_sp_u32_rt(v.ping_interval_secs, r6);
    lemma_unconcat(p_i, r6);
    lemma_skip_skip(s, n0 + n1 + n2 + n3 + n4, n5);
    assert(s.skip(n0 + n1 + n2 + n3 + n4 + n5) == r6);
    lemma_unconcat(close, rest);
    assert(e.len() == n0 + n1 + n2 + n3 + n4 + n5 + 1);
}

/// Law: decoding a canonical encoding recovers exactly the encoded
/// snapshot, consuming the whole document. Holds for every well-formed
/// snapshot (all strings plain).
#[verifier::rlimit(100)]
#[verifier::spinoff_prover]
pub proof fn lemma_snapshot_round_trip(v: SnapshotV)
    requires
        crate::codec::snapshot_wf(v),
    ensures
        sp_snapshot(crate::codec::enc_snapshot(v)) == Some(
            (v, crate::codec::enc_snapshot(v).len() as int),
        ),
{
    let e = crate::codec::enc_snapshot(v);
    let head = crate::codec::enc_snap_head(v);
    let tail = crate::codec::enc_snap_tail(v);
    let s = e;
    assert((head + tail)[head.len() as int] == tail[0]);
    assert(tail[0] == ',');
    lemma_rt_snap_head(v, tail);
    assert(sp_snap_head(head + tail) == Some(
        (
            (v.history, v.targets, v.primary_target, v.notification_threshold_ms),
            head.len() as int,
        ),
    ));
    lemma_unconcat(head, tail);
    assert(s.skip(head.len() as int) == tail);
    lemma_rt_snap_tail(v, Seq::<char>::empty());
    assert(tail + Seq::<char>::empty() =~= tail);
    assert(sp_snap_tail(tail) == Some(
        ((v.site_monitors, v.vpn_settings, v.ping_interval_secs), tail.len() as int),
    ));
    assert(e.len() == head.len() + tail.len());
}

} // verus!
