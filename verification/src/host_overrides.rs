//! Per-hostname IPv4 overrides (`host-overrides.json`), applied as a marked
//! block in the Windows hosts file, kept with unique hostnames.

use vstd::prelude::*;
use crate::config::{ipv4_verdict, validate_ipv4, ConfigError};
use crate::ipv4::{
    address_is_loopback, address_is_multicast, address_is_unspecified, ipv4_text,
    ipv4_to_string, is_loopback, is_multicast, is_unspecified,
};
use crate::paths::{replaced_file_name, with_file_name};
use crate::text::{
    chars_eq, is_ascii_alnum, is_ws, lemma_trim_idempotent, lines, lines_of, lower, lower_char,
    lower_chars, push_char, string_of, strip_trailing, strip_trailing_chars, to_chars, trim,
    trimmed, trimmed_chars,
};

verus! {

/// The line that opens the block this program owns in the hosts file.
pub const HOSTS_BEGIN: &'static str = "# ROUST-HOST-BEGIN";

/// The line that closes that block.
pub const HOSTS_END: &'static str = "# ROUST-HOST-END";

/// One hostname resolved to a fixed IPv4 address.
#[derive(Clone, Debug, PartialEq, Eq)]
pub struct HostOverride {
    pub hostname: String,
    pub ip: String,
}

/// Why an override or an override list is refused.
#[derive(Clone, Debug, PartialEq, Eq)]
pub enum HostOverrideError {
    EmptyHostname,
    /// The hostname (trimmed) is longer than 253 characters.
    HostnameTooLong(String),
    /// The hostname (trimmed) holds another character than a letter, a
    /// digit, `-` or `.`.
    HostnameInvalidChars(String),
    /// The hostname (trimmed) has an empty label or a label that starts or
    /// ends with `-`.
    HostnameMalformed(String),
    /// The IP is no plain IPv4 address.
    Ip(ConfigError),
    /// The IP (trimmed) is unspecified, loopback or multicast.
    NotUnicast(String),
    IndexNotFound(usize),
    /// Two overrides share a hostname key (held here).
    DuplicateHostname(String),
}

impl HostOverrideError {
    /// The message a user sees for the error.
    pub open spec fn message(self) -> Seq<char> {
        match self {
            HostOverrideError::EmptyHostname => "hostname must not be empty"@,
            HostOverrideError::HostnameTooLong(t) => "hostname \""@ + t@
                + "\" is longer than 253 characters"@,
            HostOverrideError::HostnameInvalidChars(t) => "hostname \""@ + t@
                + "\" contains invalid characters"@,
            HostOverrideError::HostnameMalformed(t) => "hostname \""@ + t@ + "\" is malformed"@,
            HostOverrideError::Ip(e) => e.message(),
            HostOverrideError::NotUnicast(t) => "ip \""@ + t@
                + "\" must be a unicast non-loopback IPv4 address"@,
            HostOverrideError::IndexNotFound(i) => "host override index "@ + crate::text::dec(
                i as nat,
            ) + " not found"@,
            HostOverrideError::DuplicateHostname(k) => "duplicate host override hostname \""@ + k@
                + "\""@,
        }
    }

    /// The message a user sees for the error.
    pub fn to_string(&self) -> (s: String)
        ensures
            s@ == self.message(),
    {
        match self {
            HostOverrideError::EmptyHostname => String::from_str("hostname must not be empty"),
            HostOverrideError::HostnameTooLong(t) => {
                let mut s = String::from_str("hostname \"");
                s.append(t.as_str());
                s.append("\" is longer than 253 characters");
                s
            },
            HostOverrideError::HostnameInvalidChars(t) => {
                let mut s = String::from_str("hostname \"");
                s.append(t.as_str());
                s.append("\" contains invalid characters");
                s
            },
            HostOverrideError::HostnameMalformed(t) => {
                let mut s = String::from_str("hostname \"");
                s.append(t.as_str());
                s.append("\" is malformed");
                s
            },
            HostOverrideError::Ip(e) => e.to_string(),
            HostOverrideError::NotUnicast(t) => {
                let mut s = String::from_str("ip \"");
                s.append(t.as_str());
                s.append("\" must be a unicast non-loopback IPv4 address");
                s
            },
            HostOverrideError::IndexNotFound(i) => {
                let mut s = String::from_str("host override index ");
                crate::text::push_decimal(&mut s, *i);
                s.append(" not found");
                s
            },
            HostOverrideError::DuplicateHostname(k) => {
                let mut s = String::from_str("duplicate host override hostname \"");
                s.append(k.as_str());
                s.append("\"");
                s
            },
        }
    }
}

pub open spec fn host_char(c: char) -> bool {
    is_ascii_alnum(c) || c == '-' || c == '.'
}

/// The hostname a value names: trimmed, trailing dots removed.
pub open spec fn host_name(v: Seq<char>) -> Seq<char> {
    strip_trailing(trim(v), '.')
}

/// Labels are non-empty and neither start nor end with `-`: no leading `.`
/// or `-`, no trailing `-`, no `.` after `.` or `-`, no `-` after `.`.
pub open spec fn labels_well_formed(n: Seq<char>) -> bool {
    &&& n.len() > 0
    &&& n[0] != '.' && n[0] != '-'
    &&& n.last() != '-'
    &&& forall|i: int|
        1 <= i < n.len() && #[trigger] n[i] == '.' ==> n[i - 1] != '.' && n[i - 1] != '-'
    &&& forall|i: int| 1 <= i < n.len() && #[trigger] n[i] == '-' ==> n[i - 1] != '.'
}

/// What `validate_hostname` answers: the hostname (trimmed, trailing dots
/// removed) must be non-empty, at most 253 characters, made of letters,
/// digits, `-` and `.`, with well-formed labels; it is given back
/// lower-cased.
pub open spec fn hostname_result_matches(r: Result<String, HostOverrideError>, v: Seq<char>) -> bool {
    let t = trim(v);
    let n = host_name(v);
    if n.len() == 0 {
        r == Err::<String, HostOverrideError>(HostOverrideError::EmptyHostname)
    } else if n.len() > 253 {
        r matches Err(HostOverrideError::HostnameTooLong(x)) && x@ == t
    } else if !(forall|i: int| 0 <= i < n.len() ==> host_char(#[trigger] n[i])) {
        r matches Err(HostOverrideError::HostnameInvalidChars(x)) && x@ == t
    } else if !labels_well_formed(n) {
        r matches Err(HostOverrideError::HostnameMalformed(x)) && x@ == t
    } else {
        r matches Ok(h) && h@ == lower(n)
    }
}

pub open spec fn hostname_ok(v: Seq<char>) -> bool {
    let n = host_name(v);
    &&& 0 < n.len() <= 253
    &&& forall|i: int| 0 <= i < n.len() ==> host_char(#[trigger] n[i])
    &&& labels_well_formed(n)
}

/// Checks a hostname and gives it back normalized: trimmed, trailing dots
/// removed, lower-cased.
#[verifier::loop_isolation(false)]
pub fn validate_hostname(value: &str) -> (r: Result<String, HostOverrideError>)
    ensures
        hostname_result_matches(r, value@),
        r is Ok <==> hostname_ok(value@),
{
    let t = trimmed(value);
    let tv = to_chars(t.as_str());
    let n = strip_trailing_chars(tv.as_slice(), '.');
    let len = n.len();
    if len == 0 {
        return Err(HostOverrideError::EmptyHostname);
    }
    if len > 253 {
        return Err(HostOverrideError::HostnameTooLong(t));
    }
    let mut i: usize = 0;
    while i < len
        invariant
            i <= len,
            len == n@.len(),
            forall|k: int| 0 <= k < i ==> host_char(#[trigger] n@[k]),
        decreases len - i,
    {
        let c = n[i];
        if !(('0' <= c && c <= '9') || ('a' <= c && c <= 'z') || ('A' <= c && c <= 'Z') || c == '-'
            || c == '.') {
            assert(!host_char(n@[i as int]));
            return Err(HostOverrideError::HostnameInvalidChars(t));
        }
        i = i + 1;
    }
    if n[0] == '.' || n[0] == '-' || n[len - 1] == '-' {
        return Err(HostOverrideError::HostnameMalformed(t));
    }
    let mut i: usize = 1;
    while i < len
        invariant
            1 <= i <= len,
            len == n@.len(),
            forall|k: int|
                1 <= k < i && #[trigger] n@[k] == '.' ==> n@[k - 1] != '.' && n@[k - 1] != '-',
            forall|k: int| 1 <= k < i && #[trigger] n@[k] == '-' ==> n@[k - 1] != '.',
        decreases len - i,
    {
        let c = n[i];
        let p = n[i - 1];
        if (c == '.' && (p == '.' || p == '-')) || (c == '-' && p == '.') {
            assert(!labels_well_formed(n@));
            return Err(HostOverrideError::HostnameMalformed(t));
        }
        i = i + 1;
    }
    let l = lower_chars(n.as_slice());
    Ok(string_of(l.as_slice()))
}

/// An override names a well-formed host and a unicast IPv4 address.
pub open spec fn override_ok(o: HostOverride) -> bool {
    &&& hostname_ok(o.hostname@)
    &&& ipv4_verdict(o.ip@) matches Some(a) && !is_unspecified(a) && !is_loopback(a)
        && !is_multicast(a)
}

/// What `validate` answers: the hostname's error, else the address's.
pub open spec fn override_result_matches(r: Result<(), HostOverrideError>, o: HostOverride) -> bool {
    if !hostname_ok(o.hostname@) {
        r matches Err(e) && hostname_result_matches(Err(e), o.hostname@)
    } else {
        match ipv4_verdict(o.ip@) {
            None => r matches Err(HostOverrideError::Ip(e)) && crate::config::ipv4_result_matches(
                Err(e),
                o.ip@,
            ),
            Some(a) => if is_unspecified(a) || is_loopback(a) || is_multicast(a) {
                r matches Err(HostOverrideError::NotUnicast(x)) && x@ == trim(o.ip@)
            } else {
                r is Ok
            },
        }
    }
}

/// The hostname key: trimmed, trailing dots removed, lower-cased.
pub open spec fn override_key(o: HostOverride) -> Seq<char> {
    lower(host_name(o.hostname@))
}

/// `n` is `o` with the hostname normalized and the IP trimmed.
pub open spec fn normalized(n: HostOverride, o: HostOverride) -> bool {
    n.hostname@ == lower(host_name(o.hostname@)) && n.ip@ == trim(o.ip@)
}

/// The hosts-file line of a valid override: `ip hostname`.
pub open spec fn hosts_line_of(o: HostOverride) -> Seq<char> {
    ipv4_text(ipv4_verdict(o.ip@)->0) + seq![' '] + lower(host_name(o.hostname@))
}

impl HostOverride {
    /// Checks the hostname, then that the IP is a unicast IPv4 address.
    pub fn validate(&self) -> (r: Result<(), HostOverrideError>)
        ensures
            override_result_matches(r, *self),
            r is Ok <==> override_ok(*self),
    {
        validate_hostname(self.hostname.as_str())?;
        let a = match validate_ipv4(self.ip.as_str()) {
            Ok(a) => a,
            Err(e) => {
                return Err(HostOverrideError::Ip(e));
            },
        };
        if address_is_unspecified(a) || address_is_loopback(a) || address_is_multicast(a) {
            return Err(HostOverrideError::NotUnicast(trimmed(self.ip.as_str())));
        }
        Ok(())
    }

    /// Identity key for duplicate detection.
    pub fn identity_key(&self) -> (k: String)
        ensures
            k@ == override_key(*self),
    {
        let t = trimmed_chars(self.hostname.as_str());
        let n = strip_trailing_chars(t.as_slice(), '.');
        let l = lower_chars(n.as_slice());
        string_of(l.as_slice())
    }

    /// `hostname → ip`, both trimmed.
    pub fn label(&self) -> (s: String)
        ensures
            s@ == trim(self.hostname@) + " → "@ + trim(self.ip@),
    {
        let mut s = trimmed(self.hostname.as_str());
        s.append(" → ");
        let i = trimmed(self.ip.as_str());
        s.append(i.as_str());
        s
    }

    /// The hosts-file line `ip hostname` of a valid override.
    pub fn hosts_line(&self) -> (r: Result<String, HostOverrideError>)
        ensures
            r is Ok <==> override_ok(*self),
            r matches Err(e) ==> override_result_matches(Err(e), *self),
            r matches Ok(l) ==> l@ == hosts_line_of(*self),
    {
        self.validate()?;
        let host = validate_hostname(self.hostname.as_str())?;
        let a = match validate_ipv4(self.ip.as_str()) {
            Ok(a) => a,
            Err(e) => {
                return Err(HostOverrideError::Ip(e));
            },
        };
        let mut s = ipv4_to_string(a);
        push_char(&mut s, ' ');
        s.append(host.as_str());
        Ok(s)
    }
}

/// A normalized hostname reads back as itself.
proof fn lemma_normal_hostname(v: Seq<char>)
    requires
        hostname_ok(v),
    ensures
        host_name(lower(host_name(v))) == lower(host_name(v)),
        hostname_ok(lower(host_name(v))),
        lower(lower(host_name(v))) == lower(host_name(v)),
{
    let n = host_name(v);
    let l = lower(n);
    assert forall|i: int| 0 <= i < l.len() implies !is_ws(#[trigger] l[i]) && host_char(l[i]) by {
        assert(host_char(n[i]));
    }
    assert(trim(l) == l) by {
        crate::text::lemma_trim_end_fixed(l);
        crate::text::lemma_trim_start_fixed(l);
    }
    crate::text::lemma_strip_trailing_last(trim(v), '.');
    assert(l.last() == lower_char(n.last()));
    assert(strip_trailing(l, '.') == l);
    assert(lower(l) =~= l);
}

fn normalize_override(o: HostOverride) -> (n: HostOverride)
    requires
        override_ok(o),
    ensures
        normalized(n, o),
        override_key(n) == override_key(o),
        override_ok(n),
{
    let t = trimmed_chars(o.hostname.as_str());
    let h = strip_trailing_chars(t.as_slice(), '.');
    let l = lower_chars(h.as_slice());
    let hostname = string_of(l.as_slice());
    let ip = trimmed(o.ip.as_str());
    proof {
        lemma_normal_hostname(o.hostname@);
        lemma_trim_idempotent(o.ip@);
    }
    HostOverride { hostname, ip }
}

/// No override of `overrides` other than the one at `skip` has identity `k`.
pub open spec fn key_clear(k: Seq<char>, overrides: Seq<HostOverride>, skip: Option<usize>) -> bool {
    forall|i: int|
        0 <= i < overrides.len() && skip != Some(i as usize) ==> override_key(#[trigger] overrides[i]) != k
}

/// Every override is well formed and identities are unique: the store
/// invariant.
pub open spec fn overrides_valid(overrides: Seq<HostOverride>) -> bool {
    &&& forall|i: int| 0 <= i < overrides.len() ==> override_ok(#[trigger] overrides[i])
    &&& forall|i: int, j: int|
        #![trigger overrides[i], overrides[j]]
        0 <= j < i < overrides.len() ==> override_key(overrides[i]) != override_key(overrides[j])
}

fn ensure_unique(override_: &HostOverride, existing: &[HostOverride], skip: Option<usize>) -> (r: Result<
    (),
    HostOverrideError,
>)
    ensures
        r is Ok <==> key_clear(override_key(*override_), existing@, skip),
        r matches Err(e) ==> (e matches HostOverrideError::DuplicateHostname(k) && k@ == override_key(
            *override_,
        )),
{
    let key = override_.identity_key();
    let mut i: usize = 0;
    while i < existing.len()
        invariant
            i <= existing@.len(),
            key@ == override_key(*override_),
            forall|k: int|
                0 <= k < i && skip != Some(k as usize) ==> override_key(#[trigger] existing@[k])
                    != key@,
        decreases existing@.len() - i,
    {
        let skipped = match skip {
            Some(s) => s == i,
            None => false,
        };
        if !skipped {
            let other = existing[i].identity_key();
            if other == key {
                return Err(HostOverrideError::DuplicateHostname(key));
            }
        }
        i = i + 1;
    }
    Ok(())
}

/// What checking a loaded override list answers: the first malformed override's
/// error, else the first identity that repeats an earlier one.
pub open spec fn overrides_error_matches(e: HostOverrideError, overrides: Seq<HostOverride>) -> bool {
    (exists|i: int|
        0 <= i < overrides.len() && !override_ok(#[trigger] overrides[i]) && (forall|k: int|
            0 <= k < i ==> override_ok(#[trigger] overrides[k])) && override_result_matches(Err(e), overrides[i]))
        || ((forall|k: int| 0 <= k < overrides.len() ==> override_ok(#[trigger] overrides[k])) && exists|
        i: int,
        j: int,
    |
        #![trigger overrides[i], overrides[j]]
        0 <= j < i < overrides.len() && override_key(overrides[i]) == override_key(overrides[j]) && (forall|
            a: int,
            b: int,
        |
            #![trigger overrides[a], overrides[b]]
            0 <= b < a < i ==> override_key(overrides[a]) != override_key(overrides[b])) && e
            == HostOverrideError::DuplicateHostname(e->DuplicateHostname_0) && e->DuplicateHostname_0@
            == override_key(overrides[i]))
}

fn validate_overrides(overrides: &[HostOverride]) -> (r: Result<(), HostOverrideError>)
    ensures
        r is Ok <==> overrides_valid(overrides@),
        r matches Err(e) ==> overrides_error_matches(e, overrides@),
{
    let mut i: usize = 0;
    while i < overrides.len()
        invariant
            i <= overrides@.len(),
            forall|k: int| 0 <= k < i ==> override_ok(#[trigger] overrides@[k]),
        decreases overrides@.len() - i,
    {
        match overrides[i].validate() {
            Ok(()) => {},
            Err(e) => {
                assert(!override_ok(overrides@[i as int]));
                return Err(e);
            },
        }
        i = i + 1;
    }
    let mut seen: Vec<String> = Vec::new();
    let mut i: usize = 0;
    while i < overrides.len()
        invariant
            i <= overrides@.len(),
            seen@.len() == i,
            forall|k: int| 0 <= k < overrides@.len() ==> override_ok(#[trigger] overrides@[k]),
            forall|k: int| 0 <= k < i ==> (#[trigger] seen@[k])@ == override_key(overrides@[k]),
            forall|a: int, b: int|
                #![trigger overrides@[a], overrides@[b]]
                0 <= b < a < i ==> override_key(overrides@[a]) != override_key(overrides@[b]),
        decreases overrides@.len() - i,
    {
        let key = overrides[i].identity_key();
        let mut j: usize = 0;
        while j < i
            invariant
                j <= i < overrides@.len(),
                seen@.len() == i,
                key@ == override_key(overrides@[i as int]),
                forall|k: int| 0 <= k < overrides@.len() ==> override_ok(#[trigger] overrides@[k]),
                forall|k: int| 0 <= k < i ==> (#[trigger] seen@[k])@ == override_key(overrides@[k]),
                forall|k: int| 0 <= k < j ==> override_key(#[trigger] overrides@[k]) != key@,
                forall|a: int, b: int|
                    #![trigger overrides@[a], overrides@[b]]
                    0 <= b < a < i ==> override_key(overrides@[a]) != override_key(overrides@[b]),
            decreases i - j,
        {
            if seen[j] == key {
                let e = HostOverrideError::DuplicateHostname(key);
                proof {
                    let gi = i as int;
                    let gj = j as int;
                    assert(override_key(overrides@[gi]) == override_key(overrides@[gj]));
                    assert(e->DuplicateHostname_0@ == override_key(overrides@[gi]));
                    assert(0 <= gj < gi < overrides@.len() && override_key(overrides@[gi]) == override_key(
                        overrides@[gj],
                    ) && (forall|a: int, b: int|
                        #![trigger overrides@[a], overrides@[b]]
                        0 <= b < a < gi ==> override_key(overrides@[a]) != override_key(overrides@[b])) && e
                        == HostOverrideError::DuplicateHostname(e->DuplicateHostname_0)
                        && e->DuplicateHostname_0@ == override_key(overrides@[gi]));
                }
                return Err(e);
            }
            j = j + 1;
        }
        seen.push(key);
        i = i + 1;
    }
    Ok(())
}

/// The overrides of `host-overrides.json`.
#[derive(Clone, Debug, PartialEq, Eq)]
pub struct HostOverrideStore {
    pub overrides: Vec<HostOverride>,
}

impl HostOverrideStore {
    pub open spec fn valid(self) -> bool {
        overrides_valid(self.overrides@)
    }

    pub fn new() -> (s: HostOverrideStore)
        ensures
            s.overrides@ == Seq::<HostOverride>::empty(),
            s.valid(),
    {
        HostOverrideStore { overrides: Vec::new() }
    }

    /// `host-overrides.json` beside a `routes.json` path.
    pub fn path_beside(routes_path: &str) -> (p: String)
        ensures
            p@ == replaced_file_name(routes_path@, "host-overrides.json"@),
    {
        with_file_name(routes_path, "host-overrides.json")
    }

    /// Builds the store from the overrides read out of `host-overrides.json`.
    pub fn from_overrides(overrides: Vec<HostOverride>) -> (r: Result<HostOverrideStore, HostOverrideError>)
        ensures
            r is Ok <==> overrides_valid(overrides@),
            r matches Ok(s) ==> s.overrides@ == overrides@,
            r matches Err(e) ==> overrides_error_matches(e, overrides@),
    {
        validate_overrides(overrides.as_slice())?;
        Ok(HostOverrideStore { overrides })
    }

    pub fn get_overrides(&self) -> (r: &[HostOverride])
        ensures
            r@ == self.overrides@,
    {
        self.overrides.as_slice()
    }

    /// Appends an override (normalized) when it is well formed and its identity
    /// is new.
    pub fn add(&mut self, override_: HostOverride) -> (r: Result<(), HostOverrideError>)
        ensures
            r is Ok <==> (override_ok(override_) && key_clear(override_key(override_), old(self).overrides@, None)),
            !override_ok(override_) ==> override_result_matches(r, override_),
            override_ok(override_) && !key_clear(override_key(override_), old(self).overrides@, None) ==> (r matches Err(
                HostOverrideError::DuplicateHostname(k),
            ) && k@ == override_key(override_)),
            r is Ok ==> final(self).overrides@.len() == old(self).overrides@.len() + 1,
            r is Ok ==> final(self).overrides@.drop_last() == old(self).overrides@,
            r is Ok ==> normalized(final(self).overrides@.last(), override_),
            r is Err ==> final(self).overrides@ == old(self).overrides@,
            old(self).valid() ==> final(self).valid(),
    {
        override_.validate()?;
        ensure_unique(&override_, self.overrides.as_slice(), None)?;
        let ghost before = self.overrides@;
        let n = normalize_override(override_);
        self.overrides.push(n);
        proof {
            assert(self.overrides@.drop_last() =~= before);
            let p = self.overrides@;
            if overrides_valid(before) {
                assert forall|a: int| 0 <= a < p.len() implies override_ok(#[trigger] p[a]) by {
                    if a < before.len() {
                        assert(p[a] == before[a]);
                    }
                }
                assert forall|a: int, b: int|
                    #![trigger p[a], p[b]]
                    0 <= b < a < p.len() implies override_key(p[a]) != override_key(p[b]) by {
                    assert(p[b] == before[b]);
                    if a < before.len() {
                        assert(p[a] == before[a]);
                    }
                }
            }
        }
        Ok(())
    }

    /// Replaces the override at `index` (normalized) when it is well formed and
    /// its identity is new among the others.
    pub fn replace_at(&mut self, index: usize, override_: HostOverride) -> (r: Result<(), HostOverrideError>)
        ensures
            index >= old(self).overrides@.len() ==> r == Err::<(), HostOverrideError>(
                HostOverrideError::IndexNotFound(index),
            ),
            index < old(self).overrides@.len() ==> (r is Ok <==> (override_ok(override_) && key_clear(
                override_key(override_),
                old(self).overrides@,
                Some(index),
            ))),
            index < old(self).overrides@.len() && !override_ok(override_) ==> override_result_matches(r, override_),
            index < old(self).overrides@.len() && override_ok(override_) && !key_clear(
                override_key(override_),
                old(self).overrides@,
                Some(index),
            ) ==> (r matches Err(HostOverrideError::DuplicateHostname(k)) && k@ == override_key(override_)),
            r is Ok ==> final(self).overrides@.len() == old(self).overrides@.len(),
            r is Ok ==> forall|i: int|
                0 <= i < old(self).overrides@.len() && i != index ==> final(self).overrides@[i] == old(
                    self,
                ).overrides@[i],
            r is Ok ==> normalized(final(self).overrides@[index as int], override_),
            r is Err ==> final(self).overrides@ == old(self).overrides@,
            old(self).valid() ==> final(self).valid(),
    {
        if index >= self.overrides.len() {
            return Err(HostOverrideError::IndexNotFound(index));
        }
        override_.validate()?;
        ensure_unique(&override_, self.overrides.as_slice(), Some(index))?;
        let ghost before = self.overrides@;
        let n = normalize_override(override_);
        self.overrides.set(index, n);
        proof {
            let p = self.overrides@;
            if overrides_valid(before) {
                assert forall|a: int| 0 <= a < p.len() implies override_ok(#[trigger] p[a]) by {
                    if a != index {
                        assert(p[a] == before[a]);
                    }
                }
                assert forall|a: int, b: int|
                    #![trigger p[a], p[b]]
                    0 <= b < a < p.len() implies override_key(p[a]) != override_key(p[b]) by {
                    if a != index && b != index {
                        assert(p[a] == before[a]);
                        assert(p[b] == before[b]);
                    } else if a == index {
                        assert(p[b] == before[b]);
                    } else {
                        assert(p[a] == before[a]);
                    }
                }
            }
        }
        Ok(())
    }

    /// Removes the override at `index`; false when there is none.
    pub fn remove_at(&mut self, index: usize) -> (b: bool)
        ensures
            b == (index < old(self).overrides@.len()),
            b ==> final(self).overrides@ == old(self).overrides@.remove(index as int),
            !b ==> final(self).overrides@ == old(self).overrides@,
            old(self).valid() ==> final(self).valid(),
    {
        if index >= self.overrides.len() {
            return false;
        }
        let ghost before = self.overrides@;
        self.overrides.remove(index);
        proof {
            let p = self.overrides@;
            if overrides_valid(before) {
                assert forall|a: int| 0 <= a < p.len() implies override_ok(#[trigger] p[a]) by {
                    if a < index {
                        assert(p[a] == before[a]);
                    } else {
                        assert(p[a] == before[a + 1]);
                    }
                }
                assert forall|a: int, b: int|
                    #![trigger p[a], p[b]]
                    0 <= b < a < p.len() implies override_key(p[a]) != override_key(p[b]) by {
                    let a0 = if a < index {
                        a
                    } else {
                        a + 1
                    };
                    let b0 = if b < index {
                        b
                    } else {
                        b + 1
                    };
                    assert(p[a] == before[a0]);
                    assert(p[b] == before[b0]);
                    assert(override_key(before[a0]) != override_key(before[b0]));
                }
            }
        }
        true
    }
}


/// The default Windows hosts file.
pub fn default_hosts_path() -> (p: String)
    ensures
        p@ == "C:\\Windows\\System32\\drivers\\etc\\hosts"@,
{
    String::from_str("C:\\Windows\\System32\\drivers\\etc\\hosts")
}

/// Where a scan of the hosts file stands: the lines kept so far, whether it
/// is inside the owned block, and whether it has seen the block.
pub struct ScanState {
    pub kept: Seq<Seq<char>>,
    pub in_block: bool,
    pub saw_block: bool,
}

/// The scan after the first `k` lines: the owned block (from a line that
/// trims to `HOSTS_BEGIN` to one that trims to `HOSTS_END`) is dropped,
/// every other line kept.
pub open spec fn scan(lines: Seq<Seq<char>>, k: int) -> ScanState
    decreases k,
{
    if k <= 0 {
        ScanState { kept: Seq::empty(), in_block: false, saw_block: false }
    } else {
        let s = scan(lines, k - 1);
        let l = lines[k - 1];
        if trim(l) == HOSTS_BEGIN@ {
            ScanState { kept: s.kept, in_block: true, saw_block: true }
        } else if trim(l) == HOSTS_END@ {
            ScanState { kept: s.kept, in_block: false, saw_block: s.saw_block }
        } else if s.in_block {
            s
        } else {
            ScanState { kept: s.kept.push(l), in_block: s.in_block, saw_block: s.saw_block }
        }
    }
}

/// Each line followed by `\n`.
pub open spec fn joined_lines(ls: Seq<Seq<char>>) -> Seq<char>
    decreases ls.len(),
{
    if ls.len() == 0 {
        Seq::<char>::empty()
    } else {
        joined_lines(ls.drop_last()) + ls.last() + seq!['\n']
    }
}

/// `s` with a run of trailing newlines cut to one.
pub open spec fn collapse_newlines(s: Seq<char>) -> Seq<char>
    decreases s.len(),
{
    if s.len() >= 2 && s.last() == '\n' && s[s.len() - 2] == '\n' {
        collapse_newlines(s.drop_last())
    } else {
        s
    }
}

/// `s` ending in a newline unless it is empty.
pub open spec fn newline_ended(s: Seq<char>) -> Seq<char> {
    if s.len() > 0 && s.last() != '\n' {
        s.push('\n')
    } else {
        s
    }
}

pub open spec fn ends_blank(s: Seq<char>) -> bool {
    s.len() >= 2 && s.last() == '\n' && s[s.len() - 2] == '\n'
}

/// The hosts lines of the overrides.
pub open spec fn block_lines(overrides: Seq<HostOverride>) -> Seq<Seq<char>> {
    overrides.map_values(|o: HostOverride| hosts_line_of(o))
}

/// The hosts file rewritten for `overrides`: the old owned block dropped;
/// with no overrides, trailing blank lines trimmed; else a new block
/// appended, after a blank line when the file had no block before.
pub open spec fn rewritten_hosts(content: Seq<char>, overrides: Seq<HostOverride>) -> Seq<char> {
    let ls = lines_of(content);
    let st = scan(ls, ls.len() as int);
    let out = joined_lines(st.kept);
    if overrides.len() == 0 {
        newline_ended(collapse_newlines(out))
    } else {
        let o1 = newline_ended(out);
        let o2 = if o1.len() > 0 && !st.saw_block && !ends_blank(o1) {
            o1.push('\n')
        } else {
            o1
        };
        o2 + HOSTS_BEGIN@ + seq!['\n'] + joined_lines(block_lines(overrides)) + HOSTS_END@
            + seq!['\n']
    }
}

fn append_chars(out: &mut Vec<char>, s: &str)
    ensures
        final(out)@ == old(out)@ + s@,
{
    let v = to_chars(s);
    let mut i: usize = 0;
    let ghost start = out@;
    while i < v.len()
        invariant
            i <= v@.len(),
            v@ == s@,
            out@ == start + v@.subrange(0, i as int),
        decreases v@.len() - i,
    {
        out.push(v[i]);
        i = i + 1;
    }
    assert(v@.subrange(0, v@.len() as int) =~= v@);
}

fn push_line(out: &mut Vec<char>, line: &[char])
    ensures
        final(out)@ == old(out)@ + line@ + seq!['\n'],
{
    let mut i: usize = 0;
    let ghost start = out@;
    while i < line.len()
        invariant
            i <= line@.len(),
            out@ == start + line@.subrange(0, i as int),
        decreases line@.len() - i,
    {
        out.push(line[i]);
        i = i + 1;
    }
    assert(line@.subrange(0, line@.len() as int) =~= line@);
    out.push('\n');
}

/// Rewrites the hosts file text: the owned block is replaced by one for
/// `overrides` (or dropped when there are none). Every override is checked
/// first.
pub fn rewrite_hosts_content(content: &str, overrides: &[HostOverride]) -> (r: Result<
    String,
    HostOverrideError,
>)
    ensures
        r is Ok <==> forall|i: int| 0 <= i < overrides@.len() ==> override_ok(#[trigger] overrides@[i]),
        r matches Err(e) ==> exists|i: int|
            0 <= i < overrides@.len() && !override_ok(#[trigger] overrides@[i]) && (forall|k: int|
                0 <= k < i ==> override_ok(#[trigger] overrides@[k])) && override_result_matches(
                Err(e),
                overrides@[i],
            ),
        r matches Ok(s) ==> s@ == rewritten_hosts(content@, overrides@),
{
    let mut i: usize = 0;
    while i < overrides.len()
        invariant
            i <= overrides@.len(),
            forall|k: int| 0 <= k < i ==> override_ok(#[trigger] overrides@[k]),
        decreases overrides@.len() - i,
    {
        match overrides[i].validate() {
            Ok(()) => {},
            Err(e) => {
                assert(!override_ok(overrides@[i as int]));
                return Err(e);
            },
        }
        i = i + 1;
    }
    let v = to_chars(content);
    let ls = lines(v.as_slice());
    let ghost lsv = lines_of(content@);
    let begin = to_chars(HOSTS_BEGIN);
    let end = to_chars(HOSTS_END);
    let mut out: Vec<char> = Vec::new();
    let mut in_block = false;
    let mut saw_block = false;
    let mut k: usize = 0;
    while k < ls.len()
        invariant
            k <= ls@.len(),
            ls@.len() == lsv.len(),
            v@ == content@,
            lsv == lines_of(content@),
            begin@ == HOSTS_BEGIN@,
            end@ == HOSTS_END@,
            forall|j: int| 0 <= j < ls@.len() ==> #[trigger] ls@[j]@ == lsv[j],
            out@ == joined_lines(scan(lsv, k as int).kept),
            in_block == scan(lsv, k as int).in_block,
            saw_block == scan(lsv, k as int).saw_block,
        decreases ls@.len() - k,
    {
        let line = &ls[k];
        let t = trimmed_chars_of(line.as_slice());
        assert(ls@[k as int]@ == lsv[k as int]);
        if chars_eq(t.as_slice(), begin.as_slice()) {
            in_block = true;
            saw_block = true;
        } else if chars_eq(t.as_slice(), end.as_slice()) {
            in_block = false;
        } else if in_block {
        } else {
            push_line(&mut out, line.as_slice());
            proof {
                let kept = scan(lsv, k as int).kept;
                assert(kept.push(lsv[k as int]).drop_last() =~= kept);
            }
        }
        k = k + 1;
    }
    let ghost st = scan(lsv, lsv.len() as int);
    let ghost base = out@;
    if overrides.len() == 0 {
        while out.len() >= 2 && out[out.len() - 1] == '\n' && out[out.len() - 2] == '\n'
            invariant
                collapse_newlines(out@) == collapse_newlines(base),
            decreases out@.len(),
        {
            out.pop();
        }
        if out.len() > 0 && out[out.len() - 1] != '\n' {
            out.push('\n');
        }
        return Ok(string_of(out.as_slice()));
    }
    if out.len() > 0 && out[out.len() - 1] != '\n' {
        out.push('\n');
    }
    let ghost o1 = out@;
    if out.len() > 0 && !saw_block {
        if !(out.len() >= 2 && out[out.len() - 1] == '\n' && out[out.len() - 2] == '\n') {
            out.push('\n');
        }
    }
    append_chars(&mut out, HOSTS_BEGIN);
    out.push('\n');
    let ghost o3 = out@;
    let mut j: usize = 0;
    while j < overrides.len()
        invariant
            j <= overrides@.len(),
            forall|k: int| 0 <= k < overrides@.len() ==> override_ok(#[trigger] overrides@[k]),
            out@ == o3 + joined_lines(block_lines(overrides@).subrange(0, j as int)),
        decreases overrides@.len() - j,
    {
        let line = match overrides[j].hosts_line() {
            Ok(l) => l,
            Err(_) => {
                assert(override_ok(overrides@[j as int]));
                return Err(HostOverrideError::EmptyHostname);
            },
        };
        let lc = to_chars(line.as_str());
        push_line(&mut out, lc.as_slice());
        proof {
            let b = block_lines(overrides@);
            assert(b.subrange(0, j + 1).drop_last() =~= b.subrange(0, j as int));
            assert(b[j as int] == hosts_line_of(overrides@[j as int]));
        }
        j = j + 1;
    }
    assert(block_lines(overrides@).subrange(0, overrides@.len() as int) =~= block_lines(overrides@));
    append_chars(&mut out, HOSTS_END);
    out.push('\n');
    Ok(string_of(out.as_slice()))
}

fn trimmed_chars_of(v: &[char]) -> (r: Vec<char>)
    ensures
        r@ == trim(v@),
{
    let hi = crate::text::trim_end_index(v);
    let lo = crate::text::trim_start_index(v, hi);
    let mut r: Vec<char> = Vec::new();
    let mut i: usize = lo;
    while i < hi
        invariant
            lo <= i <= hi <= v@.len(),
            r@ == v@.subrange(lo as int, i as int),
        decreases hi - i,
    {
        r.push(v[i]);
        i = i + 1;
    }
    r
}

/// The hint added when the hosts file may not be written: specific when
/// Kaspersky Endpoint Security is installed (`kaspersky_installed`).
pub fn hosts_security_lock_hint(kaspersky_installed: bool) -> (s: String)
    ensures
        s@ == (if kaspersky_installed {
            " Kaspersky Endpoint Security is installed and commonly locks the hosts file even for Administrators and SYSTEM. Allow hosts-file modification for roust-api.exe and the Roust service (or ask your KSC admin), then retry."@
        } else {
            " A security product may be locking the hosts file; allow modification for roust-api.exe / Local System, then retry."@
        }),
{
    if kaspersky_installed {
        String::from_str(
            " Kaspersky Endpoint Security is installed and commonly locks the hosts file even for Administrators and SYSTEM. Allow hosts-file modification for roust-api.exe and the Roust service (or ask your KSC admin), then retry.",
        )
    } else {
        String::from_str(
            " A security product may be locking the hosts file; allow modification for roust-api.exe / Local System, then retry.",
        )
    }
}

/// An I/O error on the hosts file, as plain values: whether access was
/// denied, and the error's text.
pub struct HostsIoError {
    pub permission_denied: bool,
    pub message: String,
}

/// The message for a failed read or write of the hosts file; a refused
/// access gets the lock hint appended.
pub fn map_hosts_io_error(path: &str, err: &HostsIoError, action: &str, kaspersky_installed: bool) -> (s:
    String)
    ensures
        s@ == "failed to "@ + action@ + " hosts file "@ + path@ + ": "@ + err.message@ + (if err.permission_denied {
            seq!['.'] + (if kaspersky_installed {
                " Kaspersky Endpoint Security is installed and commonly locks the hosts file even for Administrators and SYSTEM. Allow hosts-file modification for roust-api.exe and the Roust service (or ask your KSC admin), then retry."@
            } else {
                " A security product may be locking the hosts file; allow modification for roust-api.exe / Local System, then retry."@
            })
        } else {
            Seq::<char>::empty()
        }),
{
    let mut s = String::from_str("failed to ");
    s.append(action);
    s.append(" hosts file ");
    s.append(path);
    s.append(": ");
    s.append(err.message.as_str());
    if err.permission_denied {
        push_char(&mut s, '.');
        let hint = hosts_security_lock_hint(kaspersky_installed);
        s.append(hint.as_str());
        assert(s@ =~= "failed to "@ + action@ + " hosts file "@ + path@ + ": "@ + err.message@ + (
        seq!['.'] + hint@));
    } else {
        assert(s@ =~= "failed to "@ + action@ + " hosts file "@ + path@ + ": "@ + err.message@
            + Seq::<char>::empty());
    }
    s
}

} // verus!
