//! Per-namespace DNS server overrides (`dns-exceptions.json`), applied as
//! Windows Name Resolution Policy Table rules, kept with unique namespaces.

use vstd::prelude::*;
use crate::ipv4::{ipv4_parse, parse_ipv4};
use crate::paths::{replaced_file_name, with_file_name};
use crate::text::{
    contains_text, has_char, has_text, is_ascii_alnum, lemma_trim_idempotent, lower, lower_chars,
    push_char, string_of, strip_leading, strip_leading_chars, to_chars, trim, trimmed,
    trimmed_chars,
};

verus! {

/// The comment that marks the NRPT rules this program owns.
pub const NRPT_COMMENT: &'static str = "Roust";

/// One DNS namespace resolved through a chosen DNS server.
#[derive(Clone, Debug, PartialEq, Eq)]
pub struct DnsException {
    /// Hostname or DNS namespace (`example.com` or `.example.com`).
    pub namespace: String,
    pub dns_server: String,
}

/// Why an exception or an exception list is refused.
#[derive(Clone, Debug, PartialEq, Eq)]
pub enum DnsExceptionError {
    EmptyNamespace,
    /// The namespace holds a URL scheme or a path; each holds the trimmed
    /// namespace.
    NamespaceHasPath(String),
    NamespaceHasPort(String),
    NamespaceHasWildcard(String),
    /// Nothing is left once leading dots are removed.
    NamespaceMalformed(String),
    NamespaceInvalidChars(String),
    EmptyDnsServer,
    /// The DNS server (trimmed) is no IPv4 address.
    DnsServerNotIpv4(String),
    IndexNotFound(usize),
    /// Two exceptions share a namespace key (held here).
    DuplicateNamespace(String),
}

impl DnsExceptionError {
    /// The message a user sees for the error.
    pub open spec fn message(self) -> Seq<char> {
        match self {
            DnsExceptionError::EmptyNamespace => "namespace must not be empty"@,
            DnsExceptionError::NamespaceHasPath(t) => "namespace \""@ + t@
                + "\" must not include a URL scheme or path"@,
            DnsExceptionError::NamespaceHasPort(t) => "namespace \""@ + t@
                + "\" must not include a port"@,
            DnsExceptionError::NamespaceHasWildcard(t) => "namespace \""@ + t@
                + "\" must not include wildcards"@,
            DnsExceptionError::NamespaceMalformed(t) => "namespace \""@ + t@ + "\" is malformed"@,
            DnsExceptionError::NamespaceInvalidChars(t) => "namespace \""@ + t@
                + "\" contains invalid characters"@,
            DnsExceptionError::EmptyDnsServer => "dns-server must not be empty"@,
            DnsExceptionError::DnsServerNotIpv4(t) => "dns-server \""@ + t@
                + "\" must be an IPv4 address"@,
            DnsExceptionError::IndexNotFound(i) => "dns exception index "@ + crate::text::dec(
                i as nat,
            ) + " not found"@,
            DnsExceptionError::DuplicateNamespace(k) => "duplicate dns exception namespace \""@
                + k@ + "\""@,
        }
    }

    /// The message a user sees for the error.
    pub fn to_string(&self) -> (s: String)
        ensures
            s@ == self.message(),
    {
        match self {
            DnsExceptionError::EmptyNamespace => String::from_str("namespace must not be empty"),
            DnsExceptionError::NamespaceHasPath(t) => {
                let mut s = String::from_str("namespace \"");
                s.append(t.as_str());
                s.append("\" must not include a URL scheme or path");
                s
            },
            DnsExceptionError::NamespaceHasPort(t) => {
                let mut s = String::from_str("namespace \"");
                s.append(t.as_str());
                s.append("\" must not include a port");
                s
            },
            DnsExceptionError::NamespaceHasWildcard(t) => {
                let mut s = String::from_str("namespace \"");
                s.append(t.as_str());
                s.append("\" must not include wildcards");
                s
            },
            DnsExceptionError::NamespaceMalformed(t) => {
                let mut s = String::from_str("namespace \"");
                s.append(t.as_str());
                s.append("\" is malformed");
                s
            },
            DnsExceptionError::NamespaceInvalidChars(t) => {
                let mut s = String::from_str("namespace \"");
                s.append(t.as_str());
                s.append("\" contains invalid characters");
                s
            },
            DnsExceptionError::EmptyDnsServer => String::from_str("dns-server must not be empty"),
            DnsExceptionError::DnsServerNotIpv4(t) => {
                let mut s = String::from_str("dns-server \"");
                s.append(t.as_str());
                s.append("\" must be an IPv4 address");
                s
            },
            DnsExceptionError::IndexNotFound(i) => {
                let mut s = String::from_str("dns exception index ");
                crate::text::push_decimal(&mut s, *i);
                s.append(" not found");
                s
            },
            DnsExceptionError::DuplicateNamespace(k) => {
                let mut s = String::from_str("duplicate dns exception namespace \"");
                s.append(k.as_str());
                s.append("\"");
                s
            },
        }
    }
}

/// A namespace character: an ASCII letter or digit, `.` or `-`.
pub open spec fn namespace_char(c: char) -> bool {
    is_ascii_alnum(c) || c == '.' || c == '-'
}

/// What `validate_namespace` answers for a namespace: it is trimmed, then
/// refused when empty, when it holds a `/` or `\` (a URL scheme `://` holds
/// a `/`), a `:`, a `*`, when nothing is left once leading dots are
/// removed, or when what is left holds another character than `namespace_char`.
pub open spec fn namespace_result_matches(r: Result<(), DnsExceptionError>, v: Seq<char>) -> bool {
    let t = trim(v);
    let bare = strip_leading(t, '.');
    if t.len() == 0 {
        r == Err::<(), DnsExceptionError>(DnsExceptionError::EmptyNamespace)
    } else if t.contains('/') || t.contains('\\') {
        r matches Err(DnsExceptionError::NamespaceHasPath(x)) && x@ == t
    } else if t.contains(':') {
        r matches Err(DnsExceptionError::NamespaceHasPort(x)) && x@ == t
    } else if t.contains('*') {
        r matches Err(DnsExceptionError::NamespaceHasWildcard(x)) && x@ == t
    } else if bare.len() == 0 {
        r matches Err(DnsExceptionError::NamespaceMalformed(x)) && x@ == t
    } else if !(forall|i: int| 0 <= i < bare.len() ==> namespace_char(#[trigger] bare[i])) {
        r matches Err(DnsExceptionError::NamespaceInvalidChars(x)) && x@ == t
    } else {
        r is Ok
    }
}

/// Checks a namespace (`validate_namespace`).
#[verifier::loop_isolation(false)]
pub fn validate_namespace(value: &str) -> (r: Result<(), DnsExceptionError>)
    ensures
        namespace_result_matches(r, value@),
{
    let t = trimmed(value);
    let v = to_chars(t.as_str());
    if v.len() == 0 {
        return Err(DnsExceptionError::EmptyNamespace);
    }
    if has_char(v.as_slice(), '/') || has_char(v.as_slice(), '\\') {
        return Err(DnsExceptionError::NamespaceHasPath(t));
    }
    if has_char(v.as_slice(), ':') {
        return Err(DnsExceptionError::NamespaceHasPort(t));
    }
    if has_char(v.as_slice(), '*') {
        return Err(DnsExceptionError::NamespaceHasWildcard(t));
    }
    let bare = strip_leading_chars(v.as_slice(), '.');
    if bare.len() == 0 {
        return Err(DnsExceptionError::NamespaceMalformed(t));
    }
    let mut i: usize = 0;
    while i < bare.len()
        invariant
            i <= bare@.len(),
            forall|k: int| 0 <= k < i ==> namespace_char(#[trigger] bare@[k]),
        decreases bare@.len() - i,
    {
        let c = bare[i];
        let ok = ('0' <= c && c <= '9') || ('a' <= c && c <= 'z') || ('A' <= c && c <= 'Z') || c
            == '.' || c == '-';
        if !ok {
            assert(bare@ == strip_leading(trim(value@), '.'));
            assert(!namespace_char(strip_leading(trim(value@), '.')[i as int]));
            return Err(DnsExceptionError::NamespaceInvalidChars(t));
        }
        i = i + 1;
    }
    Ok(())
}

/// What `validate_dns_server` answers for a DNS server value.
pub open spec fn dns_server_result_matches(r: Result<u32, DnsExceptionError>, v: Seq<char>) -> bool {
    let t = trim(v);
    if t.len() == 0 {
        r == Err::<u32, DnsExceptionError>(DnsExceptionError::EmptyDnsServer)
    } else {
        match ipv4_parse(t) {
            Some(a) => r == Ok::<u32, DnsExceptionError>(a),
            None => r matches Err(DnsExceptionError::DnsServerNotIpv4(x)) && x@ == t,
        }
    }
}

/// Reads a DNS server as an IPv4 address (`validate_dns_server`).
pub fn validate_dns_server(value: &str) -> (r: Result<u32, DnsExceptionError>)
    ensures
        dns_server_result_matches(r, value@),
{
    let t = trimmed(value);
    if t.as_str().unicode_len() == 0 {
        return Err(DnsExceptionError::EmptyDnsServer);
    }
    match parse_ipv4(t.as_str()) {
        Some(a) => Ok(a),
        None => Err(DnsExceptionError::DnsServerNotIpv4(t)),
    }
}

/// An exception has a usable namespace and an IPv4 DNS server.
pub open spec fn exception_ok(e: DnsException) -> bool {
    namespace_result_matches(Ok(()), e.namespace@) && ipv4_parse(trim(e.dns_server@)) is Some
        && trim(e.dns_server@).len() > 0
}

/// What `validate` answers: the namespace's error, else the server's.
pub open spec fn exception_result_matches(r: Result<(), DnsExceptionError>, e: DnsException) -> bool {
    if !namespace_result_matches(Ok(()), e.namespace@) {
        namespace_result_matches(r, e.namespace@)
    } else {
        match r {
            Ok(()) => dns_server_result_matches(Ok(ipv4_parse(trim(e.dns_server@))->0), e.dns_server@),
            Err(x) => dns_server_result_matches(Err(x), e.dns_server@),
        }
    }
}

/// The namespace key: trimmed, leading dots removed, lower-cased.
pub open spec fn exception_key(e: DnsException) -> Seq<char> {
    lower(strip_leading(trim(e.namespace@), '.'))
}

/// A namespace compared for duplicates: trimmed, leading dots removed,
/// lower-cased.
fn normalize_namespace(value: &str) -> (r: String)
    ensures
        r@ == lower(strip_leading(trim(value@), '.')),
{
    let t = trimmed_chars(value);
    let bare = strip_leading_chars(t.as_slice(), '.');
    let l = lower_chars(bare.as_slice());
    string_of(l.as_slice())
}

/// The namespace as NRPT takes it: trimmed, with a leading `.` so that
/// subdomains match too.
pub open spec fn nrpt_namespace_of(v: Seq<char>) -> Seq<char> {
    let t = trim(v);
    if t.len() > 0 && t[0] == '.' {
        t
    } else {
        seq!['.'] + t
    }
}

/// `n` is `e` with namespace and server trimmed.
pub open spec fn normalized(n: DnsException, e: DnsException) -> bool {
    n.namespace@ == trim(e.namespace@) && n.dns_server@ == trim(e.dns_server@)
}

fn nrpt_namespace(value: &str) -> (r: String)
    ensures
        r@ == nrpt_namespace_of(value@),
{
    let t = trimmed_chars(value);
    if t.len() > 0 && t[0] == '.' {
        string_of(t.as_slice())
    } else {
        let mut s = String::new();
        push_char(&mut s, '.');
        let rest = string_of(t.as_slice());
        s.append(rest.as_str());
        assert(s@ =~= seq!['.'] + t@);
        s
    }
}

impl DnsException {
    /// Checks the namespace, then the DNS server.
    pub fn validate(&self) -> (r: Result<(), DnsExceptionError>)
        ensures
            exception_result_matches(r, *self),
            r is Ok <==> exception_ok(*self),
    {
        validate_namespace(self.namespace.as_str())?;
        validate_dns_server(self.dns_server.as_str())?;
        Ok(())
    }

    /// Identity key for duplicate detection.
    pub fn identity_key(&self) -> (k: String)
        ensures
            k@ == exception_key(*self),
    {
        normalize_namespace(self.namespace.as_str())
    }

    /// `namespace → dns-server`, both trimmed.
    pub fn label(&self) -> (s: String)
        ensures
            s@ == trim(self.namespace@) + " → "@ + trim(self.dns_server@),
    {
        let mut s = trimmed(self.namespace.as_str());
        s.append(" → ");
        let d = trimmed(self.dns_server.as_str());
        s.append(d.as_str());
        s
    }

    /// The arguments of `Add-DnsClientNrptRule` for this exception.
    pub fn nrpt_add_args(&self) -> (r: Result<Vec<String>, DnsExceptionError>)
        ensures
            r is Ok <==> exception_ok(*self),
            r matches Err(e) ==> exception_result_matches(Err(e), *self),
            r matches Ok(v) ==> v@.len() == 6 && v@[0]@ == "-Namespace"@ && v@[1]@
                == nrpt_namespace_of(self.namespace@) && v@[2]@ == "-NameServers"@ && v@[3]@
                == trim(self.dns_server@) && v@[4]@ == "-Comment"@ && v@[5]@ == NRPT_COMMENT@,
    {
        self.validate()?;
        let mut v: Vec<String> = Vec::new();
        v.push(String::from_str("-Namespace"));
        v.push(nrpt_namespace(self.namespace.as_str()));
        v.push(String::from_str("-NameServers"));
        v.push(trimmed(self.dns_server.as_str()));
        v.push(String::from_str("-Comment"));
        v.push(String::from_str(NRPT_COMMENT));
        Ok(v)
    }
}

/// `a` with every `'` doubled, as PowerShell reads a single-quoted string.
pub open spec fn doubled_quotes(a: Seq<char>) -> Seq<char>
    decreases a.len(),
{
    if a.len() == 0 {
        Seq::<char>::empty()
    } else {
        doubled_quotes(a.drop_last()) + (if a.last() == '\'' {
            seq!['\'', '\'']
        } else {
            seq![a.last()]
        })
    }
}

/// An argument as the NRPT command line writes it: a flag (leading `-`) as
/// is, any other value single-quoted.
pub open spec fn ps_argument(a: Seq<char>) -> Seq<char> {
    if a.len() > 0 && a[0] == '-' {
        a
    } else {
        seq!['\''] + doubled_quotes(a) + seq!['\'']
    }
}

/// The arguments written one after another, each after a space.
pub open spec fn ps_arguments(args: Seq<Seq<char>>) -> Seq<char>
    decreases args.len(),
{
    if args.len() == 0 {
        Seq::<char>::empty()
    } else {
        ps_arguments(args.drop_last()) + seq![' '] + ps_argument(args.last())
    }
}

fn push_ps_argument(s: &mut String, a: &str)
    ensures
        final(s)@ == old(s)@ + ps_argument(a@),
{
    let v = to_chars(a);
    if v.len() > 0 && v[0] == '-' {
        s.append(a);
        return;
    }
    push_char(s, '\'');
    let ghost start = s@;
    let mut i: usize = 0;
    while i < v.len()
        invariant
            i <= v@.len(),
            v@ == a@,
            s@ == start + doubled_quotes(v@.subrange(0, i as int)),
        decreases v@.len() - i,
    {
        if v[i] == '\'' {
            push_char(s, '\'');
            push_char(s, '\'');
        } else {
            push_char(s, v[i]);
        }
        proof {
            assert(v@.subrange(0, i + 1).drop_last() =~= v@.subrange(0, i as int));
        }
        i = i + 1;
    }
    assert(v@.subrange(0, v@.len() as int) =~= v@);
    push_char(s, '\'');
}

/// The PowerShell command that removes every NRPT rule this program owns.
pub fn clear_nrpt_script() -> (s: String)
    ensures
        s@ == "Get-DnsClientNrptRule | Where-Object { $_.Comment -eq 'Roust' } | ForEach-Object { Remove-DnsClientNrptRule -Name $_.Name -Force }"@,
{
    String::from_str(
        "Get-DnsClientNrptRule | Where-Object { $_.Comment -eq 'Roust' } | ForEach-Object { Remove-DnsClientNrptRule -Name $_.Name -Force }",
    )
}

/// Whether a failed clear is an error: it is not when PowerShell wrote
/// nothing on its error stream, or only that no rule was found.
pub fn clear_failure_is_error(stderr: &str) -> (b: bool)
    ensures
        b == (trim(stderr@).len() > 0 && !contains_text(stderr@, "ObjectNotFound"@)),
{
    let t = trimmed(stderr);
    if t.as_str().unicode_len() == 0 {
        return false;
    }
    let v = to_chars(stderr);
    let pat = to_chars("ObjectNotFound");
    !has_text(v.as_slice(), pat.as_slice())
}

impl DnsException {
    /// The PowerShell command that adds this exception's NRPT rule.
    pub fn nrpt_add_command(&self) -> (r: Result<String, DnsExceptionError>)
        ensures
            r is Ok <==> exception_ok(*self),
            r matches Err(e) ==> exception_result_matches(Err(e), *self),
            r matches Ok(c) ==> c@ == "Add-DnsClientNrptRule"@ + ps_arguments(
                seq![
                    "-Namespace"@,
                    nrpt_namespace_of(self.namespace@),
                    "-NameServers"@,
                    trim(self.dns_server@),
                    "-Comment"@,
                    NRPT_COMMENT@,
                ],
            ),
    {
        let args = self.nrpt_add_args()?;
        let mut s = String::from_str("Add-DnsClientNrptRule");
        let ghost head = s@;
        let ghost want = seq![
            "-Namespace"@,
            nrpt_namespace_of(self.namespace@),
            "-NameServers"@,
            trim(self.dns_server@),
            "-Comment"@,
            NRPT_COMMENT@,
        ];
        let mut i: usize = 0;
        while i < args.len()
            invariant
                i <= args@.len(),
                args@.len() == 6,
                want.len() == 6,
                forall|k: int| 0 <= k < 6 ==> #[trigger] args@[k]@ == want[k],
                s@ == head + ps_arguments(want.subrange(0, i as int)),
            decreases args@.len() - i,
        {
            push_char(&mut s, ' ');
            push_ps_argument(&mut s, args[i].as_str());
            proof {
                assert(want.subrange(0, i + 1).drop_last() =~= want.subrange(0, i as int));
            }
            i = i + 1;
        }
        assert(want.subrange(0, 6) =~= want);
        Ok(s)
    }
}

fn normalize_exception(exception: DnsException) -> (n: DnsException)
    ensures
        normalized(n, exception),
        exception_key(n) == exception_key(exception),
        exception_ok(n) == exception_ok(exception),
{
    let namespace = trimmed(exception.namespace.as_str());
    let dns_server = trimmed(exception.dns_server.as_str());
    proof {
        lemma_trim_idempotent(exception.namespace@);
        lemma_trim_idempotent(exception.dns_server@);
    }
    DnsException { namespace, dns_server }
}

/// No exception of `exceptions` other than the one at `skip` has identity `k`.
pub open spec fn key_clear(k: Seq<char>, exceptions: Seq<DnsException>, skip: Option<usize>) -> bool {
    forall|i: int|
        0 <= i < exceptions.len() && skip != Some(i as usize) ==> exception_key(#[trigger] exceptions[i]) != k
}

/// Every exception is well formed and identities are unique: the store
/// invariant.
pub open spec fn exceptions_valid(exceptions: Seq<DnsException>) -> bool {
    &&& forall|i: int| 0 <= i < exceptions.len() ==> exception_ok(#[trigger] exceptions[i])
    &&& forall|i: int, j: int|
        #![trigger exceptions[i], exceptions[j]]
        0 <= j < i < exceptions.len() ==> exception_key(exceptions[i]) != exception_key(exceptions[j])
}

fn ensure_unique(exception: &DnsException, existing: &[DnsException], skip: Option<usize>) -> (r: Result<
    (),
    DnsExceptionError,
>)
    ensures
        r is Ok <==> key_clear(exception_key(*exception), existing@, skip),
        r matches Err(e) ==> (e matches DnsExceptionError::DuplicateNamespace(k) && k@ == exception_key(
            *exception,
        )),
{
    let key = exception.identity_key();
    let mut i: usize = 0;
    while i < existing.len()
        invariant
            i <= existing@.len(),
            key@ == exception_key(*exception),
            forall|k: int|
                0 <= k < i && skip != Some(k as usize) ==> exception_key(#[trigger] existing@[k])
                    != key@,
        decreases existing@.len() - i,
    {
        let skipped = match skip {
            Some(s) => s == i,
            None => false,
        };
        if !skipped {
            let other = existing[i].identity_key();
            if other == key {
                return Err(DnsExceptionError::DuplicateNamespace(key));
            }
        }
        i = i + 1;
    }
    Ok(())
}

/// What checking a loaded exception list answers: the first malformed exception's
/// error, else the first identity that repeats an earlier one.
pub open spec fn exceptions_error_matches(e: DnsExceptionError, exceptions: Seq<DnsException>) -> bool {
    (exists|i: int|
        0 <= i < exceptions.len() && !exception_ok(#[trigger] exceptions[i]) && (forall|k: int|
            0 <= k < i ==> exception_ok(#[trigger] exceptions[k])) && exception_result_matches(Err(e), exceptions[i]))
        || ((forall|k: int| 0 <= k < exceptions.len() ==> exception_ok(#[trigger] exceptions[k])) && exists|
        i: int,
        j: int,
    |
        #![trigger exceptions[i], exceptions[j]]
        0 <= j < i < exceptions.len() && exception_key(exceptions[i]) == exception_key(exceptions[j]) && (forall|
            a: int,
            b: int,
        |
            #![trigger exceptions[a], exceptions[b]]
            0 <= b < a < i ==> exception_key(exceptions[a]) != exception_key(exceptions[b])) && e
            == DnsExceptionError::DuplicateNamespace(e->DuplicateNamespace_0) && e->DuplicateNamespace_0@
            == exception_key(exceptions[i]))
}

fn validate_exceptions(exceptions: &[DnsException]) -> (r: Result<(), DnsExceptionError>)
    ensures
        r is Ok <==> exceptions_valid(exceptions@),
        r matches Err(e) ==> exceptions_error_matches(e, exceptions@),
{
    let mut i: usize = 0;
    while i < exceptions.len()
        invariant
            i <= exceptions@.len(),
            forall|k: int| 0 <= k < i ==> exception_ok(#[trigger] exceptions@[k]),
        decreases exceptions@.len() - i,
    {
        match exceptions[i].validate() {
            Ok(()) => {},
            Err(e) => {
                assert(!exception_ok(exceptions@[i as int]));
                return Err(e);
            },
        }
        i = i + 1;
    }
    let mut seen: Vec<String> = Vec::new();
    let mut i: usize = 0;
    while i < exceptions.len()
        invariant
            i <= exceptions@.len(),
            seen@.len() == i,
            forall|k: int| 0 <= k < exceptions@.len() ==> exception_ok(#[trigger] exceptions@[k]),
            forall|k: int| 0 <= k < i ==> (#[trigger] seen@[k])@ == exception_key(exceptions@[k]),
            forall|a: int, b: int|
                #![trigger exceptions@[a], exceptions@[b]]
                0 <= b < a < i ==> exception_key(exceptions@[a]) != exception_key(exceptions@[b]),
        decreases exceptions@.len() - i,
    {
        let key = exceptions[i].identity_key();
        let mut j: usize = 0;
        while j < i
            invariant
                j <= i < exceptions@.len(),
                seen@.len() == i,
                key@ == exception_key(exceptions@[i as int]),
                forall|k: int| 0 <= k < exceptions@.len() ==> exception_ok(#[trigger] exceptions@[k]),
                forall|k: int| 0 <= k < i ==> (#[trigger] seen@[k])@ == exception_key(exceptions@[k]),
                forall|k: int| 0 <= k < j ==> exception_key(#[trigger] exceptions@[k]) != key@,
                forall|a: int, b: int|
                    #![trigger exceptions@[a], exceptions@[b]]
                    0 <= b < a < i ==> exception_key(exceptions@[a]) != exception_key(exceptions@[b]),
            decreases i - j,
        {
            if seen[j] == key {
                let e = DnsExceptionError::DuplicateNamespace(key);
                proof {
                    let gi = i as int;
                    let gj = j as int;
                    assert(exception_key(exceptions@[gi]) == exception_key(exceptions@[gj]));
                    assert(e->DuplicateNamespace_0@ == exception_key(exceptions@[gi]));
                    assert(0 <= gj < gi < exceptions@.len() && exception_key(exceptions@[gi]) == exception_key(
                        exceptions@[gj],
                    ) && (forall|a: int, b: int|
                        #![trigger exceptions@[a], exceptions@[b]]
                        0 <= b < a < gi ==> exception_key(exceptions@[a]) != exception_key(exceptions@[b])) && e
                        == DnsExceptionError::DuplicateNamespace(e->DuplicateNamespace_0)
                        && e->DuplicateNamespace_0@ == exception_key(exceptions@[gi]));
                }
                return Err(e);
            }
            j = j + 1;
        }
        seen.push(key);
        i = i + 1;
    }
    Ok(())
}

/// The exceptions of `dns-exceptions.json`.
#[derive(Clone, Debug, PartialEq, Eq)]
pub struct DnsExceptionStore {
    pub exceptions: Vec<DnsException>,
}

impl DnsExceptionStore {
    pub open spec fn valid(self) -> bool {
        exceptions_valid(self.exceptions@)
    }

    pub fn new() -> (s: DnsExceptionStore)
        ensures
            s.exceptions@ == Seq::<DnsException>::empty(),
            s.valid(),
    {
        DnsExceptionStore { exceptions: Vec::new() }
    }

    /// `dns-exceptions.json` beside a `routes.json` path.
    pub fn path_beside(routes_path: &str) -> (p: String)
        ensures
            p@ == replaced_file_name(routes_path@, "dns-exceptions.json"@),
    {
        with_file_name(routes_path, "dns-exceptions.json")
    }

    /// Builds the store from the exceptions read out of `dns-exceptions.json`.
    pub fn from_exceptions(exceptions: Vec<DnsException>) -> (r: Result<DnsExceptionStore, DnsExceptionError>)
        ensures
            r is Ok <==> exceptions_valid(exceptions@),
            r matches Ok(s) ==> s.exceptions@ == exceptions@,
            r matches Err(e) ==> exceptions_error_matches(e, exceptions@),
    {
        validate_exceptions(exceptions.as_slice())?;
        Ok(DnsExceptionStore { exceptions })
    }

    pub fn get_exceptions(&self) -> (r: &[DnsException])
        ensures
            r@ == self.exceptions@,
    {
        self.exceptions.as_slice()
    }

    /// Appends an exception (normalized) when it is well formed and its identity
    /// is new.
    pub fn add(&mut self, exception: DnsException) -> (r: Result<(), DnsExceptionError>)
        ensures
            r is Ok <==> (exception_ok(exception) && key_clear(exception_key(exception), old(self).exceptions@, None)),
            !exception_ok(exception) ==> exception_result_matches(r, exception),
            exception_ok(exception) && !key_clear(exception_key(exception), old(self).exceptions@, None) ==> (r matches Err(
                DnsExceptionError::DuplicateNamespace(k),
            ) && k@ == exception_key(exception)),
            r is Ok ==> final(self).exceptions@.len() == old(self).exceptions@.len() + 1,
            r is Ok ==> final(self).exceptions@.drop_last() == old(self).exceptions@,
            r is Ok ==> normalized(final(self).exceptions@.last(), exception),
            r is Err ==> final(self).exceptions@ == old(self).exceptions@,
            old(self).valid() ==> final(self).valid(),
    {
        exception.validate()?;
        ensure_unique(&exception, self.exceptions.as_slice(), None)?;
        let ghost before = self.exceptions@;
        let n = normalize_exception(exception);
        self.exceptions.push(n);
        proof {
            assert(self.exceptions@.drop_last() =~= before);
            let p = self.exceptions@;
            if exceptions_valid(before) {
                assert forall|a: int| 0 <= a < p.len() implies exception_ok(#[trigger] p[a]) by {
                    if a < before.len() {
                        assert(p[a] == before[a]);
                    }
                }
                assert forall|a: int, b: int|
                    #![trigger p[a], p[b]]
                    0 <= b < a < p.len() implies exception_key(p[a]) != exception_key(p[b]) by {
                    assert(p[b] == before[b]);
                    if a < before.len() {
                        assert(p[a] == before[a]);
                    }
                }
            }
        }
        Ok(())
    }

    /// Replaces the exception at `index` (normalized) when it is well formed and
    /// its identity is new among the others.
    pub fn replace_at(&mut self, index: usize, exception: DnsException) -> (r: Result<(), DnsExceptionError>)
        ensures
            index >= old(self).exceptions@.len() ==> r == Err::<(), DnsExceptionError>(
                DnsExceptionError::IndexNotFound(index),
            ),
            index < old(self).exceptions@.len() ==> (r is Ok <==> (exception_ok(exception) && key_clear(
                exception_key(exception),
                old(self).exceptions@,
                Some(index),
            ))),
            index < old(self).exceptions@.len() && !exception_ok(exception) ==> exception_result_matches(r, exception),
            index < old(self).exceptions@.len() && exception_ok(exception) && !key_clear(
                exception_key(exception),
                old(self).exceptions@,
                Some(index),
            ) ==> (r matches Err(DnsExceptionError::DuplicateNamespace(k)) && k@ == exception_key(exception)),
            r is Ok ==> final(self).exceptions@.len() == old(self).exceptions@.len(),
            r is Ok ==> forall|i: int|
                0 <= i < old(self).exceptions@.len() && i != index ==> final(self).exceptions@[i] == old(
                    self,
                ).exceptions@[i],
            r is Ok ==> normalized(final(self).exceptions@[index as int], exception),
            r is Err ==> final(self).exceptions@ == old(self).exceptions@,
            old(self).valid() ==> final(self).valid(),
    {
        if index >= self.exceptions.len() {
            return Err(DnsExceptionError::IndexNotFound(index));
        }
        exception.validate()?;
        ensure_unique(&exception, self.exceptions.as_slice(), Some(index))?;
        let ghost before = self.exceptions@;
        let n = normalize_exception(exception);
        self.exceptions.set(index, n);
        proof {
            let p = self.exceptions@;
            if exceptions_valid(before) {
                assert forall|a: int| 0 <= a < p.len() implies exception_ok(#[trigger] p[a]) by {
                    if a != index {
                        assert(p[a] == before[a]);
                    }
                }
                assert forall|a: int, b: int|
                    #![trigger p[a], p[b]]
                    0 <= b < a < p.len() implies exception_key(p[a]) != exception_key(p[b]) by {
                    if a != index && b != index {
                        assert(p[a] == before[a]);
                        assert(p[b] == before[b]);
                    } else if a == index {
                        assert(p[b] == before[b]);
                    } else {
                        assert(p[a] == before[a]);
                    }
                }
            }
        }
        Ok(())
    }

    /// Removes the exception at `index`; false when there is none.
    pub fn remove_at(&mut self, index: usize) -> (b: bool)
        ensures
            b == (index < old(self).exceptions@.len()),
            b ==> final(self).exceptions@ == old(self).exceptions@.remove(index as int),
            !b ==> final(self).exceptions@ == old(self).exceptions@,
            old(self).valid() ==> final(self).valid(),
    {
        if index >= self.exceptions.len() {
            return false;
        }
        let ghost before = self.exceptions@;
        self.exceptions.remove(index);
        proof {
            let p = self.exceptions@;
            if exceptions_valid(before) {
                assert forall|a: int| 0 <= a < p.len() implies exception_ok(#[trigger] p[a]) by {
                    if a < index {
                        assert(p[a] == before[a]);
                    } else {
                        assert(p[a] == before[a + 1]);
                    }
                }
                assert forall|a: int, b: int|
                    #![trigger p[a], p[b]]
                    0 <= b < a < p.len() implies exception_key(p[a]) != exception_key(p[b]) by {
                    let a0 = if a < index {
                        a
                    } else {
                        a + 1
                    };
                    let b0 = if b < index {
                        b
                    } else {
                        b + 1
                    };
                    assert(p[a] == before[a0]);
                    assert(p[b] == before[b0]);
                    assert(exception_key(before[a0]) != exception_key(before[b0]));
                }
            }
        }
        true
    }
}

} // verus!
