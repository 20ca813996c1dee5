//! Per-app NIC bindings (`app-binds.json`): which network interface an
//! application's traffic is held to, kept with unique application identities.

use vstd::prelude::*;
use crate::paths::{replaced_file_name, with_file_name};
use crate::text::{
    lemma_trim_idempotent, lower, lower_char, lower_string, nonblank, nonblank_of, push_char, to_chars, trim,
    trimmed,
};

verus! {

/// One application bound to a NIC.
#[derive(Clone, Debug, PartialEq, Eq)]
pub struct AppBind {
    /// Full executable path, when known.
    pub exe_path: Option<String>,
    /// Process image name, used when the path is missing.
    pub image_name: Option<String>,
    /// NIC alias (friendly, display or internal name).
    pub nic: String,
}

/// Health of a bind against the live adapters.
#[derive(Clone, Copy, Debug, PartialEq, Eq, Structural)]
pub enum AppBindStatus {
    Healthy,
    NicDown,
    Unresolved,
}

/// Why a bind or a bind list is refused.
#[derive(Clone, Debug, PartialEq, Eq)]
pub enum AppBindError {
    /// Neither an executable path nor an image name is given.
    MissingIdentity,
    /// The NIC is blank.
    EmptyNic,
    IndexNotFound(usize),
    /// Two binds share an identity key (held here).
    DuplicateIdentity(String),
}

impl AppBindError {
    /// The message a user sees for the error.
    pub open spec fn message(self) -> Seq<char> {
        match self {
            AppBindError::MissingIdentity => "app bind requires exe-path and/or image-name"@,
            AppBindError::EmptyNic => "app bind nic must not be empty"@,
            AppBindError::IndexNotFound(i) => "app bind index "@ + crate::text::dec(i as nat)
                + " not found"@,
            AppBindError::DuplicateIdentity(k) => "duplicate app bind identity \""@ + k@
                + "\" (use a unique exe-path or image-name)"@,
        }
    }

    /// The message a user sees for the error.
    pub fn to_string(&self) -> (s: String)
        ensures
            s@ == self.message(),
    {
        match self {
            AppBindError::MissingIdentity => String::from_str(
                "app bind requires exe-path and/or image-name",
            ),
            AppBindError::EmptyNic => String::from_str("app bind nic must not be empty"),
            AppBindError::IndexNotFound(i) => {
                let mut s = String::from_str("app bind index ");
                crate::text::push_decimal(&mut s, *i);
                s.append(" not found");
                s
            },
            AppBindError::DuplicateIdentity(k) => {
                let mut s = String::from_str("duplicate app bind identity \"");
                s.append(k.as_str());
                s.append("\" (use a unique exe-path or image-name)");
                s
            },
        }
    }
}

/// `/` turned into `\`.
pub open spec fn backslashed(s: Seq<char>) -> Seq<char> {
    s.map_values(|c: char| if c == '/' { '\\' } else { c })
}

/// A bind names an application and a NIC.
pub open spec fn bind_ok(b: AppBind) -> bool {
    (nonblank_of(b.exe_path) is Some || nonblank_of(b.image_name) is Some) && trim(b.nic@).len()
        > 0
}

/// The identity of a bind: its path with `\` separators, lower-cased; else
/// its image name, lower-cased; else empty.
pub open spec fn bind_key(b: AppBind) -> Seq<char> {
    match nonblank_of(b.exe_path) {
        Some(p) => lower(backslashed(p)),
        None => match nonblank_of(b.image_name) {
            Some(i) => lower(i),
            None => Seq::<char>::empty(),
        },
    }
}

/// What `validate` answers for a bind.
pub open spec fn bind_result_matches(r: Result<(), AppBindError>, b: AppBind) -> bool {
    if nonblank_of(b.exe_path) is None && nonblank_of(b.image_name) is None {
        r == Err::<(), AppBindError>(AppBindError::MissingIdentity)
    } else if trim(b.nic@).len() == 0 {
        r == Err::<(), AppBindError>(AppBindError::EmptyNic)
    } else {
        r is Ok
    }
}

/// `n` is `b` with its path, image name and NIC trimmed, and blank path or
/// image name dropped.
pub open spec fn normalized(n: AppBind, b: AppBind) -> bool {
    &&& (n.exe_path is Some <==> nonblank_of(b.exe_path) is Some)
    &&& (n.exe_path matches Some(x) ==> x@ == nonblank_of(b.exe_path)->0)
    &&& (n.image_name is Some <==> nonblank_of(b.image_name) is Some)
    &&& (n.image_name matches Some(x) ==> x@ == nonblank_of(b.image_name)->0)
    &&& n.nic@ == trim(b.nic@)
}

fn normalize_exe_path(path: &str) -> (r: String)
    ensures
        r@ == lower(backslashed(path@)),
{
    let v = to_chars(path);
    let mut s = String::new();
    let mut i: usize = 0;
    while i < v.len()
        invariant
            i <= v@.len(),
            v@ == path@,
            s@ == backslashed(v@.subrange(0, i as int)),
        decreases v@.len() - i,
    {
        let c = if v[i] == '/' {
            '\\'
        } else {
            v[i]
        };
        push_char(&mut s, c);
        proof {
            assert(backslashed(v@.subrange(0, i + 1)) =~= backslashed(v@.subrange(0, i as int)).push(
                c,
            ));
        }
        i = i + 1;
    }
    assert(v@.subrange(0, v@.len() as int) =~= v@);
    lower_string(s.as_str())
}

/// How a bind is named in messages: `app → nic`, where the app is the
/// trimmed path, else the trimmed image name, else `?`.
pub open spec fn bind_label(b: AppBind) -> Seq<char> {
    (match nonblank_of(b.exe_path) {
        Some(p) => p,
        None => match nonblank_of(b.image_name) {
            Some(i) => i,
            None => seq!['?'],
        },
    }) + " → "@ + trim(b.nic@)
}

/// A bind with a non-blank executable path is known by that path, trimmed,
/// with each `/` turned into `\\` and ASCII letters lower-cased, whatever
/// its image name is.
pub proof fn lemma_key_from_path(b: AppBind, p: String)
    requires
        b.exe_path == Some(p),
        trim(p@).len() > 0,
    ensures
        bind_key(b).len() == trim(p@).len(),
        forall|i: int|
            0 <= i < trim(p@).len() ==> #[trigger] bind_key(b)[i] == lower_char(
                if trim(p@)[i] == '/' {
                    '\\'
                } else {
                    trim(p@)[i]
                },
            ),
{
}

/// A bind without a non-blank path but with a non-blank image name is known
/// by that name, trimmed and with ASCII letters lower-cased.
pub proof fn lemma_key_from_image(b: AppBind, n: String)
    requires
        nonblank_of(b.exe_path) is None,
        b.image_name == Some(n),
        trim(n@).len() > 0,
    ensures
        bind_key(b).len() == trim(n@).len(),
        forall|i: int| 0 <= i < trim(n@).len() ==> #[trigger] bind_key(b)[i] == lower_char(trim(n@)[i]),
{
}

/// Two binds with non-blank paths share a key exactly when their trimmed
/// paths agree letter by letter up to ASCII case and the two separators.
pub proof fn lemma_path_keys_equal(a: AppBind, b: AppBind, p: String, q: String)
    requires
        a.exe_path == Some(p),
        b.exe_path == Some(q),
        trim(p@).len() > 0,
        trim(q@).len() > 0,
    ensures
        bind_key(a) == bind_key(b) <==> (trim(p@).len() == trim(q@).len() && forall|i: int|
            0 <= i < trim(p@).len() ==> lower_char(
                if #[trigger] trim(p@)[i] == '/' {
                    '\\'
                } else {
                    trim(p@)[i]
                },
            ) == lower_char(
                if trim(q@)[i] == '/' {
                    '\\'
                } else {
                    trim(q@)[i]
                },
            )),
{
    lemma_key_from_path(a, p);
    lemma_key_from_path(b, q);
    if trim(p@).len() == trim(q@).len() && forall|i: int|
        0 <= i < trim(p@).len() ==> lower_char(
            if #[trigger] trim(p@)[i] == '/' {
                '\\'
            } else {
                trim(p@)[i]
            },
        ) == lower_char(
            if trim(q@)[i] == '/' {
                '\\'
            } else {
                trim(q@)[i]
            },
        ) {
        assert(bind_key(a) =~= bind_key(b));
    }
    if bind_key(a) == bind_key(b) {
        assert forall|i: int| 0 <= i < trim(p@).len() implies lower_char(
            if #[trigger] trim(p@)[i] == '/' {
                '\\'
            } else {
                trim(p@)[i]
            },
        ) == lower_char(
            if trim(q@)[i] == '/' {
                '\\'
            } else {
                trim(q@)[i]
            },
        ) by {
            assert(bind_key(a)[i] == bind_key(b)[i]);
        }
    }
}

impl AppBind {
    /// Refuses a bind without an application or without a NIC.
    pub fn validate(&self) -> (r: Result<(), AppBindError>)
        ensures
            bind_result_matches(r, *self),
            r is Ok <==> bind_ok(*self),
    {
        let path = nonblank(&self.exe_path);
        let image = nonblank(&self.image_name);
        if path.is_none() && image.is_none() {
            return Err(AppBindError::MissingIdentity);
        }
        let nic = trimmed(self.nic.as_str());
        if nic.as_str().unicode_len() == 0 {
            return Err(AppBindError::EmptyNic);
        }
        Ok(())
    }

    /// Identity key for duplicate detection.
    pub fn identity_key(&self) -> (k: String)
        ensures
            k@ == bind_key(*self),
    {
        match nonblank(&self.exe_path) {
            Some(p) => normalize_exe_path(p.as_str()),
            None => match nonblank(&self.image_name) {
                Some(i) => lower_string(i.as_str()),
                None => String::new(),
            },
        }
    }

    /// `app → nic`: the path, else the image name, else `?`.
    pub fn label(&self) -> (s: String)
        ensures
            s@ == bind_label(*self),
    {
        let mut s = match nonblank(&self.exe_path) {
            Some(p) => p,
            None => match nonblank(&self.image_name) {
                Some(i) => i,
                None => {
                    let mut q = String::new();
                    push_char(&mut q, '?');
                    assert(q@ =~= seq!['?']);
                    q
                },
            },
        };
        s.append(" → ");
        let nic = trimmed(self.nic.as_str());
        s.append(nic.as_str());
        s
    }
}

fn normalize_bind(bind: AppBind) -> (n: AppBind)
    ensures
        normalized(n, bind),
        bind_key(n) == bind_key(bind),
        bind_ok(n) == bind_ok(bind),
{
    let exe_path = nonblank(&bind.exe_path);
    let image_name = nonblank(&bind.image_name);
    let nic = trimmed(bind.nic.as_str());
    let n = AppBind { exe_path, image_name, nic };
    proof {
        if let Some(p) = bind.exe_path {
            lemma_trim_idempotent(p@);
        }
        if let Some(i) = bind.image_name {
            lemma_trim_idempotent(i@);
        }
        lemma_trim_idempotent(bind.nic@);
        assert(nonblank_of(n.exe_path) == nonblank_of(bind.exe_path));
        assert(nonblank_of(n.image_name) == nonblank_of(bind.image_name));
    }
    n
}

/// No bind of `binds` other than the one at `skip` has identity `k`.
pub open spec fn key_clear(k: Seq<char>, binds: Seq<AppBind>, skip: Option<usize>) -> bool {
    forall|i: int|
        0 <= i < binds.len() && skip != Some(i as usize) ==> bind_key(#[trigger] binds[i]) != k
}

/// Every bind is well formed and identities are unique: the store
/// invariant.
pub open spec fn binds_valid(binds: Seq<AppBind>) -> bool {
    &&& forall|i: int| 0 <= i < binds.len() ==> bind_ok(#[trigger] binds[i])
    &&& forall|i: int, j: int|
        #![trigger binds[i], binds[j]]
        0 <= j < i < binds.len() ==> bind_key(binds[i]) != bind_key(binds[j])
}

fn ensure_unique_identity(bind: &AppBind, existing: &[AppBind], skip: Option<usize>) -> (r: Result<
    (),
    AppBindError,
>)
    ensures
        r is Ok <==> key_clear(bind_key(*bind), existing@, skip),
        r matches Err(e) ==> (e matches AppBindError::DuplicateIdentity(k) && k@ == bind_key(
            *bind,
        )),
{
    let key = bind.identity_key();
    let mut i: usize = 0;
    while i < existing.len()
        invariant
            i <= existing@.len(),
            key@ == bind_key(*bind),
            forall|k: int|
                0 <= k < i && skip != Some(k as usize) ==> bind_key(#[trigger] existing@[k])
                    != key@,
        decreases existing@.len() - i,
    {
        let skipped = match skip {
            Some(s) => s == i,
            None => false,
        };
        if !skipped {
            let other = existing[i].identity_key();
            if other == key {
                return Err(AppBindError::DuplicateIdentity(key));
            }
        }
        i = i + 1;
    }
    Ok(())
}

/// What checking a loaded bind list answers: the first malformed bind's
/// error, else the first identity that repeats an earlier one.
pub open spec fn binds_error_matches(e: AppBindError, binds: Seq<AppBind>) -> bool {
    (exists|i: int|
        0 <= i < binds.len() && !bind_ok(#[trigger] binds[i]) && (forall|k: int|
            0 <= k < i ==> bind_ok(#[trigger] binds[k])) && bind_result_matches(Err(e), binds[i]))
        || ((forall|k: int| 0 <= k < binds.len() ==> bind_ok(#[trigger] binds[k])) && exists|
        i: int,
        j: int,
    |
        #![trigger binds[i], binds[j]]
        0 <= j < i < binds.len() && bind_key(binds[i]) == bind_key(binds[j]) && (forall|
            a: int,
            b: int,
        |
            #![trigger binds[a], binds[b]]
            0 <= b < a < i ==> bind_key(binds[a]) != bind_key(binds[b])) && e
            == AppBindError::DuplicateIdentity(e->DuplicateIdentity_0) && e->DuplicateIdentity_0@
            == bind_key(binds[i]))
}

fn validate_binds(binds: &[AppBind]) -> (r: Result<(), AppBindError>)
    ensures
        r is Ok <==> binds_valid(binds@),
        r matches Err(e) ==> binds_error_matches(e, binds@),
{
    let mut i: usize = 0;
    while i < binds.len()
        invariant
            i <= binds@.len(),
            forall|k: int| 0 <= k < i ==> bind_ok(#[trigger] binds@[k]),
        decreases binds@.len() - i,
    {
        match binds[i].validate() {
            Ok(()) => {},
            Err(e) => {
                assert(!bind_ok(binds@[i as int]));
                return Err(e);
            },
        }
        i = i + 1;
    }
    let mut seen: Vec<String> = Vec::new();
    let mut i: usize = 0;
    while i < binds.len()
        invariant
            i <= binds@.len(),
            seen@.len() == i,
            forall|k: int| 0 <= k < binds@.len() ==> bind_ok(#[trigger] binds@[k]),
            forall|k: int| 0 <= k < i ==> (#[trigger] seen@[k])@ == bind_key(binds@[k]),
            forall|a: int, b: int|
                #![trigger binds@[a], binds@[b]]
                0 <= b < a < i ==> bind_key(binds@[a]) != bind_key(binds@[b]),
        decreases binds@.len() - i,
    {
        let key = binds[i].identity_key();
        let mut j: usize = 0;
        while j < i
            invariant
                j <= i < binds@.len(),
                seen@.len() == i,
                key@ == bind_key(binds@[i as int]),
                forall|k: int| 0 <= k < binds@.len() ==> bind_ok(#[trigger] binds@[k]),
                forall|k: int| 0 <= k < i ==> (#[trigger] seen@[k])@ == bind_key(binds@[k]),
                forall|k: int| 0 <= k < j ==> bind_key(#[trigger] binds@[k]) != key@,
                forall|a: int, b: int|
                    #![trigger binds@[a], binds@[b]]
                    0 <= b < a < i ==> bind_key(binds@[a]) != bind_key(binds@[b]),
            decreases i - j,
        {
            if seen[j] == key {
                let e = AppBindError::DuplicateIdentity(key);
                proof {
                    let gi = i as int;
                    let gj = j as int;
                    assert(bind_key(binds@[gi]) == bind_key(binds@[gj]));
                    assert(e->DuplicateIdentity_0@ == bind_key(binds@[gi]));
                    assert(0 <= gj < gi < binds@.len() && bind_key(binds@[gi]) == bind_key(
                        binds@[gj],
                    ) && (forall|a: int, b: int|
                        #![trigger binds@[a], binds@[b]]
                        0 <= b < a < gi ==> bind_key(binds@[a]) != bind_key(binds@[b])) && e
                        == AppBindError::DuplicateIdentity(e->DuplicateIdentity_0)
                        && e->DuplicateIdentity_0@ == bind_key(binds@[gi]));
                }
                return Err(e);
            }
            j = j + 1;
        }
        seen.push(key);
        i = i + 1;
    }
    Ok(())
}

/// The binds of `app-binds.json`.
#[derive(Clone, Debug, PartialEq, Eq)]
pub struct AppBindStore {
    pub binds: Vec<AppBind>,
}

impl AppBindStore {
    pub open spec fn valid(self) -> bool {
        binds_valid(self.binds@)
    }

    pub fn new() -> (s: AppBindStore)
        ensures
            s.binds@ == Seq::<AppBind>::empty(),
            s.valid(),
    {
        AppBindStore { binds: Vec::new() }
    }

    /// `app-binds.json` beside a `routes.json` path.
    pub fn path_beside(routes_path: &str) -> (p: String)
        ensures
            p@ == replaced_file_name(routes_path@, "app-binds.json"@),
    {
        with_file_name(routes_path, "app-binds.json")
    }

    /// Builds the store from the binds read out of `app-binds.json`.
    pub fn from_binds(binds: Vec<AppBind>) -> (r: Result<AppBindStore, AppBindError>)
        ensures
            r is Ok <==> binds_valid(binds@),
            r matches Ok(s) ==> s.binds@ == binds@,
            r matches Err(e) ==> binds_error_matches(e, binds@),
    {
        validate_binds(binds.as_slice())?;
        Ok(AppBindStore { binds })
    }

    pub fn get_binds(&self) -> (r: &[AppBind])
        ensures
            r@ == self.binds@,
    {
        self.binds.as_slice()
    }

    /// Appends a bind (normalized) when it is well formed and its identity
    /// is new.
    pub fn add(&mut self, bind: AppBind) -> (r: Result<(), AppBindError>)
        ensures
            r is Ok <==> (bind_ok(bind) && key_clear(bind_key(bind), old(self).binds@, None)),
            !bind_ok(bind) ==> bind_result_matches(r, bind),
            bind_ok(bind) && !key_clear(bind_key(bind), old(self).binds@, None) ==> (r matches Err(
                AppBindError::DuplicateIdentity(k),
            ) && k@ == bind_key(bind)),
            r is Ok ==> final(self).binds@.len() == old(self).binds@.len() + 1,
            r is Ok ==> final(self).binds@.drop_last() == old(self).binds@,
            r is Ok ==> normalized(final(self).binds@.last(), bind),
            r is Err ==> final(self).binds@ == old(self).binds@,
            old(self).valid() ==> final(self).valid(),
    {
        bind.validate()?;
        ensure_unique_identity(&bind, self.binds.as_slice(), None)?;
        let ghost before = self.binds@;
        let n = normalize_bind(bind);
        self.binds.push(n);
        proof {
            assert(self.binds@.drop_last() =~= before);
            let p = self.binds@;
            if binds_valid(before) {
                assert forall|a: int| 0 <= a < p.len() implies bind_ok(#[trigger] p[a]) by {
                    if a < before.len() {
                        assert(p[a] == before[a]);
                    }
                }
                assert forall|a: int, b: int|
                    #![trigger p[a], p[b]]
                    0 <= b < a < p.len() implies bind_key(p[a]) != bind_key(p[b]) by {
                    assert(p[b] == before[b]);
                    if a < before.len() {
                        assert(p[a] == before[a]);
                    }
                }
            }
        }
        Ok(())
    }

    /// Replaces the bind at `index` (normalized) when it is well formed and
    /// its identity is new among the others.
    pub fn replace_at(&mut self, index: usize, bind: AppBind) -> (r: Result<(), AppBindError>)
        ensures
            index >= old(self).binds@.len() ==> r == Err::<(), AppBindError>(
                AppBindError::IndexNotFound(index),
            ),
            index < old(self).binds@.len() ==> (r is Ok <==> (bind_ok(bind) && key_clear(
                bind_key(bind),
                old(self).binds@,
                Some(index),
            ))),
            index < old(self).binds@.len() && !bind_ok(bind) ==> bind_result_matches(r, bind),
            index < old(self).binds@.len() && bind_ok(bind) && !key_clear(
                bind_key(bind),
                old(self).binds@,
                Some(index),
            ) ==> (r matches Err(AppBindError::DuplicateIdentity(k)) && k@ == bind_key(bind)),
            r is Ok ==> final(self).binds@.len() == old(self).binds@.len(),
            r is Ok ==> forall|i: int|
                0 <= i < old(self).binds@.len() && i != index ==> final(self).binds@[i] == old(
                    self,
                ).binds@[i],
            r is Ok ==> normalized(final(self).binds@[index as int], bind),
            r is Err ==> final(self).binds@ == old(self).binds@,
            old(self).valid() ==> final(self).valid(),
    {
        if index >= self.binds.len() {
            return Err(AppBindError::IndexNotFound(index));
        }
        bind.validate()?;
        ensure_unique_identity(&bind, self.binds.as_slice(), Some(index))?;
        let ghost before = self.binds@;
        let n = normalize_bind(bind);
        self.binds.set(index, n);
        proof {
            let p = self.binds@;
            if binds_valid(before) {
                assert forall|a: int| 0 <= a < p.len() implies bind_ok(#[trigger] p[a]) by {
                    if a != index {
                        assert(p[a] == before[a]);
                    }
                }
                assert forall|a: int, b: int|
                    #![trigger p[a], p[b]]
                    0 <= b < a < p.len() implies bind_key(p[a]) != bind_key(p[b]) by {
                    if a != index && b != index {
                        assert(p[a] == before[a]);
                        assert(p[b] == before[b]);
                    } else if a == index {
                        assert(p[b] == before[b]);
                    } else {
                        assert(p[a] == before[a]);
                    }
                }
            }
        }
        Ok(())
    }

    /// Removes the bind at `index`; false when there is none.
    pub fn remove_at(&mut self, index: usize) -> (b: bool)
        ensures
            b == (index < old(self).binds@.len()),
            b ==> final(self).binds@ == old(self).binds@.remove(index as int),
            !b ==> final(self).binds@ == old(self).binds@,
            old(self).valid() ==> final(self).valid(),
    {
        if index >= self.binds.len() {
            return false;
        }
        let ghost before = self.binds@;
        self.binds.remove(index);
        proof {
            let p = self.binds@;
            if binds_valid(before) {
                assert forall|a: int| 0 <= a < p.len() implies bind_ok(#[trigger] p[a]) by {
                    if a < index {
                        assert(p[a] == before[a]);
                    } else {
                        assert(p[a] == before[a + 1]);
                    }
                }
                assert forall|a: int, b: int|
                    #![trigger p[a], p[b]]
                    0 <= b < a < p.len() implies bind_key(p[a]) != bind_key(p[b]) by {
                    let a0 = if a < index {
                        a
                    } else {
                        a + 1
                    };
                    let b0 = if b < index {
                        b
                    } else {
                        b + 1
                    };
                    assert(p[a] == before[a0]);
                    assert(p[b] == before[b0]);
                    assert(bind_key(before[a0]) != bind_key(before[b0]));
                }
            }
        }
        true
    }
}

} // verus!
