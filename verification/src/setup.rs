//! First-run setup: which steps run, and the PowerShell scripts that add the
//! install folder to (or remove it from) the user's PATH.

use vstd::prelude::*;
use crate::dns_exceptions::doubled_quotes;
use crate::text::{contains_text, occurs_at, push_char, to_chars};

verus! {

/// The WinDivert release archive.
pub const WINDIVERT_ZIP_URL: &'static str =
    "https://github.com/basil00/WinDivert/releases/download/v2.2.2/WinDivert-2.2.2-A.zip";

/// The placeholder a PATH script holds for the install folder.
pub const INSTALL_PLACEHOLDER: &'static str = "<<ROUST_INSTALL>>";

/// Appends the install folder to the user PATH unless an entry already
/// resolves to it.
pub const PS_APPEND_USER_PATH: &'static str = "$ErrorActionPreference = 'Stop'
$install = [System.IO.Path]::GetFullPath('<<ROUST_INSTALL>>')
$userPath = [Environment]::GetEnvironmentVariable('Path', 'User')
if ($null -eq $userPath) { $userPath = '' }
$duplicate = $false
foreach ($segment in ($userPath -split ';')) {
  if ([string]::IsNullOrWhiteSpace($segment)) { continue }
  try {
    $full = [System.IO.Path]::GetFullPath($segment)
    if ($full -ieq $install) { $duplicate = $true; break }
  } catch { }
}
if (-not $duplicate) {
  $tail = if ($userPath -eq '' -or $userPath.EndsWith(';')) { '' } else { ';' }
  [Environment]::SetEnvironmentVariable('Path', ($userPath + $tail + $install), 'User')
}
";

/// Removes every user PATH entry that resolves to the install folder.
pub const PS_REMOVE_USER_PATH: &'static str = "$ErrorActionPreference = 'Stop'
$install = [System.IO.Path]::GetFullPath('<<ROUST_INSTALL>>')
$userPath = [Environment]::GetEnvironmentVariable('Path', 'User')
if ($null -eq $userPath) { exit 0 }
$segments = @()
foreach ($segment in ($userPath -split ';')) {
  if ([string]::IsNullOrWhiteSpace($segment)) { continue }
  try {
    $full = [System.IO.Path]::GetFullPath($segment)
    if ($full -ieq $install) { continue }
  } catch { }
  $segments += $segment
}
$newPath = ($segments -join ';')
[Environment]::SetEnvironmentVariable('Path', $newPath, 'User')
";

/// What the setup helper does.
#[derive(Clone, Debug)]
pub struct SetupOptions {
    pub install_dir: String,
    pub install_rust: bool,
    pub update_path: bool,
    pub download_lists: bool,
    pub download_windivert: bool,
}

impl SetupOptions {
    /// The options that the environment asks for: Rust only when
    /// `ROUST_INSTALL_RUST` is set and `ROUST_SKIP_RUST` is not; every other
    /// step unless its `ROUST_SKIP_*` variable is set.
    pub fn from_env_flags(
        install_dir: String,
        install_rust_set: bool,
        skip_rust_set: bool,
        skip_path_set: bool,
        skip_lists_set: bool,
        skip_windivert_set: bool,
    ) -> (o: SetupOptions)
        ensures
            o.install_dir == install_dir,
            o.install_rust == (install_rust_set && !skip_rust_set),
            o.update_path == !skip_path_set,
            o.download_lists == !skip_lists_set,
            o.download_windivert == !skip_windivert_set,
    {
        SetupOptions {
            install_dir,
            install_rust: install_rust_set && !skip_rust_set,
            update_path: !skip_path_set,
            download_lists: !skip_lists_set,
            download_windivert: !skip_windivert_set,
        }
    }
}

/// The first place `pat` occurs in `s`.
pub open spec fn is_first_occurrence(s: Seq<char>, pat: Seq<char>, i: int) -> bool {
    occurs_at(s, pat, i) && forall|j: int| 0 <= j < i ==> !occurs_at(s, pat, j)
}

/// `s` with its first occurrence of `pat` replaced by `rep`
/// (`str::replacen(pat, rep, 1)`).
pub open spec fn replace_first(s: Seq<char>, pat: Seq<char>, rep: Seq<char>) -> Seq<char> {
    if contains_text(s, pat) {
        let i = choose|i: int| is_first_occurrence(s, pat, i);
        s.subrange(0, i) + rep + s.subrange(i + pat.len(), s.len() as int)
    } else {
        s
    }
}

/// A script with the install folder written in place of the placeholder,
/// its single quotes doubled for a PowerShell single-quoted string.
pub fn embed_install_dir_in_ps(template: &str, install_dir: &str) -> (r: String)
    ensures
        r@ == replace_first(template@, INSTALL_PLACEHOLDER@, doubled_quotes(install_dir@)),
{
    let t = to_chars(template);
    let pat = to_chars(INSTALL_PLACEHOLDER);
    let d = to_chars(install_dir);
    let n = t.len();
    let m = pat.len();
    let mut found: Option<usize> = None;
    let mut i: usize = 0;
    if m <= n {
        while i <= n - m && found.is_none()
            invariant
                n == t@.len(),
                m == pat@.len(),
                m <= n,
                i <= n - m + 1,
                m == 0 ==> (i == 0 || found is Some),
                found matches Some(at) ==> is_first_occurrence(t@, pat@, at as int) && at + m <= n,
                found is None ==> forall|k: int| 0 <= k < i ==> !occurs_at(t@, pat@, k),
            decreases n - m + 1 - i,
        {
            let mut j: usize = 0;
            let mut same = true;
            while j < m
                invariant
                    n == t@.len(),
                    m == pat@.len(),
                    i + m <= n,
                    j <= m,
                    same == (forall|k: int| 0 <= k < j ==> t@[i + k] == pat@[k]),
                decreases m - j,
            {
                if t[i + j] != pat[j] {
                    same = false;
                }
                j = j + 1;
            }
            if same {
                assert(t@.subrange(i as int, i + m) =~= pat@);
                found = Some(i);
            } else {
                proof {
                    if occurs_at(t@, pat@, i as int) {
                        let w = t@.subrange(i as int, i + m);
                        assert forall|k: int| 0 <= k < m implies t@[i + k] == pat@[k] by {
                            assert(w[k] == t@[i + k]);
                        }
                    }
                }
            }
            i = i + 1;
        }
    }
    match found {
        None => {
            assert forall|k: int| !occurs_at(t@, pat@, k) by {
                if m <= n && 0 <= k && k + m <= n {
                    assert(k < i);
                }
            }
            assert(!contains_text(template@, INSTALL_PLACEHOLDER@));
            let mut r = String::new();
            let mut k: usize = 0;
            while k < n
                invariant
                    k <= n,
                    n == t@.len(),
                    r@ == t@.subrange(0, k as int),
                decreases n - k,
            {
                push_char(&mut r, t[k]);
                k = k + 1;
            }
            assert(t@.subrange(0, n as int) =~= t@);
            r
        },
        Some(at) => {
            assert(is_first_occurrence(t@, pat@, at as int));
            assert(at + m <= n);
            proof {
                let c = choose|c: int| is_first_occurrence(t@, pat@, c);
                assert(is_first_occurrence(t@, pat@, c));
                if c < at {
                } else if c > at {
                }
                assert(c == at);
            }
            let mut r = String::new();
            let mut k: usize = 0;
            while k < at
                invariant
                    k <= at,
                    at + m <= n,
                    n == t@.len(),
                    r@ == t@.subrange(0, k as int),
                decreases at - k,
            {
                push_char(&mut r, t[k]);
                k = k + 1;
            }
            let ghost head = r@;
            let mut q: usize = 0;
            while q < d.len()
                invariant
                    q <= d@.len(),
                    r@ == head + doubled_quotes(d@.subrange(0, q as int)),
                decreases d@.len() - q,
            {
                if d[q] == '\'' {
                    push_char(&mut r, '\'');
                    push_char(&mut r, '\'');
                } else {
                    push_char(&mut r, d[q]);
                }
                proof {
                    assert(d@.subrange(0, q + 1).drop_last() =~= d@.subrange(0, q as int));
                }
                q = q + 1;
            }
            assert(d@.subrange(0, d@.len() as int) =~= d@);
            let ghost mid = r@;
            let mut k: usize = at + m;
            while k < n
                invariant
                    at + m <= k <= n,
                    n == t@.len(),
                    r@ == mid + t@.subrange(at + m, k as int),
                decreases n - k,
            {
                push_char(&mut r, t[k]);
                k = k + 1;
            }
            r
        },
    }
}

/// The script that adds the install folder to the user PATH.
pub fn append_user_path_script(install_dir: &str) -> (r: String)
    ensures
        r@ == replace_first(PS_APPEND_USER_PATH@, INSTALL_PLACEHOLDER@, doubled_quotes(install_dir@)),
{
    embed_install_dir_in_ps(PS_APPEND_USER_PATH, install_dir)
}

/// The script that removes the install folder from the user PATH.
pub fn remove_user_path_script(install_dir: &str) -> (r: String)
    ensures
        r@ == replace_first(PS_REMOVE_USER_PATH@, INSTALL_PLACEHOLDER@, doubled_quotes(install_dir@)),
{
    embed_install_dir_in_ps(PS_REMOVE_USER_PATH, install_dir)
}

/// The `rustup-init.exe` download for a CPU architecture (x86-64 unless it
/// is `aarch64`).
pub fn rustup_init_download_url_for_arch(arch: &str) -> (r: String)
    ensures
        r@ == (if arch@ == "aarch64"@ {
            "https://static.rust-lang.org/rustup/dist/aarch64-pc-windows-msvc/rustup-init.exe"@
        } else {
            "https://static.rust-lang.org/rustup/dist/x86_64-pc-windows-msvc/rustup-init.exe"@
        }),
{
    let a = String::from_str(arch);
    let arm = String::from_str("aarch64");
    if a == arm {
        String::from_str(
            "https://static.rust-lang.org/rustup/dist/aarch64-pc-windows-msvc/rustup-init.exe",
        )
    } else {
        String::from_str(
            "https://static.rust-lang.org/rustup/dist/x86_64-pc-windows-msvc/rustup-init.exe",
        )
    }
}

} // verus!
