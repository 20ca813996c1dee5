//! File paths held as text, read the way Windows reads them: both `/` and `\`
//! separate components.

use vstd::prelude::*;
use crate::text::{lower, lower_chars, string_of_range, to_chars};

verus! {

pub open spec fn is_sep(c: char) -> bool {
    c == '/' || c == '\\'
}

/// `p` without trailing separators.
pub open spec fn strip_trailing_seps(p: Seq<char>) -> Seq<char>
    decreases p.len(),
{
    if p.len() > 0 && is_sep(p.last()) {
        strip_trailing_seps(p.drop_last())
    } else {
        p
    }
}

/// Length of the directory part of `p`: up to and including its last
/// separator, or 0 when it has none.
pub open spec fn dir_len(p: Seq<char>) -> int
    decreases p.len(),
{
    if p.len() == 0 {
        0
    } else if is_sep(p.last()) {
        p.len() as int
    } else {
        dir_len(p.drop_last())
    }
}

/// `Path::with_file_name`: the last component of `p` replaced by `name`; a
/// path with no component (empty, or separators only) gets `name` appended.
pub open spec fn replaced_file_name(p: Seq<char>, name: Seq<char>) -> Seq<char> {
    let t = strip_trailing_seps(p);
    if t.len() == 0 {
        p + name
    } else {
        t.subrange(0, dir_len(t)) + name
    }
}

/// The last component of `p`.
pub open spec fn file_name(p: Seq<char>) -> Seq<char> {
    let t = strip_trailing_seps(p);
    t.subrange(dir_len(t), t.len() as int)
}

/// Index just past the last `.` of `s`, or 0 when it has none.
pub open spec fn dot_end(s: Seq<char>) -> int
    decreases s.len(),
{
    if s.len() == 0 {
        0
    } else if s.last() == '.' {
        s.len() as int
    } else {
        dot_end(s.drop_last())
    }
}

/// `Path::extension`: the text after the last `.` of the file name, unless
/// that `.` starts the name or the name is `..`.
pub open spec fn extension(p: Seq<char>) -> Option<Seq<char>> {
    let n = file_name(p);
    if n == seq!['.', '.'] || dot_end(n) <= 1 {
        None
    } else {
        Some(n.subrange(dot_end(n), n.len() as int))
    }
}

/// The extension is `json` in any letter case.
pub open spec fn has_json_extension(p: Seq<char>) -> bool {
    match extension(p) {
        Some(e) => lower(e) == seq!['j', 's', 'o', 'n'],
        None => false,
    }
}

fn trailing_seps_end(v: &[char]) -> (hi: usize)
    ensures
        hi <= v@.len(),
        strip_trailing_seps(v@) == v@.subrange(0, hi as int),
{
    let mut hi: usize = v.len();
    assert(v@.subrange(0, hi as int) =~= v@);
    while hi > 0 && (v[hi - 1] == '/' || v[hi - 1] == '\\')
        invariant
            hi <= v@.len(),
            strip_trailing_seps(v@) == strip_trailing_seps(v@.subrange(0, hi as int)),
        decreases hi,
    {
        assert(v@.subrange(0, hi as int).drop_last() =~= v@.subrange(0, hi - 1));
        hi = hi - 1;
    }
    hi
}

fn dir_end(v: &[char], hi: usize) -> (k: usize)
    requires
        hi <= v@.len(),
    ensures
        k <= hi,
        k == dir_len(v@.subrange(0, hi as int)),
{
    let mut k: usize = hi;
    while k > 0 && !(v[k - 1] == '/' || v[k - 1] == '\\')
        invariant
            k <= hi <= v@.len(),
            dir_len(v@.subrange(0, hi as int)) == dir_len(v@.subrange(0, k as int)),
        decreases k,
    {
        assert(v@.subrange(0, k as int).drop_last() =~= v@.subrange(0, k - 1));
        k = k - 1;
    }
    k
}

fn last_dot_end(v: &[char], lo: usize, hi: usize) -> (k: usize)
    requires
        lo <= hi <= v@.len(),
    ensures
        k <= hi - lo,
        k == dot_end(v@.subrange(lo as int, hi as int)),
{
    let mut k: usize = hi;
    while k > lo && v[k - 1] != '.'
        invariant
            lo <= k <= hi <= v@.len(),
            dot_end(v@.subrange(lo as int, hi as int)) == dot_end(v@.subrange(lo as int, k as int)),
        decreases k,
    {
        assert(v@.subrange(lo as int, k as int).drop_last() =~= v@.subrange(lo as int, k - 1));
        k = k - 1;
    }
    k - lo
}

/// `path` with its last component replaced by `name` (`Path::with_file_name`).
pub fn with_file_name(path: &str, name: &str) -> (r: String)
    ensures
        r@ == replaced_file_name(path@, name@),
{
    let v = to_chars(path);
    let hi = trailing_seps_end(v.as_slice());
    let mut r = if hi == 0 {
        string_of_range(v.as_slice(), 0, v.len())
    } else {
        let k = dir_end(v.as_slice(), hi);
        proof {
            assert(v@.subrange(0, hi as int).subrange(0, k as int) =~= v@.subrange(0, k as int));
        }
        string_of_range(v.as_slice(), 0, k)
    };
    proof {
        assert(v@.subrange(0, v@.len() as int) =~= v@);
    }
    r.append(name);
    r
}

/// Whether the path's extension is `json`, in any letter case.
pub fn is_json_path(path: &str) -> (b: bool)
    ensures
        b == has_json_extension(path@),
{
    let v = to_chars(path);
    let hi = trailing_seps_end(v.as_slice());
    let k = dir_end(v.as_slice(), hi);
    let ghost t = v@.subrange(0, hi as int);
    let ghost n = t.subrange(k as int, hi as int);
    assert(n =~= v@.subrange(k as int, hi as int));
    assert(file_name(path@) == n);
    if hi - k == 2 && v[k] == '.' && v[k + 1] == '.' {
        assert(n =~= seq!['.', '.']);
        return false;
    }
    assert(n != seq!['.', '.']);
    let d = last_dot_end(v.as_slice(), k, hi);
    if d <= 1 {
        return false;
    }
    let lower_ext = lower_chars(&v.as_slice()[k + d..hi]);
    proof {
        assert(v@.subrange(k + d, hi as int) =~= n.subrange(d as int, n.len() as int));
    }
    let b = lower_ext.len() == 4 && lower_ext[0] == 'j' && lower_ext[1] == 's' && lower_ext[2]
        == 'o' && lower_ext[3] == 'n';
    proof {
        if b {
            assert(lower_ext@ =~= seq!['j', 's', 'o', 'n']);
        }
    }
    b
}

} // verus!
