//! Running processes as plain values, and finding an executable path by
//! image name.

use vstd::prelude::*;
use crate::interfaces::same_ignoring_case;
use crate::text::{lower, lower_chars, lower_string, to_chars, trim, trimmed};

verus! {

/// One running process.
#[derive(Clone, Debug)]
pub struct ProcessItem {
    pub pid: u32,
    pub image_name: String,
    pub exe_path: Option<String>,
}

/// The path of the first process, among those with a known path, whose
/// image name is `needle` ignoring ASCII case.
pub open spec fn first_path_for(ps: Seq<ProcessItem>, needle: Seq<char>) -> Option<String>
    decreases ps.len(),
{
    if ps.len() == 0 {
        None
    } else if same_ignoring_case(ps[0].image_name@, needle) && ps[0].exe_path is Some {
        ps[0].exe_path
    } else {
        first_path_for(ps.drop_first(), needle)
    }
}

/// The full path of a running process with this image name (trimmed,
/// compared ignoring ASCII case); none for a blank name.
pub fn resolve_image_name_to_path(image_name: &str, processes: &[ProcessItem]) -> (r: Option<String>)
    ensures
        trim(image_name@).len() == 0 ==> r is None,
        trim(image_name@).len() > 0 ==> r == first_path_for(processes@, trim(image_name@)),
{
    let needle = trimmed(image_name);
    if needle.as_str().unicode_len() == 0 {
        return None;
    }
    let key = lower_string(needle.as_str());
    let mut i: usize = 0;
    assert(processes@.subrange(0, processes@.len() as int) =~= processes@);
    while i < processes.len()
        invariant
            i <= processes@.len(),
            needle@ == trim(image_name@),
            needle@.len() > 0,
            key@ == crate::text::lower(needle@),
            first_path_for(processes@, needle@) == first_path_for(
                processes@.subrange(i as int, processes@.len() as int),
                needle@,
            ),
        decreases processes@.len() - i,
    {
        proof {
            assert(processes@.subrange(i as int, processes@.len() as int).drop_first()
                =~= processes@.subrange(i + 1, processes@.len() as int));
        }
        let p = &processes[i];
        let name = lower_string(p.image_name.as_str());
        if name == key {
            match &p.exe_path {
                Some(path) => {
                    return Some(path.clone());
                },
                None => {},
            }
        }
        i = i + 1;
    }
    None
}

/// Texts in lexicographic order of their characters (`str`'s order).
pub open spec fn chars_le(a: Seq<char>, b: Seq<char>) -> bool
    decreases a.len(),
{
    if a.len() == 0 {
        true
    } else if b.len() == 0 {
        false
    } else if a[0] != b[0] {
        a[0] < b[0]
    } else {
        chars_le(a.drop_first(), b.drop_first())
    }
}

/// Any two texts are ordered one way or the other, and both ways only
/// when equal.
pub proof fn lemma_chars_le_total(a: Seq<char>, b: Seq<char>)
    ensures
        chars_le(a, b) || chars_le(b, a),
        chars_le(a, b) && chars_le(b, a) ==> a == b,
    decreases a.len(),
{
    if a.len() > 0 && b.len() > 0 && a[0] == b[0] {
        lemma_chars_le_total(a.drop_first(), b.drop_first());
        if chars_le(a, b) && chars_le(b, a) {
            assert(a =~= seq![a[0]] + a.drop_first());
            assert(b =~= seq![b[0]] + b.drop_first());
        }
    } else if a.len() == 0 && b.len() == 0 {
        assert(a =~= b);
    }
}

/// The text order is transitive.
pub proof fn lemma_chars_le_trans(a: Seq<char>, b: Seq<char>, c: Seq<char>)
    requires
        chars_le(a, b),
        chars_le(b, c),
    ensures
        chars_le(a, c),
    decreases a.len(),
{
    if a.len() > 0 && b.len() > 0 && c.len() > 0 && a[0] == b[0] && b[0] == c[0] {
        lemma_chars_le_trans(a.drop_first(), b.drop_first(), c.drop_first());
    }
}

/// The sort key of a process: its image name lower-cased.
pub open spec fn proc_name(p: ProcessItem) -> Seq<char> {
    lower(p.image_name@)
}

/// Processes ordered by lower-cased image name, then by process id.
pub open spec fn proc_le(a: ProcessItem, b: ProcessItem) -> bool {
    if proc_name(a) == proc_name(b) {
        a.pid <= b.pid
    } else {
        chars_le(proc_name(a), proc_name(b))
    }
}

/// The processes are in `proc_le` order.
pub open spec fn procs_sorted(s: Seq<ProcessItem>) -> bool {
    forall|i: int, j: int| 0 <= i < j < s.len() ==> proc_le(#[trigger] s[i], #[trigger] s[j])
}

/// Where a stable insertion puts `x`: before the first process ordered
/// after it.
pub open spec fn proc_insert_pos(s: Seq<ProcessItem>, x: ProcessItem) -> int
    decreases s.len(),
{
    if s.len() == 0 {
        0
    } else if !proc_le(s[0], x) {
        0
    } else {
        1 + proc_insert_pos(s.drop_first(), x)
    }
}

/// The processes in `proc_le` order, ties kept in their order (a stable
/// sort).
pub open spec fn sort_procs(d: Seq<ProcessItem>) -> Seq<ProcessItem>
    decreases d.len(),
{
    if d.len() == 0 {
        Seq::empty()
    } else {
        let s = sort_procs(d.drop_last());
        s.insert(proc_insert_pos(s, d.last()), d.last())
    }
}

proof fn lemma_proc_le_total_trans()
    ensures
        forall|a: ProcessItem, b: ProcessItem| proc_le(a, b) || proc_le(b, a),
        forall|a: ProcessItem, b: ProcessItem, c: ProcessItem|
            #![trigger proc_le(a, b), proc_le(b, c)]
            proc_le(a, b) && proc_le(b, c) ==> proc_le(a, c),
{
    assert forall|a: ProcessItem, b: ProcessItem| proc_le(a, b) || proc_le(b, a) by {
        lemma_chars_le_total(proc_name(a), proc_name(b));
    }
    assert forall|a: ProcessItem, b: ProcessItem, c: ProcessItem|
        proc_le(a, b) && proc_le(b, c) implies proc_le(a, c) by {
        let (na, nb, nc) = (proc_name(a), proc_name(b), proc_name(c));
        if na != nb && nb != nc {
            lemma_chars_le_trans(na, nb, nc);
            if na == nc {
                lemma_chars_le_total(na, nb);
            }
        }
    }
}

proof fn lemma_proc_insert_pos_bounds(s: Seq<ProcessItem>, x: ProcessItem)
    ensures
        0 <= proc_insert_pos(s, x) <= s.len(),
        forall|i: int| 0 <= i < proc_insert_pos(s, x) ==> proc_le(#[trigger] s[i], x),
        proc_insert_pos(s, x) < s.len() ==> !proc_le(s[proc_insert_pos(s, x)], x),
    decreases s.len(),
{
    if s.len() > 0 && proc_le(s[0], x) {
        lemma_proc_insert_pos_bounds(s.drop_first(), x);
        assert forall|i: int| 0 <= i < proc_insert_pos(s, x) implies proc_le(#[trigger] s[i], x) by {
            if i > 0 {
                assert(s[i] == s.drop_first()[i - 1]);
            }
        }
    }
}

/// Sorting keeps every process and puts them in order.
pub proof fn lemma_sort_procs(d: Seq<ProcessItem>)
    ensures
        procs_sorted(sort_procs(d)),
        sort_procs(d).to_multiset() == d.to_multiset(),
        sort_procs(d).len() == d.len(),
    decreases d.len(),
{
    broadcast use vstd::seq_lib::group_to_multiset_ensures;

    if d.len() > 0 {
        let s = sort_procs(d.drop_last());
        let x = d.last();
        lemma_sort_procs(d.drop_last());
        lemma_proc_insert_pos_bounds(s, x);
        lemma_proc_le_total_trans();
        let p = proc_insert_pos(s, x);
        let r = s.insert(p, x);
        s.insert_ensures(p, x);
        assert forall|i: int, j: int| 0 <= i < j < r.len() implies proc_le(
            #[trigger] r[i],
            #[trigger] r[j],
        ) by {
            if j < p {
                assert(r[i] == s[i] && r[j] == s[j]);
            } else if j == p {
                assert(r[i] == s[i]);
            } else if i < p {
                assert(r[i] == s[i] && r[j] == s[j - 1]);
                assert(proc_le(s[i], s[j - 1]));
            } else if i == p {
                assert(r[j] == s[j - 1]);
                assert(!proc_le(s[p], x));
                assert(proc_le(x, s[p]));
                if j - 1 > p {
                    assert(proc_le(s[p], s[j - 1]));
                }
            } else {
                assert(r[i] == s[i - 1] && r[j] == s[j - 1]);
            }
        }
        assert(r =~= s.subrange(0, p).push(x) + s.subrange(p, s.len() as int));
        vstd::seq_lib::lemma_multiset_commutative(s.subrange(0, p).push(x), s.subrange(p, s.len() as int));
        vstd::seq_lib::lemma_multiset_commutative(s.subrange(0, p), s.subrange(p, s.len() as int));
        assert(s =~= s.subrange(0, p) + s.subrange(p, s.len() as int));
        assert(d =~= d.drop_last().push(x));
    }
}

/// Whether `a` comes no later than `b` in text order.
pub fn chars_le_exec(a: &[char], b: &[char]) -> (r: bool)
    ensures
        r == chars_le(a@, b@),
{
    let mut i: usize = 0;
    assert(a@.subrange(0, a@.len() as int) =~= a@);
    assert(b@.subrange(0, b@.len() as int) =~= b@);
    while i < a.len() && i < b.len()
        invariant
            i <= a@.len(),
            i <= b@.len(),
            a@.subrange(0, i as int) == b@.subrange(0, i as int),
            chars_le(a@, b@) == chars_le(
                a@.subrange(i as int, a@.len() as int),
                b@.subrange(i as int, b@.len() as int),
            ),
        decreases a@.len() - i,
    {
        let ghost (sa, sb) = (a@.subrange(i as int, a@.len() as int), b@.subrange(i as int, b@.len() as int));
        if a[i] != b[i] {
            assert(sa[0] == a@[i as int] && sb[0] == b@[i as int]);
            return a[i] < b[i];
        }
        proof {
            assert(sa.drop_first() =~= a@.subrange(i + 1, a@.len() as int));
            assert(sb.drop_first() =~= b@.subrange(i + 1, b@.len() as int));
            assert(a@.subrange(0, i + 1) =~= a@.subrange(0, i as int).push(a@[i as int]));
            assert(b@.subrange(0, i + 1) =~= b@.subrange(0, i as int).push(b@[i as int]));
        }
        i = i + 1;
    }
    i == a.len()
}

fn proc_le_exec(a: &ProcessItem, b: &ProcessItem) -> (r: bool)
    ensures
        r == proc_le(*a, *b),
{
    let an = to_chars(a.image_name.as_str());
    let bn = to_chars(b.image_name.as_str());
    let la = lower_chars(an.as_slice());
    let lb = lower_chars(bn.as_slice());
    if crate::text::chars_eq(la.as_slice(), lb.as_slice()) {
        a.pid <= b.pid
    } else {
        chars_le_exec(la.as_slice(), lb.as_slice())
    }
}

fn insert_proc(v: &mut Vec<ProcessItem>, x: ProcessItem)
    ensures
        final(v)@ == old(v)@.insert(proc_insert_pos(old(v)@, x), x),
{
    let ghost s = v@;
    let mut i: usize = 0;
    assert(s.subrange(0, s.len() as int) =~= s);
    while i < v.len() && proc_le_exec(&v[i], &x)
        invariant
            s == v@,
            i <= s.len(),
            proc_insert_pos(s, x) == i + proc_insert_pos(s.subrange(i as int, s.len() as int), x),
        decreases s.len() - i,
    {
        proof {
            assert(s.subrange(i as int, s.len() as int).drop_first() =~= s.subrange(
                i + 1,
                s.len() as int,
            ));
        }
        i = i + 1;
    }
    v.insert(i, x);
}

/// The processes ordered by lower-cased image name, then by process id.
pub fn sort_processes(items: Vec<ProcessItem>) -> (r: Vec<ProcessItem>)
    ensures
        r@ == sort_procs(items@),
{
    let mut r: Vec<ProcessItem> = Vec::new();
    let mut rest = items;
    let ghost all = rest@;
    let n = rest.len();
    let mut j: usize = 0;
    while rest.len() > 0
        invariant
            j <= n,
            all.len() == n,
            rest@ == all.subrange(j as int, n as int),
            r@ == sort_procs(all.subrange(0, j as int)),
        decreases rest@.len(),
    {
        let x = rest.remove(0);
        proof {
            assert(x == all[j as int]);
            assert(all.subrange(0, j + 1).drop_last() =~= all.subrange(0, j as int));
            assert(all.subrange(0, j + 1).last() == x);
        }
        insert_proc(&mut r, x);
        j = j + 1;
        proof {
            assert(rest@ =~= all.subrange(j as int, n as int));
        }
    }
    assert(all.subrange(0, n as int) =~= all);
    r
}

} // verus!
