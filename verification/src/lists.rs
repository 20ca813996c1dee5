//! The host-only forms of downloaded CIDR lists.

use vstd::prelude::*;
use crate::text::{string_of_range, to_chars, trim, trim_end_index, trim_start_index};

verus! {

/// Index of the first `/` of `s`, or its length when it has none.
pub open spec fn slash_index(s: Seq<char>) -> int
    decreases s.len(),
{
    if s.len() == 0 || s[0] == '/' {
        0
    } else {
        1 + slash_index(s.drop_first())
    }
}

/// The text before the first `/` (all of it when there is none).
pub open spec fn before_slash(s: Seq<char>) -> Seq<char> {
    s.subrange(0, slash_index(s))
}

/// The host part of a CIDR text: what comes before the first `/`, trimmed.
pub fn strip_subnet(cidr: &str) -> (r: String)
    ensures
        r@ == trim(before_slash(cidr@)),
{
    let v = to_chars(cidr);
    let mut end: usize = 0;
    assert(v@.subrange(0, v@.len() as int) =~= v@);
    while end < v.len() && v[end] != '/'
        invariant
            end <= v@.len(),
            slash_index(v@) == end + slash_index(v@.subrange(end as int, v@.len() as int)),
        decreases v@.len() - end,
    {
        assert(v@.subrange(end as int, v@.len() as int).drop_first() =~= v@.subrange(
            end + 1,
            v@.len() as int,
        ));
        end = end + 1;
    }
    let head = &v.as_slice()[0..end];
    let hi = trim_end_index(head);
    let lo = trim_start_index(head, hi);
    proof {
        assert(head@ =~= v@.subrange(0, end as int));
    }
    string_of_range(head, lo, hi)
}

/// The host forms of a list of CIDR texts, in order.
pub fn host_list(cidrs: &[String]) -> (r: Vec<String>)
    ensures
        r@.len() == cidrs@.len(),
        forall|i: int| 0 <= i < r@.len() ==> (#[trigger] r@[i])@ == trim(before_slash(cidrs@[i]@)),
{
    let mut r: Vec<String> = Vec::new();
    let mut i: usize = 0;
    while i < cidrs.len()
        invariant
            i <= cidrs@.len(),
            r@.len() == i,
            forall|k: int| 0 <= k < i ==> (#[trigger] r@[k])@ == trim(before_slash(cidrs@[k]@)),
        decreases cidrs@.len() - i,
    {
        r.push(strip_subnet(cidrs[i].as_str()));
        i = i + 1;
    }
    r
}

} // verus!
