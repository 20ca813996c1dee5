//! The health of an app bind against the live adapters and processes.

use vstd::prelude::*;
use crate::app_binds::{bind_label, AppBind, AppBindStatus};
use crate::interfaces::{find_interface, first_alias, same_ignoring_case, NetworkInterface};
use crate::processes::{
    chars_le, chars_le_exec, first_path_for, lemma_chars_le_total, lemma_chars_le_trans,
    resolve_image_name_to_path, ProcessItem,
};
use crate::text::{dec_u32, nonblank, nonblank_of, push_u32_decimal, trim, trimmed};

verus! {

/// The executable a bind applies to: its path when that file exists
/// (`path_is_file`), else the path of a running process with its image
/// name.
pub open spec fn bind_exe_path(b: AppBind, path_is_file: bool, ps: Seq<ProcessItem>) -> Option<
    Seq<char>,
> {
    if nonblank_of(b.exe_path) is Some && path_is_file {
        nonblank_of(b.exe_path)
    } else {
        match nonblank_of(b.image_name) {
            Some(i) => match first_path_for(ps, i) {
                Some(p) => Some(p@),
                None => None,
            },
            None => None,
        }
    }
}

/// Resolves the executable path of a bind (`path_is_file` tells whether its
/// trimmed path names an existing file).
pub fn resolve_bind_exe_path(bind: &AppBind, path_is_file: bool, processes: &[ProcessItem]) -> (r:
    Option<String>)
    ensures
        match r {
            Some(p) => bind_exe_path(*bind, path_is_file, processes@) == Some(p@),
            None => bind_exe_path(*bind, path_is_file, processes@) is None,
        },
{
    if let Some(path) = nonblank(&bind.exe_path) {
        if path_is_file {
            return Some(path);
        }
    }
    let image = nonblank(&bind.image_name)?;
    proof {
        crate::text::lemma_trim_idempotent(bind.image_name->0@);
    }
    resolve_image_name_to_path(image.as_str(), processes)
}

/// An interface is up with a usable IPv4 address: status `Up` (any case)
/// and an address that is neither empty nor `0.0.0.0`.
pub open spec fn interface_usable(i: NetworkInterface) -> bool {
    same_ignoring_case(i.status@, "Up"@) && i.ipv4_address is Some && i.ipv4_address->0@.len() > 0
        && i.ipv4_address->0@ != "0.0.0.0"@
}

/// The status of a bind: unresolved without an executable or without a
/// NIC of that name; healthy when its NIC is usable; else NIC down.
pub fn resolve_bind_status(
    bind: &AppBind,
    interfaces: &[NetworkInterface],
    path_is_file: bool,
    processes: &[ProcessItem],
) -> (s: AppBindStatus)
    ensures
        s == (if bind_exe_path(*bind, path_is_file, processes@) is None {
            AppBindStatus::Unresolved
        } else {
            match first_alias(interfaces@, trim(bind.nic@)) {
                Some(i) => if interface_usable(i) {
                    AppBindStatus::Healthy
                } else {
                    AppBindStatus::NicDown
                },
                None => AppBindStatus::Unresolved,
            }
        }),
{
    if resolve_bind_exe_path(bind, path_is_file, processes).is_none() {
        return AppBindStatus::Unresolved;
    }
    let nic = trimmed(bind.nic.as_str());
    match find_interface(interfaces, nic.as_str()) {
        Some(iface) => if is_usable(iface) {
            AppBindStatus::Healthy
        } else {
            AppBindStatus::NicDown
        },
        None => AppBindStatus::Unresolved,
    }
}

/// Whether an interface is up with a usable IPv4 address.
fn is_usable(iface: &NetworkInterface) -> (b: bool)
    ensures
        b == interface_usable(*iface),
{
    let up = String::from_str("Up");
    let status_up = crate::text::lower_string(iface.status.as_str()) == crate::text::lower_string(
        up.as_str(),
    );
    let usable = match &iface.ipv4_address {
        Some(ip) => {
            let zero = String::from_str("0.0.0.0");
            ip.as_str().unicode_len() > 0 && !(*ip == zero)
        },
        None => false,
    };
    status_up && usable
}

/// The two WFP ALE layers at which bind filters stand.
#[derive(Clone, Copy, Debug, PartialEq, Eq, Structural)]
pub enum FilterLayer {
    AuthConnectV4,
    ResourceAssignmentV4,
}

/// One WFP filter on a bind's application: its layer, the interface it is
/// limited to (if any), whether it permits or blocks, its weight and its
/// display name.
pub struct FilterSpec {
    pub layer: FilterLayer,
    pub if_index: Option<u32>,
    pub permit: bool,
    pub weight: u8,
    pub name: String,
}

/// A filter as plain values: layer, interface, permit, weight, name.
pub type FilterView = (FilterLayer, Option<u32>, bool, u8, Seq<char>);

pub open spec fn filter_view(f: FilterSpec) -> FilterView {
    (f.layer, f.if_index, f.permit, f.weight, f.name@)
}

/// The filters of one layer: with a usable NIC, a permit on that NIC at
/// weight 15 and a block elsewhere at weight 10; else one block at weight
/// 15 (fail-closed).
pub open spec fn layer_filters(
    layer: FilterLayer,
    label: Seq<char>,
    nic: Option<NetworkInterface>,
) -> Seq<FilterView> {
    match nic {
        Some(i) if interface_usable(i) => seq![
            (layer, Some(i.if_index), true, 15u8, "Roust allow "@ + label + " on if "@ + dec_u32(i.if_index)),
            (layer, None, false, 10u8, "Roust block "@ + label + " off-NIC"@),
        ],
        _ => seq![(layer, None, false, 15u8, "Roust block "@ + label + " (NIC down)"@)],
    }
}

/// The filters of a bind: those of the connect layer, then those of the
/// resource-assignment layer, for the NIC that the bind names.
pub open spec fn bind_filters(b: AppBind, ifs: Seq<NetworkInterface>) -> Seq<FilterView> {
    let nic = first_alias(ifs, trim(b.nic@));
    layer_filters(FilterLayer::AuthConnectV4, bind_label(b), nic) + layer_filters(
        FilterLayer::ResourceAssignmentV4,
        bind_label(b),
        nic,
    )
}

fn push_layer_filters(
    out: &mut Vec<FilterSpec>,
    layer: FilterLayer,
    label: &String,
    nic: Option<&NetworkInterface>,
)
    ensures
        final(out)@.map_values(|f: FilterSpec| filter_view(f)) == old(out)@.map_values(
            |f: FilterSpec| filter_view(f),
        ) + layer_filters(
            layer,
            label@,
            match nic {
                Some(i) => Some(*i),
                None => None,
            },
        ),
{
    let ghost before = out@.map_values(|f: FilterSpec| filter_view(f));
    let usable = match nic {
        Some(i) => is_usable(i),
        None => false,
    };
    if usable {
        let idx = nic.unwrap().if_index;
        let mut allow = String::from_str("Roust allow ");
        allow.append(label.as_str());
        allow.append(" on if ");
        push_u32_decimal(&mut allow, idx);
        let mut block = String::from_str("Roust block ");
        block.append(label.as_str());
        block.append(" off-NIC");
        out.push(FilterSpec { layer, if_index: Some(idx), permit: true, weight: 15, name: allow });
        out.push(FilterSpec { layer, if_index: None, permit: false, weight: 10, name: block });
    } else {
        let mut block = String::from_str("Roust block ");
        block.append(label.as_str());
        block.append(" (NIC down)");
        out.push(FilterSpec { layer, if_index: None, permit: false, weight: 15, name: block });
    }
    proof {
        reveal_strlit("Roust allow ");
        reveal_strlit(" on if ");
        reveal_strlit("Roust block ");
        reveal_strlit(" off-NIC");
        reveal_strlit(" (NIC down)");
    }
    assert(out@.map_values(|f: FilterSpec| filter_view(f)) =~= before + layer_filters(
        layer,
        label@,
        match nic {
            Some(i) => Some(*i),
            None => None,
        },
    ));
}

/// What to install for one bind: `None` when its executable cannot be
/// resolved (the bind is skipped); else the executable's path and the
/// filters of both layers, fail-closed when its NIC is missing or down.
pub fn bind_filter_plan(
    bind: &AppBind,
    path_is_file: bool,
    processes: &[ProcessItem],
    interfaces: &[NetworkInterface],
) -> (r: Option<(String, Vec<FilterSpec>)>)
    ensures
        match r {
            None => bind_exe_path(*bind, path_is_file, processes@) is None,
            Some((path, filters)) => {
                &&& bind_exe_path(*bind, path_is_file, processes@) == Some(path@)
                &&& filters@.map_values(|f: FilterSpec| filter_view(f)) == bind_filters(
                    *bind,
                    interfaces@,
                )
            },
        },
{
    let path = resolve_bind_exe_path(bind, path_is_file, processes)?;
    let label = bind.label();
    let nic = trimmed(bind.nic.as_str());
    let iface = find_interface(interfaces, nic.as_str());
    let mut filters: Vec<FilterSpec> = Vec::new();
    assert(filters@.map_values(|f: FilterSpec| filter_view(f)) =~= Seq::<FilterView>::empty());
    push_layer_filters(&mut filters, FilterLayer::AuthConnectV4, &label, iface);
    push_layer_filters(&mut filters, FilterLayer::ResourceAssignmentV4, &label, iface);
    Some((path, filters))
}

/// One adapter in the change signature: `index:status:address` (no
/// address when it has none).
pub open spec fn adapter_part(i: NetworkInterface) -> Seq<char> {
    dec_u32(i.if_index) + seq![':'] + i.status@ + seq![':'] + match i.ipv4_address {
        Some(a) => a@,
        None => Seq::<char>::empty(),
    }
}

/// Where a stable insertion puts text `x`: before the first text after it.
pub open spec fn text_insert_pos(s: Seq<Seq<char>>, x: Seq<char>) -> int
    decreases s.len(),
{
    if s.len() == 0 {
        0
    } else if !chars_le(s[0], x) {
        0
    } else {
        1 + text_insert_pos(s.drop_first(), x)
    }
}

/// The texts in text order (`sort` on strings).
pub open spec fn sort_texts(d: Seq<Seq<char>>) -> Seq<Seq<char>>
    decreases d.len(),
{
    if d.len() == 0 {
        Seq::empty()
    } else {
        let s = sort_texts(d.drop_last());
        s.insert(text_insert_pos(s, d.last()), d.last())
    }
}

/// The texts joined with `sep` between them (`join`).
pub open spec fn joined_with(parts: Seq<Seq<char>>, sep: char) -> Seq<char>
    decreases parts.len(),
{
    if parts.len() == 0 {
        Seq::empty()
    } else if parts.len() == 1 {
        parts[0]
    } else {
        joined_with(parts.drop_last(), sep) + seq![sep] + parts.last()
    }
}

/// The signature that tells whether the adapters changed: the adapters'
/// parts, sorted, joined with `|`.
pub open spec fn adapter_signature_of(ifs: Seq<NetworkInterface>) -> Seq<char> {
    joined_with(sort_texts(ifs.map_values(|i: NetworkInterface| adapter_part(i))), '|')
}

/// The texts are in text order.
pub open spec fn texts_sorted(s: Seq<Seq<char>>) -> bool {
    forall|i: int, j: int| 0 <= i < j < s.len() ==> chars_le(#[trigger] s[i], #[trigger] s[j])
}

proof fn lemma_text_insert_pos_bounds(s: Seq<Seq<char>>, x: Seq<char>)
    ensures
        0 <= text_insert_pos(s, x) <= s.len(),
        forall|i: int| 0 <= i < text_insert_pos(s, x) ==> chars_le(#[trigger] s[i], x),
        text_insert_pos(s, x) < s.len() ==> !chars_le(s[text_insert_pos(s, x)], x),
    decreases s.len(),
{
    if s.len() > 0 && chars_le(s[0], x) {
        lemma_text_insert_pos_bounds(s.drop_first(), x);
        assert forall|i: int| 0 <= i < text_insert_pos(s, x) implies chars_le(#[trigger] s[i], x) by {
            if i > 0 {
                assert(s[i] == s.drop_first()[i - 1]);
            }
        }
    }
}

/// Sorting texts keeps every text and puts them in order.
pub proof fn lemma_sort_texts(d: Seq<Seq<char>>)
    ensures
        texts_sorted(sort_texts(d)),
        sort_texts(d).to_multiset() == d.to_multiset(),
        sort_texts(d).len() == d.len(),
    decreases d.len(),
{
    broadcast use vstd::seq_lib::group_to_multiset_ensures;

    if d.len() > 0 {
        let s = sort_texts(d.drop_last());
        let x = d.last();
        lemma_sort_texts(d.drop_last());
        lemma_text_insert_pos_bounds(s, x);
        let p = text_insert_pos(s, x);
        let r = s.insert(p, x);
        s.insert_ensures(p, x);
        assert forall|i: int, j: int| 0 <= i < j < r.len() implies chars_le(
            #[trigger] r[i],
            #[trigger] r[j],
        ) by {
            if j < p {
                assert(r[i] == s[i] && r[j] == s[j]);
            } else if j == p {
                assert(r[i] == s[i]);
            } else if i < p {
                assert(r[i] == s[i] && r[j] == s[j - 1]);
                assert(chars_le(s[i], s[j - 1]));
            } else if i == p {
                assert(r[j] == s[j - 1]);
                lemma_chars_le_total(s[p], x);
                if j - 1 > p {
                    assert(chars_le(s[p], s[j - 1]));
                    lemma_chars_le_trans(x, s[p], s[j - 1]);
                }
            } else {
                assert(r[i] == s[i - 1] && r[j] == s[j - 1]);
            }
        }
        assert(r =~= s.subrange(0, p).push(x) + s.subrange(p, s.len() as int));
        vstd::seq_lib::lemma_multiset_commutative(s.subrange(0, p).push(x), s.subrange(p, s.len() as int));
        vstd::seq_lib::lemma_multiset_commutative(s.subrange(0, p), s.subrange(p, s.len() as int));
        assert(s =~= s.subrange(0, p) + s.subrange(p, s.len() as int));
        assert(d =~= d.drop_last().push(x));
    }
}

fn adapter_part_chars(i: &NetworkInterface) -> (r: Vec<char>)
    ensures
        r@ == adapter_part(*i),
{
    let mut s = String::new();
    push_u32_decimal(&mut s, i.if_index);
    crate::text::push_char(&mut s, ':');
    s.append(i.status.as_str());
    crate::text::push_char(&mut s, ':');
    match &i.ipv4_address {
        Some(a) => s.append(a.as_str()),
        None => {},
    }
    let r = crate::text::to_chars(s.as_str());
    proof {
        assert(r@ =~= adapter_part(*i));
    }
    r
}

fn insert_text(v: &mut Vec<Vec<char>>, x: Vec<char>)
    ensures
        final(v)@.map_values(|t: Vec<char>| t@) == old(v)@.map_values(|t: Vec<char>| t@).insert(
            text_insert_pos(old(v)@.map_values(|t: Vec<char>| t@), x@),
            x@,
        ),
{
    let ghost s = v@.map_values(|t: Vec<char>| t@);
    let mut i: usize = 0;
    assert(s.subrange(0, s.len() as int) =~= s);
    while i < v.len() && chars_le_exec(v[i].as_slice(), x.as_slice())
        invariant
            s == v@.map_values(|t: Vec<char>| t@),
            i <= s.len(),
            text_insert_pos(s, x@) == i + text_insert_pos(s.subrange(i as int, s.len() as int), x@),
        decreases s.len() - i,
    {
        proof {
            assert(s.subrange(i as int, s.len() as int).drop_first() =~= s.subrange(
                i + 1,
                s.len() as int,
            ));
            assert(s[i as int] == v@[i as int]@);
        }
        i = i + 1;
    }
    proof {
        if i < s.len() {
            assert(s[i as int] == v@[i as int]@);
        }
    }
    let ghost xv = x@;
    v.insert(i, x);
    assert(v@.map_values(|t: Vec<char>| t@) =~= s.insert(i as int, xv));
}

/// The signature of the adapters (`index:status:address` of each, sorted,
/// joined with `|`), compared between polls to notice adapter changes.
pub fn adapter_signature(interfaces: &[NetworkInterface]) -> (s: String)
    ensures
        s@ == adapter_signature_of(interfaces@),
{
    let ghost parts = interfaces@.map_values(|i: NetworkInterface| adapter_part(i));
    let mut sorted: Vec<Vec<char>> = Vec::new();
    let mut k: usize = 0;
    while k < interfaces.len()
        invariant
            k <= interfaces@.len(),
            parts == interfaces@.map_values(|i: NetworkInterface| adapter_part(i)),
            sorted@.map_values(|t: Vec<char>| t@) == sort_texts(parts.subrange(0, k as int)),
        decreases interfaces@.len() - k,
    {
        let p = adapter_part_chars(&interfaces[k]);
        proof {
            assert(parts.subrange(0, k + 1).drop_last() =~= parts.subrange(0, k as int));
            assert(parts.subrange(0, k + 1).last() == p@);
        }
        insert_text(&mut sorted, p);
        k = k + 1;
    }
    assert(parts.subrange(0, interfaces@.len() as int) =~= parts);
    let ghost texts = sorted@.map_values(|t: Vec<char>| t@);
    let mut out: Vec<char> = Vec::new();
    let mut j: usize = 0;
    while j < sorted.len()
        invariant
            j <= sorted@.len(),
            texts == sorted@.map_values(|t: Vec<char>| t@),
            out@ == joined_with(texts.subrange(0, j as int), '|'),
        decreases sorted@.len() - j,
    {
        proof {
            assert(texts.subrange(0, j + 1).drop_last() =~= texts.subrange(0, j as int));
            assert(texts.subrange(0, j + 1).last() == sorted@[j as int]@);
        }
        let ghost before = out@;
        if j > 0 {
            out.push('|');
        }
        let t = &sorted[j];
        let mut c: usize = 0;
        while c < t.len()
            invariant
                c <= t@.len(),
                out@ == (if j > 0 { before.push('|') } else { before }) + t@.subrange(0, c as int),
            decreases t@.len() - c,
        {
            out.push(t[c]);
            c = c + 1;
        }
        proof {
            assert(t@.subrange(0, t@.len() as int) =~= t@);
            if j == 0 {
                assert(out@ =~= texts.subrange(0, 1)[0]);
            } else {
                assert(out@ =~= before + seq!['|'] + t@);
            }
        }
        j = j + 1;
    }
    assert(texts.subrange(0, sorted@.len() as int) =~= texts);
    crate::text::string_of(out.as_slice())
}

} // verus!
