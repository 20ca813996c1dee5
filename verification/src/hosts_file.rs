//! What a rewrite does to the hosts file as a whole: the lines outside the
//! owned block survive, the block is replaced by exactly one for the new
//! overrides, clearing leaves no block, and rewriting twice changes nothing
//! more than rewriting once.

use vstd::prelude::*;
use crate::host_overrides::{
    block_lines, collapse_newlines, ends_blank, hosts_line_of, joined_lines, newline_ended,
    override_ok, rewritten_hosts, scan, HostOverride, ScanState, HOSTS_BEGIN, HOSTS_END,
};
use crate::text::{
    lemma_split_on_append_plain, lemma_split_on_nonempty, lemma_split_on_pieces_plain,
    lemma_split_on_push_sep, lines_of, split_on, strip_cr, trim,
};

verus! {

/// A line without a newline.
pub open spec fn one_line(l: Seq<char>) -> bool {
    forall|j: int| 0 <= j < l.len() ==> l[j] != '\n'
}

/// A line that `lines` gives back as it is: no newline, no trailing
/// carriage return.
pub open spec fn clean_line(l: Seq<char>) -> bool {
    one_line(l) && !(l.len() > 0 && l.last() == '\r')
}

/// A line that does not trim to either marker of the owned block.
pub open spec fn unmarked(l: Seq<char>) -> bool {
    trim(l) != HOSTS_BEGIN@ && trim(l) != HOSTS_END@
}

/// The lines outside the owned block, as a rewrite keeps them.
pub open spec fn unmanaged_lines(content: Seq<char>) -> Seq<Seq<char>> {
    scan(lines_of(content), lines_of(content).len() as int).kept
}

/// `ls` without trailing empty lines, keeping at least one line.
pub open spec fn drop_blank_tail(ls: Seq<Seq<char>>) -> Seq<Seq<char>>
    decreases ls.len(),
{
    if ls.len() >= 2 && ls.last().len() == 0 {
        drop_blank_tail(ls.drop_last())
    } else {
        ls
    }
}

proof fn lemma_joined_append(a: Seq<Seq<char>>, b: Seq<Seq<char>>)
    ensures
        joined_lines(a + b) == joined_lines(a) + joined_lines(b),
    decreases b.len(),
{
    if b.len() == 0 {
        assert(a + b =~= a);
        assert(joined_lines(a) + joined_lines(b) =~= joined_lines(a));
    } else {
        lemma_joined_append(a, b.drop_last());
        assert((a + b).drop_last() =~= a + b.drop_last());
        assert((a + b).last() == b.last());
        assert(joined_lines(a + b) =~= joined_lines(a) + joined_lines(b));
    }
}

/// A joined text is empty or ends in a newline.
proof fn lemma_joined_newline_ended(ls: Seq<Seq<char>>)
    ensures
        newline_ended(joined_lines(ls)) == joined_lines(ls),
        ls.len() > 0 ==> joined_lines(ls).len() > 0,
{
    if ls.len() > 0 {
        assert(joined_lines(ls).last() == '\n');
    } else {
        assert(joined_lines(ls).len() == 0);
    }
}

proof fn lemma_split_joined(ls: Seq<Seq<char>>)
    requires
        forall|i: int| 0 <= i < ls.len() ==> one_line(#[trigger] ls[i]),
    ensures
        split_on(joined_lines(ls), '\n') == ls.push(Seq::<char>::empty()),
    decreases ls.len(),
{
    if ls.len() == 0 {
        assert(split_on(joined_lines(ls), '\n') =~= ls.push(Seq::<char>::empty()));
    } else {
        let init = ls.drop_last();
        let l = ls.last();
        assert forall|i: int| 0 <= i < init.len() implies one_line(#[trigger] init[i]) by {
            assert(init[i] == ls[i]);
        }
        lemma_split_joined(init);
        assert(one_line(ls[ls.len() - 1]));
        lemma_split_on_append_plain(joined_lines(init), l, '\n');
        assert(joined_lines(ls) =~= (joined_lines(init) + l).push('\n'));
        lemma_split_on_push_sep(joined_lines(init) + l, '\n');
        let p = init.push(Seq::<char>::empty());
        assert(p.last() + l =~= l);
        assert(p.update(p.len() - 1, l) =~= ls);
    }
}

/// Reading the lines of a joined text gives the lines back.
proof fn lemma_lines_of_joined(ls: Seq<Seq<char>>)
    requires
        forall|i: int| 0 <= i < ls.len() ==> clean_line(#[trigger] ls[i]),
    ensures
        lines_of(joined_lines(ls)) == ls,
{
    assert forall|i: int| 0 <= i < ls.len() implies one_line(#[trigger] ls[i]) by {
        assert(clean_line(ls[i]));
    }
    lemma_split_joined(ls);
    let p = split_on(joined_lines(ls), '\n');
    assert(p.drop_last() =~= ls);
    assert(p.drop_last().map_values(|l: Seq<char>| strip_cr(l)) =~= ls) by {
        assert forall|i: int| 0 <= i < ls.len() implies strip_cr(#[trigger] ls[i]) == ls[i] by {
            assert(clean_line(ls[i]));
        }
    }
}

/// Every line that `lines` yields is on one line.
proof fn lemma_lines_of_one_line(c: Seq<char>)
    ensures
        forall|i: int| 0 <= i < lines_of(c).len() ==> one_line(#[trigger] lines_of(c)[i]),
{
    let p = split_on(c, '\n');
    lemma_split_on_pieces_plain(c, '\n');
    lemma_split_on_nonempty(c, '\n');
    assert forall|i: int| 0 <= i < lines_of(c).len() implies one_line(#[trigger] lines_of(c)[i]) by {
        if i < p.len() - 1 {
            let q = p[i];
            assert(lines_of(c)[i] == strip_cr(q));
            assert forall|j: int| 0 <= j < strip_cr(q).len() implies strip_cr(q)[j] != '\n' by {
                assert(strip_cr(q)[j] == q[j]);
            }
        } else {
            assert(lines_of(c)[i] == p[p.len() - 1]);
        }
    }
}

/// The kept lines of a scan are lines of the input that trim to neither
/// marker.
proof fn lemma_scan_kept(lines: Seq<Seq<char>>, k: int)
    requires
        0 <= k <= lines.len(),
        forall|i: int| 0 <= i < lines.len() ==> one_line(#[trigger] lines[i]),
    ensures
        forall|j: int|
            0 <= j < scan(lines, k).kept.len() ==> one_line(#[trigger] scan(lines, k).kept[j])
                && unmarked(scan(lines, k).kept[j]),
    decreases k,
{
    if k > 0 {
        lemma_scan_kept(lines, k - 1);
        let s = scan(lines, k - 1);
        let l = lines[k - 1];
        assert(one_line(l));
        let t = scan(lines, k);
        assert forall|j: int| 0 <= j < t.kept.len() implies one_line(#[trigger] t.kept[j])
            && unmarked(t.kept[j]) by {
            if j < s.kept.len() {
                assert(one_line(s.kept[j]) && unmarked(s.kept[j]));
                assert(t.kept[j] == s.kept[j]);
            } else {
                assert(t.kept[j] == l);
            }
        }
    }
}

/// Scanning lines that hold no marker from the start keeps them all and
/// sees no block.
proof fn lemma_scan_unmarked_prefix(lines: Seq<Seq<char>>, pre: Seq<Seq<char>>, k: int)
    requires
        0 <= k <= pre.len() <= lines.len(),
        forall|i: int| 0 <= i < pre.len() ==> lines[i] == pre[i],
        forall|i: int| 0 <= i < pre.len() ==> unmarked(#[trigger] pre[i]),
    ensures
        scan(lines, k) == (ScanState { kept: pre.subrange(0, k), in_block: false, saw_block: false }),
    decreases k,
{
    if k == 0 {
        assert(pre.subrange(0, 0) =~= Seq::<Seq<char>>::empty());
    } else {
        lemma_scan_unmarked_prefix(lines, pre, k - 1);
        assert(unmarked(pre[k - 1]));
        assert(pre.subrange(0, k - 1).push(lines[k - 1]) =~= pre.subrange(0, k));
    }
}

/// Inside the block, lines that hold no marker are dropped.
proof fn lemma_scan_in_block(lines: Seq<Seq<char>>, pre: Seq<Seq<char>>, start: int, k: int)
    requires
        0 <= start <= k <= lines.len(),
        scan(lines, start) == (ScanState { kept: pre, in_block: true, saw_block: true }),
        forall|i: int| start <= i < k ==> unmarked(#[trigger] lines[i]),
    ensures
        scan(lines, k) == (ScanState { kept: pre, in_block: true, saw_block: true }),
    decreases k - start,
{
    if k > start {
        lemma_scan_in_block(lines, pre, start, k - 1);
        assert(unmarked(lines[k - 1]));
    }
}

/// A line made of characters other than `#` never trims to a marker.
proof fn lemma_hashless_unmarked(l: Seq<char>)
    requires
        forall|j: int| 0 <= j < l.len() ==> l[j] != '#',
    ensures
        unmarked(l),
{
    reveal_strlit("# ROUST-HOST-BEGIN");
    reveal_strlit("# ROUST-HOST-END");
    let e = crate::text::trim_end(l);
    crate::text::lemma_trim_end_shape(l);
    crate::text::lemma_trim_start_shape(e);
    let t = trim(l);
    if t.len() > 0 {
        assert(t[0] == e[e.len() - t.len()]);
        assert(e[e.len() - t.len()] == l[e.len() - t.len()]);
        assert(t[0] != '#');
    }
    assert(HOSTS_BEGIN@[0] == '#');
    assert(HOSTS_END@[0] == '#');
}

/// The hosts line of a valid override is clean and holds no `#`.
proof fn lemma_hosts_line_plain(o: HostOverride)
    requires
        override_ok(o),
    ensures
        clean_line(hosts_line_of(o)),
        unmarked(hosts_line_of(o)),
{
    let l = hosts_line_of(o);
    let a = crate::config::ipv4_verdict(o.ip@)->0;
    let n = crate::host_overrides::host_name(o.hostname@);
    let ip = crate::ipv4::ipv4_text(a);
    let h = crate::text::lower(n);
    assert forall|j: int| 0 <= j < ip.len() implies ip[j] != '\n' && ip[j] != '\r' && ip[j] != '#'
        && ip[j] != ' ' by {
        assert(ip[j] == '.' || ('0' <= ip[j] && ip[j] <= '9'));
    }
    assert forall|j: int| 0 <= j < h.len() implies h[j] != '\n' && h[j] != '\r' && h[j] != '#' by {
        assert(crate::host_overrides::host_char(n[j]));
    }
    assert(l =~= ip + seq![' '] + h);
    assert forall|j: int| 0 <= j < l.len() implies l[j] != '\n' && l[j] != '\r' && l[j] != '#' by {
        if j < ip.len() {
            assert(l[j] == ip[j]);
        } else if j > ip.len() {
            assert(l[j] == h[j - ip.len() - 1]);
        }
    }
    assert(h.len() > 0);
    assert(l.last() == h[h.len() - 1]);
    lemma_hashless_unmarked(l);
}

/// Cutting a run of trailing newlines from a joined text drops its
/// trailing empty lines.
proof fn lemma_collapse_joined(ls: Seq<Seq<char>>)
    requires
        forall|i: int| 0 <= i < ls.len() ==> one_line(#[trigger] ls[i]),
    ensures
        collapse_newlines(joined_lines(ls)) == joined_lines(drop_blank_tail(ls)),
    decreases ls.len(),
{
    let s = joined_lines(ls);
    if ls.len() >= 2 && ls.last().len() == 0 {
        let init = ls.drop_last();
        assert forall|i: int| 0 <= i < init.len() implies one_line(#[trigger] init[i]) by {
            assert(init[i] == ls[i]);
        }
        lemma_collapse_joined(init);
        let ji = joined_lines(init);
        assert(ji.last() == '\n');
        assert(s =~= ji.push('\n'));
        assert(s.drop_last() =~= ji);
    } else if ls.len() > 0 {
        let l = ls.last();
        if l.len() > 0 {
            assert(one_line(ls[ls.len() - 1]));
            assert(s =~= joined_lines(ls.drop_last()) + l + seq!['\n']);
            assert(s[s.len() - 2] == l[l.len() - 1]);
        } else {
            assert(ls.len() == 1);
            assert(joined_lines(ls.drop_last()).len() == 0);
            assert(s.len() == 1);
        }
    }
}

/// Dropping the trailing empty lines keeps a prefix.
proof fn lemma_drop_blank_tail_prefix(ls: Seq<Seq<char>>)
    ensures
        drop_blank_tail(ls).len() <= ls.len(),
        drop_blank_tail(ls) == ls.subrange(0, drop_blank_tail(ls).len() as int),
        drop_blank_tail(drop_blank_tail(ls)) == drop_blank_tail(ls),
    decreases ls.len(),
{
    if ls.len() >= 2 && ls.last().len() == 0 {
        lemma_drop_blank_tail_prefix(ls.drop_last());
        let d = drop_blank_tail(ls);
        assert(ls.drop_last().subrange(0, d.len() as int) =~= ls.subrange(0, d.len() as int));
    } else {
        assert(ls.subrange(0, ls.len() as int) =~= ls);
    }
}

proof fn lemma_markers_plain()
    ensures
        clean_line(HOSTS_BEGIN@),
        clean_line(HOSTS_END@),
        trim(HOSTS_BEGIN@) == HOSTS_BEGIN@,
        trim(HOSTS_END@) == HOSTS_END@,
        HOSTS_BEGIN@ != HOSTS_END@,
        unmarked(Seq::<char>::empty()),
        clean_line(Seq::<char>::empty()),
{
    reveal_strlit("# ROUST-HOST-BEGIN");
    reveal_strlit("# ROUST-HOST-END");
    crate::text::lemma_trim_end_fixed(HOSTS_BEGIN@);
    crate::text::lemma_trim_start_fixed(HOSTS_BEGIN@);
    crate::text::lemma_trim_end_fixed(HOSTS_END@);
    crate::text::lemma_trim_start_fixed(HOSTS_END@);
    assert(HOSTS_BEGIN@[14] != HOSTS_END@[14]);
    assert(trim(Seq::<char>::empty()) =~= Seq::<char>::empty());
}

/// The lines that come before the new block: those outside the old block,
/// and a blank line when the file had text but no block and did not end in
/// a blank line.
pub open spec fn lines_before_block(content: Seq<char>) -> Seq<Seq<char>> {
    let ls = lines_of(content);
    let st = scan(ls, ls.len() as int);
    let o1 = newline_ended(joined_lines(st.kept));
    if o1.len() > 0 && !st.saw_block && !ends_blank(o1) {
        st.kept.push(Seq::<char>::empty())
    } else {
        st.kept
    }
}

proof fn lemma_rewrite_shape(content: Seq<char>, overrides: Seq<HostOverride>)
    requires
        overrides.len() > 0,
        forall|i: int| 0 <= i < overrides.len() ==> override_ok(#[trigger] overrides[i]),
        forall|j: int|
            0 <= j < unmanaged_lines(content).len() ==> clean_line(
                #[trigger] unmanaged_lines(content)[j],
            ),
    ensures
        ({
            let pre = lines_before_block(content);
            let out = lines_of(rewritten_hosts(content, overrides));
            &&& out == pre + seq![HOSTS_BEGIN@] + block_lines(overrides) + seq![HOSTS_END@]
            &&& scan(out, out.len() as int) == (ScanState {
                kept: pre,
                in_block: false,
                saw_block: true,
            })
            &&& rewritten_hosts(content, overrides) == joined_lines(pre) + HOSTS_BEGIN@ + seq!['\n']
                + joined_lines(block_lines(overrides)) + HOSTS_END@ + seq!['\n']
        }),
{
    let ls = lines_of(content);
    let st = scan(ls, ls.len() as int);
    let kept = st.kept;
    lemma_lines_of_one_line(content);
    lemma_scan_kept(ls, ls.len() as int);
    lemma_markers_plain();
    lemma_joined_newline_ended(kept);
    let pre = lines_before_block(content);
    let blk = block_lines(overrides);
    assert forall|i: int| 0 <= i < blk.len() implies clean_line(#[trigger] blk[i]) && unmarked(
        blk[i],
    ) by {
        lemma_hosts_line_plain(overrides[i]);
    }
    assert forall|i: int| 0 <= i < pre.len() implies clean_line(#[trigger] pre[i]) && unmarked(
        pre[i],
    ) by {
        if i < kept.len() {
            assert(clean_line(unmanaged_lines(content)[i]));
        }
    }
    // the text written before the block is the joined `pre`
    let o1 = newline_ended(joined_lines(kept));
    let o2 = if o1.len() > 0 && !st.saw_block && !ends_blank(o1) {
        o1.push('\n')
    } else {
        o1
    };
    assert(joined_lines(pre) == o2) by {
        if o1.len() > 0 && !st.saw_block && !ends_blank(o1) {
            assert(pre.drop_last() =~= kept);
            assert(pre.last() == Seq::<char>::empty());
            assert(joined_lines(pre) =~= joined_lines(kept) + Seq::<char>::empty() + seq!['\n']);
        }
    }
    let full = pre + seq![HOSTS_BEGIN@] + blk + seq![HOSTS_END@];
    lemma_joined_append(pre + seq![HOSTS_BEGIN@] + blk, seq![HOSTS_END@]);
    lemma_joined_append(pre + seq![HOSTS_BEGIN@], blk);
    lemma_joined_append(pre, seq![HOSTS_BEGIN@]);
    assert(joined_lines(seq![HOSTS_BEGIN@]) =~= HOSTS_BEGIN@ + seq!['\n']) by {
        let one = seq![HOSTS_BEGIN@];
        assert(one.len() == 1);
        assert(one.last() == HOSTS_BEGIN@);
        assert(one.drop_last() =~= Seq::<Seq<char>>::empty());
        assert(joined_lines(one.drop_last()) == Seq::<char>::empty());
        assert(joined_lines(one) == joined_lines(one.drop_last()) + one.last() + seq!['\n']);
    }
    assert(joined_lines(seq![HOSTS_END@]) =~= HOSTS_END@ + seq!['\n']) by {
        let one = seq![HOSTS_END@];
        assert(one.len() == 1);
        assert(one.last() == HOSTS_END@);
        assert(one.drop_last() =~= Seq::<Seq<char>>::empty());
        assert(joined_lines(one.drop_last()) == Seq::<char>::empty());
        assert(joined_lines(one) == joined_lines(one.drop_last()) + one.last() + seq!['\n']);
    }
    let r = rewritten_hosts(content, overrides);
    assert(r =~= joined_lines(full));
    assert forall|i: int| 0 <= i < full.len() implies clean_line(#[trigger] full[i]) by {
        if i < pre.len() {
            assert(full[i] == pre[i]);
        } else if i == pre.len() {
        } else if i < pre.len() + 1 + blk.len() {
            assert(full[i] == blk[i - pre.len() - 1]);
        }
    }
    lemma_lines_of_joined(full);
    let p = pre.len() as int;
    lemma_scan_unmarked_prefix(full, pre, p);
    assert(pre.subrange(0, p) =~= pre);
    assert(full[p] == HOSTS_BEGIN@);
    assert(scan(full, p + 1) == (ScanState { kept: pre, in_block: true, saw_block: true }));
    assert forall|i: int| p + 1 <= i < p + 1 + blk.len() implies unmarked(#[trigger] full[i]) by {
        assert(full[i] == blk[i - p - 1]);
    }
    lemma_scan_in_block(full, pre, p + 1, p + 1 + blk.len());
    assert(full[p + 1 + blk.len()] == HOSTS_END@);
    assert(full.len() == p + 2 + blk.len());
}

/// Rewriting with overrides keeps the lines outside the owned block (after
/// them at most one blank line is added), then writes exactly one owned
/// block, which lists the overrides' lines; read again, the file's lines
/// outside the block are those same lines.
pub proof fn lemma_rewrite_replaces_block(content: Seq<char>, overrides: Seq<HostOverride>)
    requires
        overrides.len() > 0,
        forall|i: int| 0 <= i < overrides.len() ==> override_ok(#[trigger] overrides[i]),
        forall|j: int|
            0 <= j < unmanaged_lines(content).len() ==> clean_line(
                #[trigger] unmanaged_lines(content)[j],
            ),
    ensures
        ({
            let kept = unmanaged_lines(content);
            let pre = lines_before_block(content);
            let out = lines_of(rewritten_hosts(content, overrides));
            &&& pre == kept || pre == kept.push(Seq::<char>::empty())
            &&& out == pre + seq![HOSTS_BEGIN@] + block_lines(overrides) + seq![HOSTS_END@]
            &&& unmanaged_lines(rewritten_hosts(content, overrides)) == pre
        }),
{
    lemma_rewrite_shape(content, overrides);
}

/// Rewriting with no overrides leaves no owned block: the file's lines are
/// those outside the old block, without trailing blank lines, and none of
/// them is a marker.
pub proof fn lemma_rewrite_clears_block(content: Seq<char>)
    requires
        forall|j: int|
            0 <= j < unmanaged_lines(content).len() ==> clean_line(
                #[trigger] unmanaged_lines(content)[j],
            ),
    ensures
        lines_of(rewritten_hosts(content, Seq::<HostOverride>::empty())) == drop_blank_tail(
            unmanaged_lines(content),
        ),
        unmanaged_lines(rewritten_hosts(content, Seq::<HostOverride>::empty())) == drop_blank_tail(
            unmanaged_lines(content),
        ),
        forall|i: int|
            0 <= i < lines_of(rewritten_hosts(content, Seq::<HostOverride>::empty())).len()
                ==> unmarked(
                #[trigger] lines_of(rewritten_hosts(content, Seq::<HostOverride>::empty()))[i],
            ),
{
    let ls = lines_of(content);
    let kept = unmanaged_lines(content);
    lemma_lines_of_one_line(content);
    lemma_scan_kept(ls, ls.len() as int);
    lemma_collapse_joined(kept);
    let d = drop_blank_tail(kept);
    lemma_drop_blank_tail_prefix(kept);
    lemma_joined_newline_ended(d);
    assert forall|i: int| 0 <= i < d.len() implies clean_line(#[trigger] d[i]) && unmarked(d[i]) by {
        assert(d[i] == kept[i]);
        assert(clean_line(kept[i]));
    }
    let r = rewritten_hosts(content, Seq::<HostOverride>::empty());
    assert(r == joined_lines(d));
    lemma_lines_of_joined(d);
    lemma_scan_unmarked_prefix(d, d, d.len() as int);
    assert(d.subrange(0, d.len() as int) =~= d);
}

/// Rewriting a second time with the same overrides changes nothing.
pub proof fn lemma_rewrite_idempotent(content: Seq<char>, overrides: Seq<HostOverride>)
    requires
        forall|i: int| 0 <= i < overrides.len() ==> override_ok(#[trigger] overrides[i]),
        forall|j: int|
            0 <= j < unmanaged_lines(content).len() ==> clean_line(
                #[trigger] unmanaged_lines(content)[j],
            ),
    ensures
        rewritten_hosts(rewritten_hosts(content, overrides), overrides) == rewritten_hosts(
            content,
            overrides,
        ),
{
    let r1 = rewritten_hosts(content, overrides);
    let kept = unmanaged_lines(content);
    if overrides.len() == 0 {
        lemma_rewrite_clears_block(content);
        let d = drop_blank_tail(kept);
        lemma_drop_blank_tail_prefix(kept);
        let ls = lines_of(content);
        lemma_lines_of_one_line(content);
        lemma_scan_kept(ls, ls.len() as int);
        assert forall|i: int| 0 <= i < d.len() implies one_line(#[trigger] d[i]) by {
            assert(d[i] == kept[i]);
            assert(clean_line(kept[i]));
        }
        lemma_collapse_joined(d);
        lemma_joined_newline_ended(drop_blank_tail(d));
        lemma_collapse_joined(kept);
        lemma_joined_newline_ended(d);
    } else {
        lemma_rewrite_shape(content, overrides);
        let pre = lines_before_block(content);
        let out = lines_of(r1);
        assert(unmanaged_lines(r1) == pre);
        assert forall|i: int| 0 <= i < pre.len() implies one_line(#[trigger] pre[i]) by {
            let ls = lines_of(content);
            lemma_lines_of_one_line(content);
            lemma_scan_kept(ls, ls.len() as int);
            lemma_markers_plain();
            if i < kept.len() {
                assert(clean_line(kept[i]));
            }
        }
        lemma_joined_newline_ended(pre);
        let r2 = rewritten_hosts(r1, overrides);
        let jp = joined_lines(pre);
        assert(r2 =~= jp + HOSTS_BEGIN@ + seq!['\n'] + joined_lines(block_lines(overrides))
            + HOSTS_END@ + seq!['\n']);
    }
}

/// A text is its split pieces joined back: every piece but the last
/// followed by a newline, then the last.
proof fn lemma_split_rejoined(s: Seq<char>)
    ensures
        s == joined_lines(split_on(s, '\n').drop_last()) + split_on(s, '\n').last(),
    decreases s.len(),
{
    lemma_split_on_nonempty(s, '\n');
    if s.len() == 0 {
        assert(split_on(s, '\n').drop_last() =~= Seq::<Seq<char>>::empty());
        assert(s =~= joined_lines(Seq::<Seq<char>>::empty()) + Seq::<char>::empty());
    } else {
        let s0 = s.drop_last();
        lemma_split_rejoined(s0);
        lemma_split_on_nonempty(s0, '\n');
        let q = split_on(s0, '\n');
        let p = split_on(s, '\n');
        if s.last() == '\n' {
            assert(p.drop_last() =~= q);
            assert(joined_lines(q) =~= joined_lines(q.drop_last()) + q.last() + seq!['\n']);
            assert(s =~= s0.push('\n'));
            assert(s =~= joined_lines(p.drop_last()) + p.last());
        } else {
            assert(p.drop_last() =~= q.drop_last());
            assert(p.last() == q.last().push(s.last()));
            assert(s =~= s0.push(s.last()));
            assert(s =~= joined_lines(p.drop_last()) + p.last());
        }
    }
}

/// No piece of a split holds a character that the text does not hold.
proof fn lemma_split_pieces_avoid(s: Seq<char>, c: char)
    requires
        forall|j: int| 0 <= j < s.len() ==> s[j] != c,
    ensures
        forall|i: int, j: int|
            0 <= i < split_on(s, '\n').len() && 0 <= j < split_on(s, '\n')[i].len() ==> split_on(
                s,
                '\n',
            )[i][j] != c,
    decreases s.len(),
{
    if s.len() > 0 {
        lemma_split_pieces_avoid(s.drop_last(), c);
        lemma_split_on_nonempty(s.drop_last(), '\n');
    }
}

/// A text with no carriage return that ends in a newline is the join of
/// its lines, and they are clean.
proof fn lemma_text_is_joined_lines(s: Seq<char>)
    requires
        s.len() > 0,
        s.last() == '\n',
        forall|j: int| 0 <= j < s.len() ==> s[j] != '\r',
    ensures
        joined_lines(lines_of(s)) == s,
        lines_of(s).len() > 0,
        forall|i: int| 0 <= i < lines_of(s).len() ==> clean_line(#[trigger] lines_of(s)[i]),
{
    let p = split_on(s, '\n');
    lemma_split_on_nonempty(s, '\n');
    lemma_split_rejoined(s);
    lemma_split_pieces_avoid(s, '\r');
    lemma_split_on_pieces_plain(s, '\n');
    assert(s.drop_last().push('\n') =~= s);
    lemma_split_on_push_sep(s.drop_last(), '\n');
    assert(p.last().len() == 0);
    let ls = lines_of(s);
    assert forall|i: int| 0 <= i < p.len() - 1 implies strip_cr(#[trigger] p[i]) == p[i] by {
        if p[i].len() > 0 {
            assert(p[i][p[i].len() - 1] != '\r');
        }
    }
    assert(ls =~= p.drop_last());
    assert(s =~= joined_lines(ls) + Seq::<char>::empty());
    assert forall|i: int| 0 <= i < ls.len() implies clean_line(#[trigger] ls[i]) by {
        assert(ls[i] == p[i]);
        if ls[i].len() > 0 {
            assert(p[i][p[i].len() - 1] != '\r');
        }
    }
    lemma_split_on_nonempty(s.drop_last(), '\n');
    assert(p.len() >= 2);
}

/// Clearing the block right after writing it gives back the text exactly,
/// for a file that has no carriage returns, ends in one newline (not a
/// blank line) and has no line that trims to a marker.
pub proof fn lemma_clear_after_write_restores(base: Seq<char>, overrides: Seq<HostOverride>)
    requires
        base.len() > 0,
        base.last() == '\n',
        !ends_blank(base),
        forall|j: int| 0 <= j < base.len() ==> base[j] != '\r',
        forall|i: int| 0 <= i < lines_of(base).len() ==> unmarked(#[trigger] lines_of(base)[i]),
        forall|i: int| 0 <= i < overrides.len() ==> override_ok(#[trigger] overrides[i]),
    ensures
        rewritten_hosts(rewritten_hosts(base, overrides), Seq::<HostOverride>::empty()) == base,
{
    let ls = lines_of(base);
    lemma_text_is_joined_lines(base);
    lemma_scan_unmarked_prefix(ls, ls, ls.len() as int);
    assert(ls.subrange(0, ls.len() as int) =~= ls);
    assert(unmanaged_lines(base) == ls);
    // the lines do not end in an empty line (that would end the text in a blank line)
    if ls.len() >= 2 && ls.last().len() == 0 {
        let init = ls.drop_last();
        lemma_joined_newline_ended(init);
        assert(joined_lines(init).last() == '\n');
        assert(joined_lines(ls) =~= joined_lines(init).push('\n'));
        assert(ends_blank(base));
    }
    assert(drop_blank_tail(ls) == ls);
    if overrides.len() == 0 {
        lemma_rewrite_clears_block(base);
        lemma_collapse_joined(ls);
        lemma_joined_newline_ended(ls);
        assert(rewritten_hosts(base, overrides) == base);
    } else {
        lemma_rewrite_shape(base, overrides);
        let pre = lines_before_block(base);
        let r1 = rewritten_hosts(base, overrides);
        lemma_joined_newline_ended(ls);
        assert(pre == ls.push(Seq::<char>::empty()));
        assert(unmanaged_lines(r1) == pre);
        assert forall|i: int| 0 <= i < pre.len() implies one_line(#[trigger] pre[i]) by {
            if i < ls.len() {
                assert(clean_line(ls[i]));
            }
        }
        lemma_collapse_joined(pre);
        assert(pre.drop_last() =~= ls);
        assert(drop_blank_tail(pre) == drop_blank_tail(ls));
        lemma_joined_newline_ended(ls);
    }
}

} // verus!
