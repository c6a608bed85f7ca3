//! Aligning original and translated lines on the timeline.
//!
//! Sources that ship translations sometimes drop or merge lines, so the two
//! sides often differ in length; this handles that case.

use vstd::prelude::*;
use crate::domain::lyrics::{copy_lines, LineView, LyricLine};
use crate::lrc::parse::{
    insert_pos, lemma_sort_by_time_sorted, sort_by_time, sort_lines, time_sorted,
};

verus! {

/// Time difference tolerated when pairing a translation with an original line.
pub const TOLERANCE_MS: u64 = 1;

pub open spec fn dist(a: u64, b: u64) -> int {
    if a >= b {
        a - b
    } else {
        b - a
    }
}

/// Translation line `i` may pair with a line at `at`: unused and within tolerance.
pub open spec fn pairable(trans: Seq<LineView>, used: Seq<bool>, at: u64, i: int) -> bool {
    0 <= i < trans.len() && i < used.len() && !used[i] && dist(trans[i].at_ms, at)
        <= TOLERANCE_MS
}

/// `i` is the nearest pairable translation line, the earliest one among equals.
pub open spec fn is_nearest(trans: Seq<LineView>, used: Seq<bool>, at: u64, i: int) -> bool {
    pairable(trans, used, at, i) && forall|j: int|
        #[trigger] pairable(trans, used, at, j) ==> dist(trans[i].at_ms, at) < dist(
            trans[j].at_ms,
            at,
        ) || (dist(trans[i].at_ms, at) == dist(trans[j].at_ms, at) && i <= j)
}

pub open spec fn nearest(trans: Seq<LineView>, used: Seq<bool>, at: u64) -> Option<int> {
    if exists|i: int| is_nearest(trans, used, at, i) {
        Some(choose|i: int| is_nearest(trans, used, at, i))
    } else {
        None
    }
}

proof fn lemma_nearest_unique(trans: Seq<LineView>, used: Seq<bool>, at: u64, i: int, j: int)
    requires
        is_nearest(trans, used, at, i),
        is_nearest(trans, used, at, j),
    ensures
        i == j,
{
    assert(pairable(trans, used, at, j));
    assert(pairable(trans, used, at, i));
}

/// Finds the unused translation line closest in time to `at_ms`.
pub fn find_nearby(trans: &[LyricLine], used: &Vec<bool>, at_ms: u64) -> (r: Option<usize>)
    requires
        used.len() == trans.len(),
    ensures
        match r {
            Some(i) => is_nearest(trans.deep_view(), used@, at_ms, i as int),
            None => forall|j: int| !pairable(trans.deep_view(), used@, at_ms, j),
        },
        r == match nearest(trans.deep_view(), used@, at_ms) {
            Some(i) => Some(i as usize),
            None => None::<usize>,
        },
{
    let ghost tv = trans.deep_view();
    let mut best: Option<(usize, u64)> = None;
    let mut i: usize = 0;
    while i < trans.len()
        invariant
            i <= trans.len() == used.len(),
            tv == trans.deep_view(),
            match best {
                Some((b, bd)) => b < i && pairable(tv, used@, at_ms, b as int) && bd == dist(
                    tv[b as int].at_ms,
                    at_ms,
                ) && forall|j: int|
                    0 <= j < i && #[trigger] pairable(tv, used@, at_ms, j) ==> bd < dist(
                        tv[j].at_ms,
                        at_ms,
                    ) || (bd == dist(tv[j].at_ms, at_ms) && b <= j),
                None => forall|j: int| 0 <= j < i ==> !#[trigger] pairable(tv, used@, at_ms, j),
            },
        decreases trans.len() - i,
    {
        assert(tv[i as int].at_ms == trans[i as int].at_ms);
        if !used[i] {
            let t = trans[i].at_ms;
            let d: u64 = if t >= at_ms {
                t - at_ms
            } else {
                at_ms - t
            };
            let better = match best {
                None => true,
                Some((_, bd)) => d < bd,
            };
            if d <= TOLERANCE_MS && better {
                best = Some((i, d));
            }
        }
        i = i + 1;
    }
    match best {
        Some((b, _)) => {
            proof {
                assert(is_nearest(tv, used@, at_ms, b as int));
                if exists|k: int| is_nearest(tv, used@, at_ms, k) {
                    let c = choose|k: int| is_nearest(tv, used@, at_ms, k);
                    lemma_nearest_unique(tv, used@, at_ms, b as int, c);
                }
            }
            Some(b)
        },
        None => {
            proof {
                assert forall|j: int| !pairable(tv, used@, at_ms, j) by {
                    if pairable(tv, used@, at_ms, j) {
                        assert(0 <= j < i);
                    }
                }
                if exists|k: int| is_nearest(tv, used@, at_ms, k) {
                    let c = choose|k: int| is_nearest(tv, used@, at_ms, k);
                    assert(pairable(tv, used@, at_ms, c));
                }
            }
            None
        },
    }
}

/// The original line with the translation attached.
pub open spec fn with_trans(o: LineView, t: LineView) -> LineView {
    LineView { at_ms: o.at_ms, text: o.text, trans: Some(t.text) }
}

/// Pairing on the timeline, one original line at a time: the lines so far and
/// which translation lines are used.
pub open spec fn pair_fold(origin: Seq<LineView>, trans: Seq<LineView>) -> (Seq<LineView>, Seq<
    bool,
>)
    decreases origin.len(),
{
    if origin.len() == 0 {
        (Seq::empty(), Seq::new(trans.len(), |i: int| false))
    } else {
        let st = pair_fold(origin.drop_last(), trans);
        let o = origin.last();
        match nearest(trans, st.1, o.at_ms) {
            Some(ti) => (st.0.push(with_trans(o, trans[ti])), st.1.update(ti, true)),
            None => (st.0.push(o), st.1),
        }
    }
}

/// The translation lines left unpaired, as lines of their own.
pub open spec fn leftovers(trans: Seq<LineView>, used: Seq<bool>) -> Seq<LineView>
    decreases trans.len(),
{
    if trans.len() == 0 {
        Seq::empty()
    } else {
        let r = leftovers(trans.drop_last(), used);
        let k = trans.len() - 1;
        if used[k] {
            r
        } else {
            r.push(LineView { at_ms: trans[k].at_ms, text: trans[k].text, trans: None })
        }
    }
}

pub open spec fn zip_trans(origin: Seq<LineView>, trans: Seq<LineView>) -> Seq<LineView> {
    Seq::new(origin.len(), |i: int| with_trans(origin[i], trans[i]))
}

/// What merging a translation into the original gives.
pub open spec fn merge_spec(origin: Seq<LineView>, trans: Seq<LineView>) -> Seq<LineView> {
    if trans.len() == 0 {
        origin
    } else if origin.len() == 0 {
        trans
    } else if origin.len() == trans.len() {
        zip_trans(origin, trans)
    } else {
        let st = pair_fold(origin, trans);
        sort_by_time(st.0 + leftovers(trans, st.1))
    }
}

proof fn lemma_pair_fold_len(origin: Seq<LineView>, trans: Seq<LineView>)
    ensures
        pair_fold(origin, trans).1.len() == trans.len(),
        pair_fold(origin, trans).0.len() == origin.len(),
    decreases origin.len(),
{
    if origin.len() > 0 {
        lemma_pair_fold_len(origin.drop_last(), trans);
        let st = pair_fold(origin.drop_last(), trans);
        let o = origin.last();
        match nearest(trans, st.1, o.at_ms) {
            Some(ti) => {
                let c = choose|i: int| is_nearest(trans, st.1, o.at_ms, i);
                assert(is_nearest(trans, st.1, o.at_ms, c));
            },
            None => {},
        }
    }
}

/// Merges the translation into the original lines.
///
/// - Equal line counts: paired by index.
/// - Otherwise: paired on the timeline; unpaired translation lines are kept as
///   lines of their own, and the result is sorted by time.
pub fn merge_translation(origin: &[LyricLine], trans: &[LyricLine]) -> (r: Vec<LyricLine>)
    ensures
        r.deep_view() == merge_spec(origin.deep_view(), trans.deep_view()),
{
    if trans.len() == 0 {
        return copy_lines(origin);
    }
    if origin.len() == 0 {
        return copy_lines(trans);
    }
    let ghost ov = origin.deep_view();
    let ghost tv = trans.deep_view();
    if origin.len() == trans.len() {
        let mut out: Vec<LyricLine> = Vec::new();
        let mut i: usize = 0;
        while i < origin.len()
            invariant
                i <= origin.len() == trans.len(),
                ov == origin.deep_view(),
                tv == trans.deep_view(),
                out.deep_view() == zip_trans(ov, tv).take(i as int),
            decreases origin.len() - i,
        {
            let l = LyricLine {
                at_ms: origin[i].at_ms,
                text: origin[i].text.clone(),
                trans: Some(trans[i].text.clone()),
            };
            let ghost lv = l@;
            assert(lv == with_trans(ov[i as int], tv[i as int]));
            let ghost before = out.deep_view();
            out.push(l);
            assert(out.deep_view() =~= before.push(lv));
            assert(zip_trans(ov, tv).take(i + 1) =~= zip_trans(ov, tv).take(i as int).push(lv));
            i = i + 1;
        }
        assert(zip_trans(ov, tv).take(origin.len() as int) =~= zip_trans(ov, tv));
        return out;
    }
    let mut out: Vec<LyricLine> = Vec::new();
    let mut used: Vec<bool> = Vec::new();
    let mut k: usize = 0;
    while k < trans.len()
        invariant
            k <= trans.len(),
            used@ == Seq::new(k as nat, |i: int| false),
        decreases trans.len() - k,
    {
        used.push(false);
        assert(used@ =~= Seq::new((k + 1) as nat, |i: int| false));
        k = k + 1;
    }
    let mut i: usize = 0;
    while i < origin.len()
        invariant
            i <= origin.len(),
            ov == origin.deep_view(),
            tv == trans.deep_view(),
            used.len() == trans.len(),
            (out.deep_view(), used@) == pair_fold(ov.take(i as int), tv),
        decreases origin.len() - i,
    {
        assert(ov.take(i + 1).drop_last() == ov.take(i as int));
        assert(ov.take(i + 1).last() == ov[i as int]);
        let o = &origin[i];
        assert(ov[i as int] == o@);
        match find_nearby(trans, &used, o.at_ms) {
            Some(ti) => {
                let l = LyricLine {
                    at_ms: o.at_ms,
                    text: o.text.clone(),
                    trans: Some(trans[ti].text.clone()),
                };
                let ghost lv = l@;
                assert(lv == with_trans(o@, tv[ti as int]));
                let ghost before = out.deep_view();
                out.push(l);
                assert(out.deep_view() =~= before.push(lv));
                used.set(ti, true);
            },
            None => {
                let l = o.duplicate();
                let ghost lv = l@;
                let ghost before = out.deep_view();
                out.push(l);
                assert(out.deep_view() =~= before.push(lv));
            },
        }
        i = i + 1;
    }
    assert(ov.take(origin.len() as int) == ov);
    let ghost paired = out.deep_view();
    let mut t: usize = 0;
    while t < trans.len()
        invariant
            t <= trans.len() == used.len(),
            tv == trans.deep_view(),
            out.deep_view() == paired + leftovers(tv.take(t as int), used@),
        decreases trans.len() - t,
    {
        assert(tv.take(t + 1).drop_last() == tv.take(t as int));
        assert(tv.take(t + 1)[t as int] == tv[t as int]);
        if !used[t] {
            let l = LyricLine { at_ms: trans[t].at_ms, text: trans[t].text.clone(), trans: None };
            let ghost lv = l@;
            let ghost before = out.deep_view();
            out.push(l);
            assert(out.deep_view() =~= before.push(lv));
            assert(out.deep_view() =~= paired + leftovers(tv.take(t + 1), used@));
        } else {
            assert(leftovers(tv.take(t + 1), used@) == leftovers(tv.take(t as int), used@));
        }
        t = t + 1;
    }
    assert(tv.take(trans.len() as int) == tv);
    sort_lines(&out)
}


/// Merging an empty translation changes nothing.
pub proof fn lemma_merge_empty_translation(origin: Seq<LineView>)
    ensures
        merge_spec(origin, Seq::empty()) == origin,
{
}

/// When the two sides differ in line count, the merged lines come out in
/// time order.
pub proof fn lemma_merge_sorted(origin: Seq<LineView>, trans: Seq<LineView>)
    requires
        origin.len() > 0,
        trans.len() > 0,
        origin.len() != trans.len(),
    ensures
        time_sorted(merge_spec(origin, trans)),
{
    let st = pair_fold(origin, trans);
    lemma_sort_by_time_sorted(st.0 + leftovers(trans, st.1));
}

/// No original line is lost: the merge holds at least as many lines as the
/// original, and exactly as many when the counts match.
pub proof fn lemma_merge_keeps_origin(origin: Seq<LineView>, trans: Seq<LineView>)
    ensures
        merge_spec(origin, trans).len() >= origin.len(),
        origin.len() == trans.len() ==> merge_spec(origin, trans).len() == origin.len(),
{
    if trans.len() > 0 && origin.len() > 0 && origin.len() != trans.len() {
        let st = pair_fold(origin, trans);
        lemma_pair_fold_len(origin, trans);
        lemma_sort_by_time_sorted(st.0 + leftovers(trans, st.1));
    }
}

/// Translation line `t` survives in `m`: attached to a line, or as a line of
/// its own at its time.
pub open spec fn trans_kept(m: Seq<LineView>, t: LineView) -> bool {
    exists|j: int|
        0 <= j < m.len() && ((#[trigger] m[j]).trans == Some(t.text) || (m[j].at_ms == t.at_ms
            && m[j].text == t.text))
}

proof fn lemma_insert_pos_le(r: Seq<LineView>, at: u64)
    ensures
        insert_pos(r, at) <= r.len(),
    decreases r.len(),
{
    if r.len() > 0 && r[0].at_ms <= at {
        lemma_insert_pos_le(r.drop_first(), at);
    }
}

proof fn lemma_sort_keeps(s: Seq<LineView>, y: LineView)
    requires
        s.contains(y),
    ensures
        sort_by_time(s).contains(y),
    decreases s.len(),
{
    let r = sort_by_time(s.drop_last());
    let x = s.last();
    let p = insert_pos(r, x.at_ms) as int;
    lemma_sort_by_time_sorted(s.drop_last());
    lemma_insert_pos_le(r, x.at_ms);
    let q = r.insert(p, x);
    if y == x {
        assert(q[p] == x);
    } else {
        let k = choose|k: int| 0 <= k < s.len() && s[k] == y;
        assert(k < s.len() - 1);
        assert(s.drop_last()[k] == y);
        lemma_sort_keeps(s.drop_last(), y);
        let j = choose|j: int| 0 <= j < r.len() && r[j] == y;
        if j < p {
            assert(q[j] == y);
        } else {
            assert(q[j + 1] == y);
        }
    }
}

proof fn lemma_pair_fold_attaches(origin: Seq<LineView>, trans: Seq<LineView>)
    ensures
        forall|i: int|
            0 <= i < trans.len() && #[trigger] pair_fold(origin, trans).1[i] ==> exists|j: int|
                0 <= j < pair_fold(origin, trans).0.len() && (#[trigger] pair_fold(
                    origin,
                    trans,
                ).0[j]).trans == Some(trans[i].text),
    decreases origin.len(),
{
    lemma_pair_fold_len(origin, trans);
    if origin.len() > 0 {
        let prev = pair_fold(origin.drop_last(), trans);
        lemma_pair_fold_attaches(origin.drop_last(), trans);
        lemma_pair_fold_len(origin.drop_last(), trans);
        let o = origin.last();
        let st = pair_fold(origin, trans);
        match nearest(trans, prev.1, o.at_ms) {
            Some(ti) => {
                let c = choose|i: int| is_nearest(trans, prev.1, o.at_ms, i);
                assert(is_nearest(trans, prev.1, o.at_ms, c));
                assert(0 <= ti < trans.len());
                assert forall|i: int| 0 <= i < trans.len() && #[trigger] st.1[i] implies exists|j: int|
                    0 <= j < st.0.len() && (#[trigger] st.0[j]).trans == Some(trans[i].text) by {
                    if i == ti {
                        assert(st.0[st.0.len() - 1] == with_trans(o, trans[ti]));
                    } else {
                        assert(prev.1[i]);
                        let j = choose|j: int|
                            0 <= j < prev.0.len() && (#[trigger] prev.0[j]).trans == Some(trans[i].text);
                        assert(st.0[j] == prev.0[j]);
                    }
                }
            },
            None => {
                assert forall|i: int| 0 <= i < trans.len() && #[trigger] st.1[i] implies exists|j: int|
                    0 <= j < st.0.len() && (#[trigger] st.0[j]).trans == Some(trans[i].text) by {
                    assert(prev.1[i]);
                    let j = choose|j: int|
                        0 <= j < prev.0.len() && (#[trigger] prev.0[j]).trans == Some(trans[i].text);
                    assert(st.0[j] == prev.0[j]);
                }
            },
        }
    }
}

/// The line a translation line becomes when nothing takes it.
pub open spec fn own_line(t: LineView) -> LineView {
    LineView { at_ms: t.at_ms, text: t.text, trans: None }
}

proof fn lemma_leftovers_keep(trans: Seq<LineView>, used: Seq<bool>)
    requires
        used.len() >= trans.len(),
    ensures
        forall|i: int|
            0 <= i < trans.len() && !used[i] ==> #[trigger] leftovers(trans, used).contains(
                own_line(trans[i]),
            ),
    decreases trans.len(),
{
    if trans.len() > 0 {
        let d = trans.drop_last();
        lemma_leftovers_keep(d, used);
        let r = leftovers(d, used);
        let k = trans.len() - 1;
        assert forall|i: int| 0 <= i < trans.len() && !used[i] implies #[trigger] leftovers(
            trans,
            used,
        ).contains(own_line(trans[i])) by {
            if i < k {
                assert(d[i] == trans[i]);
                assert(r.contains(own_line(d[i])));
                let j = choose|j: int| 0 <= j < r.len() && r[j] == own_line(d[i]);
                if !used[k] {
                    assert(leftovers(trans, used)[j] == r[j]);
                }
            } else {
                assert(leftovers(trans, used)[r.len() as int] == own_line(trans[k]));
            }
        }
    }
}

/// No translation line is lost: each ends up attached to an original line or
/// kept as a line of its own at its time.
pub proof fn lemma_merge_keeps_translation(origin: Seq<LineView>, trans: Seq<LineView>)
    ensures
        forall|i: int| 0 <= i < trans.len() ==> trans_kept(merge_spec(origin, trans), #[trigger] trans[i]),
{
    let m = merge_spec(origin, trans);
    if trans.len() == 0 {
    } else if origin.len() == 0 {
        assert forall|i: int| 0 <= i < trans.len() implies trans_kept(m, #[trigger] trans[i]) by {
            assert(m[i] == trans[i]);
        }
    } else if origin.len() == trans.len() {
        assert forall|i: int| 0 <= i < trans.len() implies trans_kept(m, #[trigger] trans[i]) by {
            assert(m[i] == with_trans(origin[i], trans[i]));
        }
    } else {
        let st = pair_fold(origin, trans);
        lemma_pair_fold_len(origin, trans);
        lemma_pair_fold_attaches(origin, trans);
        lemma_leftovers_keep(trans, st.1);
        let lo = leftovers(trans, st.1);
        let all = st.0 + lo;
        assert forall|i: int| 0 <= i < trans.len() implies trans_kept(m, #[trigger] trans[i]) by {
            if st.1[i] {
                let j = choose|j: int| 0 <= j < st.0.len() && (#[trigger] st.0[j]).trans == Some(trans[i].text);
                assert(all[j] == st.0[j]);
                lemma_sort_keeps(all, st.0[j]);
                let k = choose|k: int| 0 <= k < m.len() && m[k] == st.0[j];
                assert(m[k].trans == Some(trans[i].text));
            } else {
                assert(lo.contains(own_line(trans[i])));
                let j = choose|j: int| 0 <= j < lo.len() && lo[j] == own_line(trans[i]);
                assert(all[st.0.len() + j] == lo[j]);
                lemma_sort_keeps(all, lo[j]);
                let k = choose|k: int| 0 <= k < m.len() && m[k] == own_line(trans[i]);
                assert(m[k].at_ms == trans[i].at_ms && m[k].text == trans[i].text);
            }
        }
    }
}


/// When the two sides differ in line count, the merge holds one line per
/// original line and one per unpaired translation line, nothing else.
pub proof fn lemma_merge_len(origin: Seq<LineView>, trans: Seq<LineView>)
    requires
        origin.len() > 0,
        trans.len() > 0,
        origin.len() != trans.len(),
    ensures
        merge_spec(origin, trans).len() == origin.len() + leftovers(
            trans,
            pair_fold(origin, trans).1,
        ).len(),
{
    let st = pair_fold(origin, trans);
    lemma_pair_fold_len(origin, trans);
    lemma_sort_by_time_sorted(st.0 + leftovers(trans, st.1));
}


/// Sorting by time only reorders: the same lines, as often each.
pub proof fn lemma_sort_by_time_perm(s: Seq<LineView>)
    ensures
        sort_by_time(s).to_multiset() == s.to_multiset(),
    decreases s.len(),
{
    broadcast use vstd::seq_lib::group_to_multiset_ensures;

    if s.len() == 0 {
        assert(sort_by_time(s) == s);
    } else {
        lemma_sort_by_time_perm(s.drop_last());
        let r = sort_by_time(s.drop_last());
        lemma_insert_pos_le(r, s.last().at_ms);
        assert(s.drop_last().push(s.last()) == s);
    }
}

/// When the two sides differ in line count, the merge is exactly the paired
/// original lines and the unpaired translation lines, sorted by time.
pub proof fn lemma_merge_arrangement(origin: Seq<LineView>, trans: Seq<LineView>)
    requires
        origin.len() > 0,
        trans.len() > 0,
        origin.len() != trans.len(),
    ensures
        merge_spec(origin, trans).to_multiset() == (pair_fold(origin, trans).0 + leftovers(
            trans,
            pair_fold(origin, trans).1,
        )).to_multiset(),
        time_sorted(merge_spec(origin, trans)),
{
    let st = pair_fold(origin, trans);
    lemma_sort_by_time_perm(st.0 + leftovers(trans, st.1));
    lemma_merge_sorted(origin, trans);
}

} // verus!
