//! Batches of log lines as Loki push payloads: lines with the same label set
//! share a stream, streams come in the order of their label sets, and each
//! stream's lines come in time order.
use vstd::prelude::*;

use crate::loki::{distinct_names, event_labels, event_to_labels, label_map, label_views, LabelSource};
use crate::json::{data_items, data_members, data_of, lemma_data_items, lemma_data_members, JsonData, JsonValue};
use crate::text::{chars_of, signed_decimal, signed_decimal_string};

verus! {

// ── the order of strings, label pairs and label sets ──

/// `String`'s order: lexicographic by code point, which is the order of the
/// UTF-8 bytes.
pub open spec fn text_lt(a: Seq<char>, b: Seq<char>) -> bool
    decreases a.len(),
{
    if a.len() == 0 {
        b.len() > 0
    } else if b.len() == 0 {
        false
    } else if a[0] != b[0] {
        a[0] < b[0]
    } else {
        text_lt(a.drop_first(), b.drop_first())
    }
}

pub proof fn lemma_text_lt_irreflexive(a: Seq<char>)
    ensures
        !text_lt(a, a),
    decreases a.len(),
{
    if a.len() > 0 {
        lemma_text_lt_irreflexive(a.drop_first());
    }
}

pub proof fn lemma_text_lt_asymmetric(a: Seq<char>, b: Seq<char>)
    requires
        text_lt(a, b),
    ensures
        !text_lt(b, a),
    decreases a.len(),
{
    if a.len() > 0 && b.len() > 0 && a[0] == b[0] {
        lemma_text_lt_asymmetric(a.drop_first(), b.drop_first());
    }
}

pub proof fn lemma_text_lt_transitive(a: Seq<char>, b: Seq<char>, c: Seq<char>)
    requires
        text_lt(a, b),
        text_lt(b, c),
    ensures
        text_lt(a, c),
    decreases a.len(),
{
    if a.len() > 0 && b.len() > 0 && c.len() > 0 && a[0] == b[0] && b[0] == c[0] {
        lemma_text_lt_transitive(a.drop_first(), b.drop_first(), c.drop_first());
    }
}

pub proof fn lemma_text_lt_total(a: Seq<char>, b: Seq<char>)
    ensures
        a == b || text_lt(a, b) || text_lt(b, a),
    decreases a.len(),
{
    if a.len() > 0 && b.len() > 0 && a[0] == b[0] {
        lemma_text_lt_total(a.drop_first(), b.drop_first());
        if a.drop_first() == b.drop_first() {
            assert(a =~= seq![a[0]] + a.drop_first());
            assert(b =~= seq![b[0]] + b.drop_first());
        }
    } else if a.len() == 0 && b.len() == 0 {
        assert(a =~= b);
    }
}

/// The order of `(name, value)` pairs: by name, then by value.
pub open spec fn pair_lt(p: (Seq<char>, Seq<char>), q: (Seq<char>, Seq<char>)) -> bool {
    text_lt(p.0, q.0) || (p.0 == q.0 && text_lt(p.1, q.1))
}

proof fn lemma_pair_lt_facts(p: (Seq<char>, Seq<char>), q: (Seq<char>, Seq<char>), r: (Seq<char>, Seq<char>))
    ensures
        !pair_lt(p, p),
        pair_lt(p, q) ==> !pair_lt(q, p),
        pair_lt(p, q) && pair_lt(q, r) ==> pair_lt(p, r),
        p == q || pair_lt(p, q) || pair_lt(q, p),
{
    lemma_text_lt_irreflexive(p.0);
    lemma_text_lt_irreflexive(p.1);
    lemma_text_lt_total(p.0, q.0);
    lemma_text_lt_total(p.1, q.1);
    if text_lt(p.0, q.0) {
        lemma_text_lt_asymmetric(p.0, q.0);
    }
    if text_lt(p.1, q.1) {
        lemma_text_lt_asymmetric(p.1, q.1);
    }
    if pair_lt(p, q) && pair_lt(q, r) {
        if text_lt(p.0, q.0) && text_lt(q.0, r.0) {
            lemma_text_lt_transitive(p.0, q.0, r.0);
        }
        if p.0 == q.0 && q.0 == r.0 {
            lemma_text_lt_transitive(p.1, q.1, r.1);
        }
    }
}

/// The order of label sets written out by name, as a `BTreeMap` of labels
/// orders: lexicographic over the pairs.
pub open spec fn labels_lt(a: Seq<(Seq<char>, Seq<char>)>, b: Seq<(Seq<char>, Seq<char>)>) -> bool
    decreases a.len(),
{
    if a.len() == 0 {
        b.len() > 0
    } else if b.len() == 0 {
        false
    } else if a[0] != b[0] {
        pair_lt(a[0], b[0])
    } else {
        labels_lt(a.drop_first(), b.drop_first())
    }
}

pub proof fn lemma_labels_lt_irreflexive(a: Seq<(Seq<char>, Seq<char>)>)
    ensures
        !labels_lt(a, a),
    decreases a.len(),
{
    if a.len() > 0 {
        lemma_labels_lt_irreflexive(a.drop_first());
    }
}

pub proof fn lemma_labels_lt_transitive(
    a: Seq<(Seq<char>, Seq<char>)>,
    b: Seq<(Seq<char>, Seq<char>)>,
    c: Seq<(Seq<char>, Seq<char>)>,
)
    requires
        labels_lt(a, b),
        labels_lt(b, c),
    ensures
        labels_lt(a, c),
    decreases a.len(),
{
    if a.len() > 0 && b.len() > 0 && c.len() > 0 {
        lemma_pair_lt_facts(a[0], b[0], c[0]);
        if a[0] == b[0] && b[0] == c[0] {
            lemma_labels_lt_transitive(a.drop_first(), b.drop_first(), c.drop_first());
        }
    }
}

pub proof fn lemma_labels_lt_total(a: Seq<(Seq<char>, Seq<char>)>, b: Seq<(Seq<char>, Seq<char>)>)
    ensures
        a == b || labels_lt(a, b) || labels_lt(b, a),
    decreases a.len(),
{
    if a.len() > 0 && b.len() > 0 {
        lemma_pair_lt_facts(a[0], b[0], b[0]);
        if a[0] == b[0] {
            lemma_labels_lt_total(a.drop_first(), b.drop_first());
            if a.drop_first() == b.drop_first() {
                assert(a =~= seq![a[0]] + a.drop_first());
                assert(b =~= seq![b[0]] + b.drop_first());
            }
        }
    } else if a.len() == 0 && b.len() == 0 {
        assert(a =~= b);
    }
}

/// `a < b` for strings.
pub fn text_less(a: &str, b: &str) -> (r: bool)
    ensures
        r == text_lt(a@, b@),
{
    let va = chars_of(a);
    let vb = chars_of(b);
    let mut i: usize = 0;
    assert(va@.skip(0) =~= va@);
    assert(vb@.skip(0) =~= vb@);
    while i < va.len() && i < vb.len() && va[i] == vb[i]
        invariant
            i <= va@.len(),
            i <= vb@.len(),
            text_lt(a@, b@) == text_lt(va@.skip(i as int), vb@.skip(i as int)),
            va@ == a@,
            vb@ == b@,
        decreases va.len() - i,
    {
        assert(va@.skip(i as int).drop_first() =~= va@.skip(i + 1));
        assert(vb@.skip(i as int).drop_first() =~= vb@.skip(i + 1));
        i = i + 1;
    }
    if i == va.len() {
        i < vb.len()
    } else if i == vb.len() {
        false
    } else {
        va[i] < vb[i]
    }
}

/// Whether two strings are equal.
fn text_same(a: &str, b: &str) -> (r: bool)
    ensures
        r == (a@ == b@),
{
    crate::text::str_eq(a, b)
}

/// `a < b` for label sets written out by name.
pub fn labels_less(a: &Vec<(String, String)>, b: &Vec<(String, String)>) -> (r: bool)
    ensures
        r == labels_lt(label_views(a@), label_views(b@)),
{
    let ghost sa = label_views(a@);
    let ghost sb = label_views(b@);
    let mut i: usize = 0;
    assert(sa.skip(0) =~= sa);
    assert(sb.skip(0) =~= sb);
    while i < a.len() && i < b.len() && text_same(a[i].0.as_str(), b[i].0.as_str())
        && text_same(a[i].1.as_str(), b[i].1.as_str())
        invariant
            i <= a@.len(),
            i <= b@.len(),
            sa == label_views(a@),
            sb == label_views(b@),
            labels_lt(sa, sb) == labels_lt(sa.skip(i as int), sb.skip(i as int)),
        decreases a.len() - i,
    {
        assert(sa[i as int] == (a@[i as int].0@, a@[i as int].1@));
        assert(sb[i as int] == (b@[i as int].0@, b@[i as int].1@));
        assert(sa.skip(i as int).drop_first() =~= sa.skip(i + 1));
        assert(sb.skip(i as int).drop_first() =~= sb.skip(i + 1));
        i = i + 1;
    }
    if i == a.len() {
        i < b.len()
    } else if i == b.len() {
        false
    } else {
        assert(sa.skip(i as int)[0] == (a@[i as int].0@, a@[i as int].1@));
        assert(sb.skip(i as int)[0] == (b@[i as int].0@, b@[i as int].1@));
        text_less(a[i].0.as_str(), b[i].0.as_str()) || (text_same(a[i].0.as_str(), b[i].0.as_str())
            && text_less(a[i].1.as_str(), b[i].1.as_str()))
    }
}

/// Whether two label lists are the same, pair by pair.
fn labels_same(a: &Vec<(String, String)>, b: &Vec<(String, String)>) -> (r: bool)
    ensures
        r == (label_views(a@) == label_views(b@)),
{
    if a.len() != b.len() {
        assert(label_views(a@).len() != label_views(b@).len());
        return false;
    }
    let mut i: usize = 0;
    while i < a.len()
        invariant
            i <= a@.len(),
            a@.len() == b@.len(),
            forall|k: int| 0 <= k < i ==> label_views(a@)[k] == #[trigger] label_views(b@)[k],
        decreases a.len() - i,
    {
        if !text_same(a[i].0.as_str(), b[i].0.as_str()) || !text_same(a[i].1.as_str(), b[i].1.as_str()) {
            assert(label_views(a@)[i as int] != label_views(b@)[i as int]);
            return false;
        }
        i = i + 1;
    }
    assert(label_views(a@) =~= label_views(b@));
    true
}

// ── label lists in name order ──

/// Names strictly increasing.
pub open spec fn sorted_names(s: Seq<(Seq<char>, Seq<char>)>) -> bool {
    forall|i: int, j: int| 0 <= i < j < s.len() ==> text_lt((#[trigger] s[i]).0, (#[trigger] s[j]).0)
}

proof fn lemma_sorted_distinct(s: Seq<(Seq<char>, Seq<char>)>)
    requires
        sorted_names(s),
    ensures
        distinct_names(s),
{
    assert forall|i: int, j: int| 0 <= i < j < s.len() implies (#[trigger] s[i]).0 != (#[trigger] s[j]).0 by {
        lemma_text_lt_irreflexive(s[i].0);
    }
}

/// In a list with distinct names, each pair is what its name maps to.
pub proof fn lemma_label_map_get(s: Seq<(Seq<char>, Seq<char>)>, i: int)
    requires
        distinct_names(s),
        0 <= i < s.len(),
    ensures
        label_map(s).dom().contains(s[i].0),
        label_map(s)[s[i].0] == s[i].1,
    decreases s.len(),
{
    if i < s.len() - 1 {
        assert(s.drop_last()[i] == s[i]);
        assert(distinct_names(s.drop_last()));
        lemma_label_map_get(s.drop_last(), i);
        assert(s.last().0 != s[i].0);
    }
}

/// The names of a list are its map's keys.
pub proof fn lemma_label_map_keys(s: Seq<(Seq<char>, Seq<char>)>, k: Seq<char>)
    ensures
        label_map(s).dom().contains(k) <==> exists|i: int| 0 <= i < s.len() && (#[trigger] s[i]).0 == k,
    decreases s.len(),
{
    if s.len() > 0 {
        lemma_label_map_keys(s.drop_last(), k);
        if label_map(s).dom().contains(k) && k != s.last().0 {
            let i = choose|i: int| 0 <= i < s.len() - 1 && (#[trigger] s.drop_last()[i]).0 == k;
            assert(s[i].0 == k);
        }
        if exists|i: int| 0 <= i < s.len() && (#[trigger] s[i]).0 == k {
            let i = choose|i: int| 0 <= i < s.len() && (#[trigger] s[i]).0 == k;
            if i < s.len() - 1 {
                assert(s.drop_last()[i].0 == k);
            }
        }
    }
}

/// Two lists with distinct names and the same pairs, in whatever order,
/// stand for the same label set.
proof fn lemma_label_map_same_pairs(a: Seq<(Seq<char>, Seq<char>)>, b: Seq<(Seq<char>, Seq<char>)>)
    requires
        distinct_names(a),
        distinct_names(b),
        forall|i: int| 0 <= i < a.len() ==> b.contains(#[trigger] a[i]),
        forall|j: int| 0 <= j < b.len() ==> a.contains(#[trigger] b[j]),
    ensures
        label_map(a) == label_map(b),
{
    assert forall|k: Seq<char>| label_map(a).dom().contains(k) <==> label_map(b).dom().contains(k) by {
        lemma_label_map_keys(a, k);
        lemma_label_map_keys(b, k);
        if label_map(a).dom().contains(k) {
            let i = choose|i: int| 0 <= i < a.len() && (#[trigger] a[i]).0 == k;
            assert(b.contains(a[i]));
            let j = choose|j: int| 0 <= j < b.len() && b[j] == a[i];
            assert(b[j].0 == k);
        }
        if label_map(b).dom().contains(k) {
            let j = choose|j: int| 0 <= j < b.len() && (#[trigger] b[j]).0 == k;
            assert(a.contains(b[j]));
            let i = choose|i: int| 0 <= i < a.len() && a[i] == b[j];
            assert(a[i].0 == k);
        }
    }
    assert forall|k: Seq<char>| #[trigger] label_map(a).dom().contains(k) implies label_map(a)[k] == label_map(b)[k] by {
        lemma_label_map_keys(a, k);
        let i = choose|i: int| 0 <= i < a.len() && (#[trigger] a[i]).0 == k;
        lemma_label_map_get(a, i);
        assert(b.contains(a[i]));
        let j = choose|j: int| 0 <= j < b.len() && b[j] == a[i];
        lemma_label_map_get(b, j);
    }
    assert(label_map(a) =~= label_map(b));
}

/// Two name-ordered lists of the same label set are the same list.
pub proof fn lemma_sorted_unique(a: Seq<(Seq<char>, Seq<char>)>, b: Seq<(Seq<char>, Seq<char>)>)
    requires
        sorted_names(a),
        sorted_names(b),
        label_map(a) == label_map(b),
    ensures
        a == b,
    decreases a.len(),
{
    lemma_sorted_distinct(a);
    lemma_sorted_distinct(b);
    if a.len() == 0 {
        if b.len() > 0 {
            lemma_label_map_get(b, 0);
        }
        assert(a =~= b);
    } else if b.len() == 0 {
        lemma_label_map_get(a, 0);
    } else {
        let la = a.last();
        let lb = b.last();
        lemma_label_map_get(a, a.len() - 1);
        lemma_label_map_get(b, b.len() - 1);
        lemma_label_map_keys(a, lb.0);
        lemma_label_map_keys(b, la.0);
        let i = choose|i: int| 0 <= i < a.len() && (#[trigger] a[i]).0 == lb.0;
        let j = choose|j: int| 0 <= j < b.len() && (#[trigger] b[j]).0 == la.0;
        if i < a.len() - 1 {
            assert(text_lt(a[i].0, la.0));
            if j < b.len() - 1 {
                assert(text_lt(b[j].0, lb.0));
                lemma_text_lt_asymmetric(lb.0, la.0);
            } else {
                lemma_text_lt_irreflexive(lb.0);
            }
        }
        if j < b.len() - 1 {
            assert(text_lt(b[j].0, lb.0));
            if i == a.len() - 1 {
                lemma_text_lt_irreflexive(la.0);
            }
        }
        assert(la.0 == lb.0);
        assert(la == lb);
        let a2 = a.drop_last();
        let b2 = b.drop_last();
        assert(distinct_names(a2));
        assert(distinct_names(b2));
        lemma_label_map_keys(a2, la.0);
        lemma_label_map_keys(b2, lb.0);
        assert(!label_map(a2).dom().contains(la.0));
        assert(!label_map(b2).dom().contains(lb.0));
        assert(label_map(a2) =~= label_map(a).remove(la.0));
        assert(label_map(b2) =~= label_map(b).remove(lb.0));
        assert(sorted_names(a2));
        assert(sorted_names(b2));
        lemma_sorted_unique(a2, b2);
        assert(a =~= a2.push(la));
        assert(b =~= b2.push(lb));
    }
}

/// A label list in name order.
pub fn sort_labels(v: &Vec<(String, String)>) -> (r: Vec<(String, String)>)
    requires
        distinct_names(label_views(v@)),
    ensures
        sorted_names(label_views(r@)),
        label_map(label_views(r@)) == label_map(label_views(v@)),
{
    let ghost sv = label_views(v@);
    let mut out: Vec<(String, String)> = Vec::new();
    let mut i: usize = 0;
    while i < v.len()
        invariant
            i <= v@.len(),
            sv == label_views(v@),
            distinct_names(sv),
            sorted_names(label_views(out@)),
            label_views(out@).len() == i,
            forall|k: int| 0 <= k < i ==> label_views(out@).contains(#[trigger] sv[k]),
            forall|k: int| 0 <= k < out@.len() ==> sv.take(i as int).contains(#[trigger] label_views(out@)[k]),
        decreases v.len() - i,
    {
        let ghost so = label_views(out@);
        let p = (v[i].0.clone(), v[i].1.clone());
        assert((p.0@, p.1@) == sv[i as int]);
        let mut k: usize = 0;
        while k < out.len() && !text_less(p.0.as_str(), out[k].0.as_str())
            invariant
                k <= out@.len(),
                so == label_views(out@),
                forall|q: int| 0 <= q < k ==> !text_lt(p.0@, (#[trigger] so[q]).0),
            decreases out.len() - k,
        {
            k = k + 1;
        }
        out.insert(k, p);
        proof {
            let sn = label_views(out@);
            assert(sn =~= so.insert(k as int, sv[i as int]));
            // the new name differs from every earlier one
            assert forall|q: int| 0 <= q < so.len() implies (#[trigger] so[q]).0 != sv[i as int].0 by {
                let w = choose|w: int| 0 <= w < i && sv.take(i as int)[w] == so[q];
                assert(sv[w] == so[q]);
            }
            assert forall|q: int| 0 <= q < k implies text_lt((#[trigger] so[q]).0, sv[i as int].0) by {
                lemma_text_lt_total(so[q].0, sv[i as int].0);
            }
            assert forall|a: int, b: int| 0 <= a < b < sn.len() implies text_lt((#[trigger] sn[a]).0, (#[trigger] sn[b]).0) by {
                if b < k {
                } else if b == k {
                } else if a < k {
                    assert(sn[b] == so[b - 1]);
                    if k < so.len() {
                        assert(text_lt(sv[i as int].0, so[k as int].0));
                        if b - 1 > k {
                            assert(text_lt(so[k as int].0, so[b - 1].0));
                            lemma_text_lt_transitive(sv[i as int].0, so[k as int].0, so[b - 1].0);
                        }
                        lemma_text_lt_transitive(so[a].0, sv[i as int].0, so[b - 1].0);
                    }
                } else if a == k {
                    assert(sn[b] == so[b - 1]);
                    assert(text_lt(sv[i as int].0, so[k as int].0));
                    if b - 1 > k {
                        lemma_text_lt_transitive(sv[i as int].0, so[k as int].0, so[b - 1].0);
                    }
                } else {
                    assert(sn[a] == so[a - 1] && sn[b] == so[b - 1]);
                }
            }
            assert forall|q: int| 0 <= q < i + 1 implies sn.contains(#[trigger] sv[q]) by {
                if q < i {
                    let w = choose|w: int| 0 <= w < so.len() && so[w] == sv[q];
                    if w < k {
                        assert(sn[w] == sv[q]);
                    } else {
                        assert(sn[w + 1] == sv[q]);
                    }
                } else {
                    assert(sn[k as int] == sv[q]);
                }
            }
            assert forall|q: int| 0 <= q < sn.len() implies sv.take(i + 1).contains(#[trigger] sn[q]) by {
                if q == k {
                    assert(sv.take(i + 1)[i as int] == sn[q]);
                } else {
                    let o = if q < k { q } else { q - 1 };
                    assert(sn[q] == so[o]);
                    let w = choose|w: int| 0 <= w < i && sv.take(i as int)[w] == so[o];
                    assert(sv.take(i + 1)[w] == sn[q]);
                }
            }
        }
        i = i + 1;
    }
    proof {
        let so = label_views(out@);
        assert(sv.take(i as int) =~= sv);
        lemma_sorted_distinct(so);
        lemma_label_map_same_pairs(so, sv);
    }
    out
}

// ── a stream's lines in time order ──

/// A line of a stream: its time in nanoseconds and its text.
pub type LineView = (i64, Seq<char>);

/// `x` put into time-ordered lines after every line not later than it.
pub open spec fn ins_ns(vs: Seq<LineView>, x: LineView) -> Seq<LineView>
    decreases vs.len(),
{
    if vs.len() == 0 {
        seq![x]
    } else if vs.last().0 <= x.0 {
        vs.push(x)
    } else {
        ins_ns(vs.drop_last(), x).push(vs.last())
    }
}

/// Lines in time order, lines of the same time in arrival order
/// (what a stable sort by time gives).
pub open spec fn by_time(vs: Seq<LineView>) -> Seq<LineView>
    decreases vs.len(),
{
    if vs.len() == 0 {
        Seq::empty()
    } else {
        ins_ns(by_time(vs.drop_last()), vs.last())
    }
}

/// Times never decrease along the lines.
pub open spec fn time_ordered(vs: Seq<LineView>) -> bool {
    forall|i: int, j: int| 0 <= i < j < vs.len() ==> (#[trigger] vs[i]).0 <= (#[trigger] vs[j]).0
}

proof fn lemma_ins_ns_at(vs: Seq<LineView>, x: LineView, k: int)
    requires
        0 <= k <= vs.len(),
        k > 0 ==> vs[k - 1].0 <= x.0,
        forall|j: int| k <= j < vs.len() ==> (#[trigger] vs[j]).0 > x.0,
    ensures
        ins_ns(vs, x) == vs.take(k).push(x) + vs.skip(k),
    decreases vs.len(),
{
    if vs.len() == 0 {
        assert(vs.take(k).push(x) + vs.skip(k) =~= seq![x]);
    } else if k == vs.len() {
        assert(vs.take(k).push(x) + vs.skip(k) =~= vs.push(x));
    } else {
        assert(vs.last().0 > x.0);
        lemma_ins_ns_at(vs.drop_last(), x, k);
        assert(vs.drop_last().take(k) =~= vs.take(k));
        assert(vs.take(k).push(x) + vs.skip(k) =~= (vs.take(k).push(x) + vs.drop_last().skip(k)).push(vs.last()));
    }
}

proof fn lemma_ins_ns_ordered(vs: Seq<LineView>, x: LineView)
    requires
        time_ordered(vs),
    ensures
        time_ordered(ins_ns(vs, x)),
        ins_ns(vs, x).len() == vs.len() + 1,
    decreases vs.len(),
{
    if vs.len() > 0 && vs.last().0 > x.0 {
        let d = vs.drop_last();
        assert(time_ordered(d));
        lemma_ins_ns_ordered(d, x);
        let r = ins_ns(d, x);
        assert forall|i: int, j: int| 0 <= i < j < r.push(vs.last()).len() implies (#[trigger] r.push(vs.last())[i]).0
            <= (#[trigger] r.push(vs.last())[j]).0 by {
            if j == r.len() {
                lemma_ins_ns_member(d, x, i);
            }
        }
    }
}

/// Every line of `ins_ns(vs, x)` is `x` or a line of `vs`.
proof fn lemma_ins_ns_member(vs: Seq<LineView>, x: LineView, i: int)
    requires
        time_ordered(vs),
        0 <= i < vs.len() + 1,
    ensures
        ins_ns(vs, x)[i] == x || exists|j: int| 0 <= j < vs.len() && (#[trigger] vs[j]) == ins_ns(vs, x)[i],
    decreases vs.len(),
{
    if vs.len() > 0 {
        if vs.last().0 <= x.0 {
            if i < vs.len() {
                assert(vs[i] == ins_ns(vs, x)[i]);
            }
        } else {
            let d = vs.drop_last();
            assert(time_ordered(d));
            lemma_ins_ns_ordered(d, x);
            if i < vs.len() {
                lemma_ins_ns_member(d, x, i);
                if ins_ns(d, x)[i] != x {
                    let j = choose|j: int| 0 <= j < d.len() && (#[trigger] d[j]) == ins_ns(d, x)[i];
                    assert(vs[j] == ins_ns(vs, x)[i]);
                }
            } else {
                assert(vs[vs.len() - 1] == ins_ns(vs, x)[i]);
            }
        }
    }
}

/// Lines sorted by time are in time order.
pub proof fn lemma_by_time_ordered(vs: Seq<LineView>)
    ensures
        time_ordered(by_time(vs)),
        by_time(vs).len() == vs.len(),
    decreases vs.len(),
{
    if vs.len() > 0 {
        lemma_by_time_ordered(vs.drop_last());
        lemma_ins_ns_ordered(by_time(vs.drop_last()), vs.last());
    }
}

pub open spec fn line_views(v: Seq<(i64, String)>) -> Seq<LineView> {
    v.map_values(|l: (i64, String)| (l.0, l.1@))
}

/// Put a line into time-ordered lines after every line not later than it.
fn insert_by_time(vs: &mut Vec<(i64, String)>, x: (i64, String))
    ensures
        line_views(final(vs)@) == ins_ns(line_views(old(vs)@), (x.0, x.1@)),
{
    let ghost s = line_views(vs@);
    let mut k: usize = vs.len();
    while k > 0 && vs[k - 1].0 > x.0
        invariant
            k <= vs@.len(),
            s == line_views(vs@),
            forall|j: int| k <= j < s.len() ==> (#[trigger] s[j]).0 > x.0,
        decreases k,
    {
        k = k - 1;
    }
    proof {
        lemma_ins_ns_at(s, (x.0, x.1@), k as int);
    }
    vs.insert(k, x);
    proof {
        assert(line_views(vs@) =~= s.take(k as int).push((x.0, x.1@)) + s.skip(k as int));
    }
}

// ── grouping lines into streams ──

/// A log line to ship: what its labels come from, its time in nanoseconds
/// since the epoch, and its text.
pub struct PushEntry {
    pub source: LabelSource,
    pub ns: i64,
    pub line: String,
}

/// A stream as its labels, in name order, and its lines.
pub type StreamView = (Seq<(Seq<char>, Seq<char>)>, Seq<LineView>);

/// The lines of the entries whose label set is `m`, in entry order.
pub open spec fn lines_of(es: Seq<PushEntry>, m: Map<Seq<char>, Seq<char>>, statics: Map<Seq<char>, Seq<char>>) -> Seq<LineView>
    decreases es.len(),
{
    if es.len() == 0 {
        Seq::empty()
    } else {
        let rest = lines_of(es.drop_last(), m, statics);
        if event_labels(es.last().source, statics) == m {
            rest.push((es.last().ns, es.last().line@))
        } else {
            rest
        }
    }
}

/// `gs` are the streams of entries `es` under static labels `statics`: one
/// per label set, in the order of their label sets, each holding the lines
/// of its entries in time order.
pub open spec fn is_streams(gs: Seq<StreamView>, es: Seq<PushEntry>, statics: Map<Seq<char>, Seq<char>>) -> bool {
    &&& forall|j: int| 0 <= j < gs.len() ==> sorted_names(#[trigger] gs[j].0)
    &&& forall|j: int, k: int| 0 <= j < k < gs.len() ==> labels_lt((#[trigger] gs[j]).0, (#[trigger] gs[k]).0)
    &&& forall|j: int| 0 <= j < gs.len() ==> (#[trigger] gs[j]).1 == by_time(lines_of(es, label_map(gs[j].0), statics))
    &&& forall|j: int| 0 <= j < gs.len() ==> (#[trigger] gs[j]).1.len() > 0
    &&& forall|i: int| 0 <= i < es.len() ==> exists|j: int| 0 <= j < gs.len()
        && label_map((#[trigger] gs[j]).0) == event_labels((#[trigger] es[i]).source, statics)
}

pub open spec fn stream_views(v: Seq<(Vec<(String, String)>, Vec<(i64, String)>)>) -> Seq<StreamView> {
    v.map_values(|g: (Vec<(String, String)>, Vec<(i64, String)>)| (label_views(g.0@), line_views(g.1@)))
}

proof fn lemma_lines_of_nonempty(es: Seq<PushEntry>, m: Map<Seq<char>, Seq<char>>, statics: Map<Seq<char>, Seq<char>>)
    requires
        lines_of(es, m, statics).len() > 0,
    ensures
        exists|i: int| 0 <= i < es.len() && event_labels((#[trigger] es[i]).source, statics) == m,
    decreases es.len(),
{
    if event_labels(es.last().source, statics) != m {
        lemma_lines_of_nonempty(es.drop_last(), m, statics);
        let i = choose|i: int| 0 <= i < es.len() - 1 && event_labels((#[trigger] es.drop_last()[i]).source, statics) == m;
        assert(es[i] == es.drop_last()[i]);
    } else {
        assert(es[es.len() - 1] == es.last());
    }
}

/// One more entry: the streams of the other label sets keep their lines.
proof fn lemma_lines_of_push(es: Seq<PushEntry>, e: PushEntry, m: Map<Seq<char>, Seq<char>>, statics: Map<Seq<char>, Seq<char>>)
    ensures
        lines_of(es.push(e), m, statics) == if event_labels(e.source, statics) == m {
            lines_of(es, m, statics).push((e.ns, e.line@))
        } else {
            lines_of(es, m, statics)
        },
{
    assert(es.push(e).drop_last() =~= es);
}

/// Group entries into streams.
pub fn group_streams(entries: &Vec<PushEntry>, static_labels: &Vec<(String, String)>) -> (r: Vec<
    (Vec<(String, String)>, Vec<(i64, String)>),
>)
    requires
        distinct_names(label_views(static_labels@)),
    ensures
        is_streams(stream_views(r@), entries@, label_map(label_views(static_labels@))),
{
    let ghost sm = label_map(label_views(static_labels@));
    let mut gs: Vec<(Vec<(String, String)>, Vec<(i64, String)>)> = Vec::new();
    let mut i: usize = 0;
    while i < entries.len()
        invariant
            i <= entries@.len(),
            sm == label_map(label_views(static_labels@)),
            distinct_names(label_views(static_labels@)),
            is_streams(stream_views(gs@), entries@.take(i as int), sm),
        decreases entries.len() - i,
    {
        let ghost old_gs = stream_views(gs@);
        let ghost es = entries@.take(i as int);
        let e = &entries[i];
        let ghost m = event_labels(e.source, sm);
        let labels = event_to_labels(&e.source, static_labels);
        let key = sort_labels(&labels);
        let ghost kv = label_views(key@);
        assert(label_map(kv) == m);
        assert(entries@.take(i + 1) =~= es.push(*e));
        let line = (e.ns, e.line.clone());
        let ghost lv: LineView = (e.ns, e.line@);
        // look for the stream of this label set
        let mut j: usize = 0;
        while j < gs.len() && !labels_same(&gs[j].0, &key)
            invariant
                j <= gs@.len(),
                old_gs == stream_views(gs@),
                kv == label_views(key@),
                forall|q: int| 0 <= q < j ==> (#[trigger] old_gs[q]).0 != kv,
            decreases gs.len() - j,
        {
            j = j + 1;
        }
        if j < gs.len() {
            let mut g = gs.remove(j);
            insert_by_time(&mut g.1, line);
            gs.insert(j, g);
            proof {
                let ng = stream_views(gs@);
                assert(ng =~= old_gs.update(j as int, (kv, ins_ns(old_gs[j as int].1, lv))));
                lemma_step_existing(old_gs, es, *e, sm, j as int);
            }
        } else {
            // the first stream whose labels come after this one's
            let mut p: usize = 0;
            while p < gs.len() && !labels_less(&key, &gs[p].0)
                invariant
                    p <= gs@.len(),
                    old_gs == stream_views(gs@),
                    kv == label_views(key@),
                    forall|q: int| 0 <= q < p ==> !labels_lt(kv, (#[trigger] old_gs[q]).0),
                decreases gs.len() - p,
            {
                p = p + 1;
            }
            let mut lines: Vec<(i64, String)> = Vec::new();
            lines.push(line);
            gs.insert(p, (key, lines));
            proof {
                let ng = stream_views(gs@);
                assert(line_views(lines@) =~= seq![lv]);
                assert(ng =~= old_gs.insert(p as int, (kv, seq![lv])));
                lemma_step_new(old_gs, es, *e, sm, kv, p as int);
            }
        }
        i = i + 1;
    }
    assert(entries@.take(i as int) =~= entries@);
    gs
}

/// An entry whose label set has a stream joins that stream.
proof fn lemma_step_existing(gs: Seq<StreamView>, es: Seq<PushEntry>, e: PushEntry, sm: Map<Seq<char>, Seq<char>>, j: int)
    requires
        is_streams(gs, es, sm),
        0 <= j < gs.len(),
        label_map(gs[j].0) == event_labels(e.source, sm),
    ensures
        is_streams(gs.update(j, (gs[j].0, ins_ns(gs[j].1, (e.ns, e.line@)))), es.push(e), sm),
{
    let ng = gs.update(j, (gs[j].0, ins_ns(gs[j].1, (e.ns, e.line@))));
    let es2 = es.push(e);
    let m = event_labels(e.source, sm);
    assert forall|q: int| 0 <= q < ng.len() implies (#[trigger] ng[q]).1 == by_time(lines_of(es2, label_map(ng[q].0), sm)) by {
        lemma_lines_of_push(es, e, label_map(gs[q].0), sm);
        if q != j {
            if label_map(gs[q].0) == m {
                lemma_sorted_unique(gs[q].0, gs[j].0);
                if q < j {
                    lemma_labels_lt_irreflexive(gs[q].0);
                } else {
                    lemma_labels_lt_irreflexive(gs[j].0);
                }
            }
        } else {
            assert(lines_of(es2, m, sm).drop_last() =~= lines_of(es, m, sm));
        }
    }
    assert forall|q: int| 0 <= q < ng.len() implies (#[trigger] ng[q]).1.len() > 0 by {
        if q == j {
            lemma_by_time_ordered(lines_of(es, m, sm));
            lemma_ins_ns_ordered(gs[j].1, (e.ns, e.line@));
        }
    }
    assert forall|i: int| 0 <= i < es2.len() implies exists|q: int| 0 <= q < ng.len()
        && label_map((#[trigger] ng[q]).0) == event_labels((#[trigger] es2[i]).source, sm) by {
        if i < es.len() {
            assert(es2[i] == es[i]);
            let q = choose|q: int| 0 <= q < gs.len() && label_map((#[trigger] gs[q]).0) == event_labels((#[trigger] es[i]).source, sm);
            assert(ng[q].0 == gs[q].0);
        } else {
            assert(ng[j].0 == gs[j].0);
        }
    }
}

/// An entry whose label set has no stream starts one, in its place in the
/// order of label sets.
#[verifier::spinoff_prover]
#[verifier::rlimit(30)]
proof fn lemma_step_new(
    gs: Seq<StreamView>,
    es: Seq<PushEntry>,
    e: PushEntry,
    sm: Map<Seq<char>, Seq<char>>,
    kv: Seq<(Seq<char>, Seq<char>)>,
    p: int,
)
    requires
        is_streams(gs, es, sm),
        sorted_names(kv),
        label_map(kv) == event_labels(e.source, sm),
        forall|q: int| 0 <= q < gs.len() ==> (#[trigger] gs[q]).0 != kv,
        0 <= p <= gs.len(),
        forall|q: int| 0 <= q < p ==> !labels_lt(kv, (#[trigger] gs[q]).0),
        p < gs.len() ==> labels_lt(kv, gs[p].0),
    ensures
        is_streams(gs.insert(p, (kv, seq![(e.ns, e.line@)])), es.push(e), sm),
{
    let lv: LineView = (e.ns, e.line@);
    let ng = gs.insert(p, (kv, seq![lv]));
    let es2 = es.push(e);
    let m = event_labels(e.source, sm);
    // no stream had this label set
    assert forall|q: int| 0 <= q < gs.len() implies label_map((#[trigger] gs[q]).0) != m by {
        if label_map(gs[q].0) == m {
            lemma_sorted_unique(gs[q].0, kv);
        }
    }
    assert(lines_of(es, m, sm).len() == 0) by {
        if lines_of(es, m, sm).len() > 0 {
            lemma_lines_of_nonempty(es, m, sm);
            let i = choose|i: int| 0 <= i < es.len() && event_labels((#[trigger] es[i]).source, sm) == m;
            let q = choose|q: int| 0 <= q < gs.len() && label_map((#[trigger] gs[q]).0) == event_labels((#[trigger] es[i]).source, sm);
        }
    }
    assert forall|q: int| 0 <= q < p implies labels_lt((#[trigger] gs[q]).0, kv) by {
        lemma_labels_lt_total(gs[q].0, kv);
    }
    assert forall|a: int, b: int| 0 <= a < b < ng.len() implies labels_lt((#[trigger] ng[a]).0, (#[trigger] ng[b]).0) by {
        if b < p {
        } else if b == p {
        } else if a < p {
            assert(ng[b] == gs[b - 1]);
            if b - 1 > p {
                lemma_labels_lt_transitive(kv, gs[p].0, gs[b - 1].0);
            }
            lemma_labels_lt_transitive(gs[a].0, kv, gs[b - 1].0);
        } else if a == p {
            assert(ng[b] == gs[b - 1]);
            if b - 1 > p {
                lemma_labels_lt_transitive(kv, gs[p].0, gs[b - 1].0);
            }
        } else {
            assert(ng[a] == gs[a - 1] && ng[b] == gs[b - 1]);
        }
    }
    assert forall|q: int| 0 <= q < ng.len() implies sorted_names(#[trigger] ng[q].0) by {
        if q < p {
            assert(ng[q] == gs[q]);
        } else if q > p {
            assert(ng[q] == gs[q - 1]);
        }
    }
    assert forall|q: int| 0 <= q < ng.len() implies (#[trigger] ng[q]).1 == by_time(lines_of(es2, label_map(ng[q].0), sm)) by {
        if q == p {
            lemma_lines_of_push(es, e, m, sm);
            assert(lines_of(es, m, sm) =~= Seq::<LineView>::empty());
            assert(lines_of(es2, m, sm) =~= seq![lv]);
            assert(seq![lv].drop_last() =~= Seq::<LineView>::empty());
            assert(by_time(Seq::<LineView>::empty()) == Seq::<LineView>::empty());
            assert(ins_ns(Seq::<LineView>::empty(), lv) == seq![lv]);
            assert(by_time(seq![lv]) == ins_ns(by_time(seq![lv].drop_last()), lv));
        } else {
            let o = if q < p { q } else { q - 1 };
            assert(ng[q] == gs[o]);
            lemma_lines_of_push(es, e, label_map(gs[o].0), sm);
        }
    }
    assert forall|q: int| 0 <= q < ng.len() implies (#[trigger] ng[q]).1.len() > 0 by {
        if q < p {
            assert(ng[q] == gs[q]);
        } else if q > p {
            assert(ng[q] == gs[q - 1]);
        }
    }
    assert forall|i: int| 0 <= i < es2.len() implies exists|q: int| 0 <= q < ng.len()
        && label_map((#[trigger] ng[q]).0) == event_labels((#[trigger] es2[i]).source, sm) by {
        if i < es.len() {
            assert(es2[i] == es[i]);
            let q = choose|q: int| 0 <= q < gs.len() && label_map((#[trigger] gs[q]).0) == event_labels((#[trigger] es[i]).source, sm);
            if q < p {
                assert(ng[q] == gs[q]);
                assert(label_map(ng[q].0) == event_labels(es2[i].source, sm));
            } else {
                assert(ng[q + 1] == gs[q]);
                assert(label_map(ng[q + 1].0) == event_labels(es2[i].source, sm));
            }
        } else {
            assert(es2[i] == e);
            assert(ng[p].0 == kv);
            assert(label_map(ng[p].0) == event_labels(es2[i].source, sm));
        }
    }
    assert(is_streams(ng, es2, sm));
}

/// Within each stream of a batch, lines come in ascending time order.
pub proof fn lemma_streams_in_time_order(gs: Seq<StreamView>, es: Seq<PushEntry>, statics: Map<Seq<char>, Seq<char>>)
    requires
        is_streams(gs, es, statics),
    ensures
        forall|j: int| 0 <= j < gs.len() ==> time_ordered(#[trigger] gs[j].1),
{
    assert forall|j: int| 0 <= j < gs.len() implies time_ordered(#[trigger] gs[j].1) by {
        lemma_by_time_ordered(lines_of(es, label_map(gs[j].0), statics));
    }
}

/// A batch has one stream per label set: no two streams share one, and the
/// lines of equal label sets share a stream.
pub proof fn lemma_one_stream_per_label_set(gs: Seq<StreamView>, es: Seq<PushEntry>, statics: Map<Seq<char>, Seq<char>>)
    requires
        is_streams(gs, es, statics),
    ensures
        forall|j: int, k: int| 0 <= j < k < gs.len() ==> label_map((#[trigger] gs[j]).0) != label_map((#[trigger] gs[k]).0),
{
    assert forall|j: int, k: int| 0 <= j < k < gs.len() implies label_map((#[trigger] gs[j]).0) != label_map(
        (#[trigger] gs[k]).0,
    ) by {
        if label_map(gs[j].0) == label_map(gs[k].0) {
            lemma_sorted_unique(gs[j].0, gs[k].0);
            lemma_labels_lt_irreflexive(gs[j].0);
        }
    }
}

// ── the push payload ──

/// A line as Loki takes it: `[time in nanoseconds as a string, text]`.
pub open spec fn line_data(l: LineView) -> JsonData {
    JsonData::Array(seq![JsonData::Str(signed_decimal(l.0 as int)), JsonData::Str(l.1)])
}

/// A stream as Loki takes it: its labels and its lines.
pub open spec fn stream_data(g: StreamView) -> JsonData {
    JsonData::Object(seq![
        ("stream"@, JsonData::Object(g.0.map_values(|p: (Seq<char>, Seq<char>)| (p.0, JsonData::Str(p.1))))),
        ("values"@, JsonData::Array(g.1.map_values(|l: LineView| line_data(l)))),
    ])
}

/// The body of a push: `{"streams": [...]}`.
pub open spec fn payload_data(gs: Seq<StreamView>) -> JsonData {
    JsonData::Object(seq![("streams"@, JsonData::Array(gs.map_values(|g: StreamView| stream_data(g))))])
}

fn labels_json(labels: &Vec<(String, String)>) -> (r: JsonValue)
    ensures
        data_of(r) == JsonData::Object(label_views(labels@).map_values(|p: (Seq<char>, Seq<char>)| (p.0, JsonData::Str(p.1)))),
{
    let mut m: Vec<(String, JsonValue)> = Vec::new();
    let mut i: usize = 0;
    while i < labels.len()
        invariant
            i <= labels@.len(),
            m@.len() == i,
            forall|k: int| 0 <= k < i ==> (#[trigger] m@[k]).0@ == labels@[k].0@ && m@[k].1 == JsonValue::Str(labels@[k].1),
        decreases labels.len() - i,
    {
        m.push((labels[i].0.clone(), JsonValue::Str(labels[i].1.clone())));
        i = i + 1;
    }
    proof {
        lemma_data_members(m@);
        assert(data_members(m@) =~= label_views(labels@).map_values(|p: (Seq<char>, Seq<char>)| (p.0, JsonData::Str(p.1))));
    }
    JsonValue::Object(m)
}

fn lines_json(lines: &Vec<(i64, String)>) -> (r: JsonValue)
    ensures
        data_of(r) == JsonData::Array(line_views(lines@).map_values(|l: LineView| line_data(l))),
{
    let mut a: Vec<JsonValue> = Vec::new();
    let mut i: usize = 0;
    while i < lines.len()
        invariant
            i <= lines@.len(),
            a@.len() == i,
            forall|k: int| 0 <= k < i ==> data_of(#[trigger] a@[k]) == line_data((lines@[k].0, lines@[k].1@)),
        decreases lines.len() - i,
    {
        let mut pair: Vec<JsonValue> = Vec::new();
        pair.push(JsonValue::Str(signed_decimal_string(lines[i].0)));
        pair.push(JsonValue::Str(lines[i].1.clone()));
        proof {
            lemma_data_items(pair@);
            assert(data_items(pair@) =~= seq![
                JsonData::Str(signed_decimal(lines@[i as int].0 as int)),
                JsonData::Str(lines@[i as int].1@),
            ]);
        }
        a.push(JsonValue::Array(pair));
        i = i + 1;
    }
    proof {
        lemma_data_items(a@);
        assert(data_items(a@) =~= line_views(lines@).map_values(|l: LineView| line_data(l)));
    }
    JsonValue::Array(a)
}

/// The body of a Loki push for a batch: lines grouped into one stream per
/// label set, streams in the order of their label sets, and each stream's
/// lines in time order.
pub fn build_push_payload(entries: &Vec<PushEntry>, static_labels: &Vec<(String, String)>) -> (r: JsonValue)
    requires
        distinct_names(label_views(static_labels@)),
    ensures
        exists|gs: Seq<StreamView>| #[trigger] is_streams(gs, entries@, label_map(label_views(static_labels@)))
            && data_of(r) == payload_data(gs),
{
    let gs = group_streams(entries, static_labels);
    let ghost gv = stream_views(gs@);
    let mut streams: Vec<JsonValue> = Vec::new();
    let mut j: usize = 0;
    while j < gs.len()
        invariant
            j <= gs@.len(),
            gv == stream_views(gs@),
            streams@.len() == j,
            forall|k: int| 0 <= k < j ==> data_of(#[trigger] streams@[k]) == stream_data(gv[k]),
        decreases gs.len() - j,
    {
        let labels = labels_json(&gs[j].0);
        let lines = lines_json(&gs[j].1);
        let mut obj: Vec<(String, JsonValue)> = Vec::new();
        obj.push(("stream".to_string(), labels));
        obj.push(("values".to_string(), lines));
        proof {
            lemma_data_members(obj@);
            assert(data_members(obj@) =~= seq![
                ("stream"@, JsonData::Object(gv[j as int].0.map_values(|p: (Seq<char>, Seq<char>)| (p.0, JsonData::Str(p.1))))),
                ("values"@, JsonData::Array(gv[j as int].1.map_values(|l: LineView| line_data(l)))),
            ]);
        }
        streams.push(JsonValue::Object(obj));
        j = j + 1;
    }
    let mut top: Vec<(String, JsonValue)> = Vec::new();
    proof {
        lemma_data_items(streams@);
        assert(data_items(streams@) =~= gv.map_values(|g: StreamView| stream_data(g)));
    }
    top.push(("streams".to_string(), JsonValue::Array(streams)));
    proof {
        lemma_data_members(top@);
        assert(data_members(top@) =~= seq![("streams"@, JsonData::Array(gv.map_values(|g: StreamView| stream_data(g))))]);
    }
    JsonValue::Object(top)
}

} // verus!
