//! Sorted, duplicate-free lists of strings (the order in which `BTreeMap` and `BTreeSet`
//! hand out their `String` keys).
use vstd::prelude::*;
use crate::text::chars_of;

verus! {

/// Lexicographic order on character sequences (the order of `String`: comparing UTF-8
/// bytes orders strings as comparing their characters does).
pub open spec fn lex_lt(a: Seq<char>, b: Seq<char>) -> bool
    decreases a.len(),
{
    if a.len() == 0 {
        b.len() > 0
    } else if b.len() == 0 {
        false
    } else if a[0] != b[0] {
        a[0] < b[0]
    } else {
        lex_lt(a.drop_first(), b.drop_first())
    }
}

/// `lex_lt` is irreflexive.
pub proof fn lemma_lex_lt_irreflexive(a: Seq<char>)
    ensures
        !lex_lt(a, a),
    decreases a.len(),
{
    if a.len() > 0 {
        lemma_lex_lt_irreflexive(a.drop_first());
    }
}

/// `lex_lt` is transitive.
pub proof fn lemma_lex_lt_transitive(a: Seq<char>, b: Seq<char>, c: Seq<char>)
    requires
        lex_lt(a, b),
        lex_lt(b, c),
    ensures
        lex_lt(a, c),
    decreases a.len(),
{
    if a.len() > 0 && b.len() > 0 && c.len() > 0 && a[0] == b[0] && b[0] == c[0] {
        lemma_lex_lt_transitive(a.drop_first(), b.drop_first(), c.drop_first());
    }
}

/// Any two different sequences are ordered one way or the other, and never both ways.
pub proof fn lemma_lex_lt_trichotomy(a: Seq<char>, b: Seq<char>)
    ensures
        a != b ==> (lex_lt(a, b) || lex_lt(b, a)),
        !(lex_lt(a, b) && lex_lt(b, a)),
    decreases a.len(),
{
    if a.len() > 0 && b.len() > 0 && a[0] == b[0] {
        lemma_lex_lt_trichotomy(a.drop_first(), b.drop_first());
        if a != b {
            assert(a.drop_first() != b.drop_first()) by {
                if a.drop_first() == b.drop_first() {
                    assert(a =~= seq![a[0]] + a.drop_first());
                    assert(b =~= seq![b[0]] + b.drop_first());
                }
            }
        }
    } else if a.len() == 0 && b.len() == 0 {
        assert(a =~= b);
    }
}

/// Whether `a` orders strictly before `b`.
pub fn str_lt(a: &str, b: &str) -> (r: bool)
    ensures
        r == lex_lt(a@, b@),
{
    let va = chars_of(a);
    let vb = chars_of(b);
    let mut i: usize = 0;
    assert(va@.skip(0) =~= va@);
    assert(vb@.skip(0) =~= vb@);
    while i < va.len() && i < vb.len() && va[i] == vb[i]
        invariant
            i <= va@.len(),
            i <= vb@.len(),
            lex_lt(va@.skip(i as int), vb@.skip(i as int)) == lex_lt(a@, b@),
            va@ == a@,
            vb@ == b@,
        decreases va@.len() - i,
    {
        assert(va@.skip(i as int).drop_first() =~= va@.skip(i + 1));
        assert(vb@.skip(i as int).drop_first() =~= vb@.skip(i + 1));
        i = i + 1;
    }
    if i == va.len() {
        i < vb.len()
    } else if i == vb.len() {
        false
    } else {
        va[i] < vb[i]
    }
}

/// Strictly ascending: sorted and without duplicates.
pub open spec fn sorted_distinct(l: Seq<Seq<char>>) -> bool {
    forall|i: int, j: int| 0 <= i < j < l.len() ==> lex_lt(#[trigger] l[i], #[trigger] l[j])
}

/// The ascending listing of a finite set of strings.
pub open spec fn sorted_listing(s: Set<Seq<char>>) -> Seq<Seq<char>> {
    choose|l: Seq<Seq<char>>| sorted_distinct(l) && l.to_set() == s
}

proof fn lemma_sorted_first_is_least(l: Seq<Seq<char>>, x: Seq<char>)
    requires
        sorted_distinct(l),
        l.len() > 0,
        l.contains(x),
    ensures
        x == l[0] || lex_lt(l[0], x),
{
    let k = choose|k: int| 0 <= k < l.len() && l[k] == x;
    if k > 0 {
        assert(lex_lt(l[0], l[k]));
    }
}

/// Two ascending listings of the same set are the same listing.
pub proof fn lemma_sorted_listing_unique(l1: Seq<Seq<char>>, l2: Seq<Seq<char>>)
    requires
        sorted_distinct(l1),
        sorted_distinct(l2),
        l1.to_set() == l2.to_set(),
    ensures
        l1 == l2,
    decreases l1.len(),
{
    if l1.len() == 0 {
        if l2.len() > 0 {
            assert(l2.to_set().contains(l2[0]));
        }
        assert(l1 =~= l2);
    } else if l2.len() == 0 {
        assert(l1.to_set().contains(l1[0]));
    } else {
        assert(l1.to_set().contains(l1[0]));
        assert(l2.to_set().contains(l2[0]));
        lemma_sorted_first_is_least(l1, l2[0]);
        lemma_sorted_first_is_least(l2, l1[0]);
        lemma_lex_lt_trichotomy(l1[0], l2[0]);
        assert(l1[0] == l2[0]);
        let r1 = l1.drop_first();
        let r2 = l2.drop_first();
        assert(sorted_distinct(r1)) by {
            assert forall|i: int, j: int| 0 <= i < j < r1.len() implies lex_lt(
                #[trigger] r1[i],
                #[trigger] r1[j],
            ) by {
                assert(r1[i] == l1[i + 1] && r1[j] == l1[j + 1]);
            }
        }
        assert(sorted_distinct(r2)) by {
            assert forall|i: int, j: int| 0 <= i < j < r2.len() implies lex_lt(
                #[trigger] r2[i],
                #[trigger] r2[j],
            ) by {
                assert(r2[i] == l2[i + 1] && r2[j] == l2[j + 1]);
            }
        }
        assert(r1.to_set() =~= r2.to_set()) by {
            assert forall|x: Seq<char>| r1.to_set().contains(x) implies r2.to_set().contains(x) by {
                let k = choose|k: int| 0 <= k < r1.len() && r1[k] == x;
                assert(l1[k + 1] == x);
                assert(lex_lt(l1[0], l1[k + 1]));
                lemma_lex_lt_irreflexive(x);
                assert(l1.contains(x));
                assert(l2.to_set().contains(x));
                let m = choose|m: int| 0 <= m < l2.len() && l2[m] == x;
                assert(m != 0);
                assert(r2[m - 1] == x);
            }
            assert forall|x: Seq<char>| r2.to_set().contains(x) implies r1.to_set().contains(x) by {
                let k = choose|k: int| 0 <= k < r2.len() && r2[k] == x;
                assert(l2[k + 1] == x);
                assert(lex_lt(l2[0], l2[k + 1]));
                lemma_lex_lt_irreflexive(x);
                assert(l2.contains(x));
                assert(l1.to_set().contains(x));
                let m = choose|m: int| 0 <= m < l1.len() && l1[m] == x;
                assert(m != 0);
                assert(r1[m - 1] == x);
            }
        }
        lemma_sorted_listing_unique(r1, r2);
        assert(l1 =~= seq![l1[0]] + r1);
        assert(l2 =~= seq![l2[0]] + r2);
    }
}

/// A sorted listing of a set is the listing `sorted_listing` names.
pub proof fn lemma_is_sorted_listing(l: Seq<Seq<char>>)
    requires
        sorted_distinct(l),
    ensures
        sorted_listing(l.to_set()) == l,
{
    let c = sorted_listing(l.to_set());
    assert(sorted_distinct(c) && c.to_set() == l.to_set());
    lemma_sorted_listing_unique(c, l);
}

/// `l` with `x` put in its place (nothing changes if `x` is already there).
pub open spec fn insert_in_order(l: Seq<Seq<char>>, x: Seq<char>) -> Seq<Seq<char>>
    decreases l.len(),
{
    if l.len() == 0 {
        seq![x]
    } else if l[0] == x {
        l
    } else if lex_lt(x, l[0]) {
        seq![x] + l
    } else {
        seq![l[0]] + insert_in_order(l.drop_first(), x)
    }
}

proof fn lemma_insert_in_order(l: Seq<Seq<char>>, x: Seq<char>)
    requires
        sorted_distinct(l),
    ensures
        sorted_distinct(insert_in_order(l, x)),
        insert_in_order(l, x).to_set() == l.to_set().insert(x),
        forall|y: Seq<char>| #[trigger] insert_in_order(l, x).contains(y) ==> y == x || l.contains(y),
    decreases l.len(),
{
    let r = insert_in_order(l, x);
    if l.len() == 0 {
        assert(r.to_set() =~= l.to_set().insert(x)) by {
            assert(r[0] == x);
        }
    } else if l[0] == x {
        assert(r.to_set() =~= l.to_set().insert(x)) by {
            assert(l.contains(x));
        }
    } else {
        let t = l.drop_first();
        assert(sorted_distinct(t)) by {
            assert forall|i: int, j: int| 0 <= i < j < t.len() implies lex_lt(#[trigger] t[i], #[trigger] t[j]) by {
                assert(t[i] == l[i + 1] && t[j] == l[j + 1]);
            }
        }
        assert(l =~= seq![l[0]] + t);
        if lex_lt(x, l[0]) {
            assert(r =~= seq![x] + l);
            assert forall|i: int, j: int| 0 <= i < j < r.len() implies lex_lt(#[trigger] r[i], #[trigger] r[j]) by {
                if i == 0 {
                    if j > 1 {
                        assert(lex_lt(l[0], l[j - 1]));
                        lemma_lex_lt_transitive(x, l[0], l[j - 1]);
                    }
                } else {
                    assert(r[i] == l[i - 1] && r[j] == l[j - 1]);
                }
            }
            assert forall|y: Seq<char>| r.to_set().contains(y) <==> l.to_set().insert(x).contains(y) by {
                if r.to_set().contains(y) {
                    let k = choose|k: int| 0 <= k < r.len() && r[k] == y;
                    if k > 0 {
                        assert(l[k - 1] == y);
                    }
                }
                if l.to_set().contains(y) {
                    let k = choose|k: int| 0 <= k < l.len() && l[k] == y;
                    assert(r[k + 1] == y);
                }
                if y == x {
                    assert(r[0] == y);
                }
            }
            assert(r.to_set() =~= l.to_set().insert(x));
            assert forall|y: Seq<char>| #[trigger] r.contains(y) implies y == x || l.contains(y) by {
                let k = choose|k: int| 0 <= k < r.len() && r[k] == y;
                if k > 0 {
                    assert(l[k - 1] == y);
                }
            }
        } else {
            lemma_lex_lt_trichotomy(x, l[0]);
            lemma_insert_in_order(t, x);
            let rt = insert_in_order(t, x);
            assert(r =~= seq![l[0]] + rt);
            assert forall|i: int, j: int| 0 <= i < j < r.len() implies lex_lt(#[trigger] r[i], #[trigger] r[j]) by {
                if i == 0 {
                    assert(r[j] == rt[j - 1]);
                    assert(rt.contains(rt[j - 1]));
                    if rt[j - 1] != x {
                        assert(t.contains(rt[j - 1]));
                        let k = choose|k: int| 0 <= k < t.len() && t[k] == rt[j - 1];
                        assert(l[k + 1] == t[k]);
                    }
                } else {
                    assert(r[i] == rt[i - 1] && r[j] == rt[j - 1]);
                }
            }
            assert forall|y: Seq<char>| r.to_set().contains(y) <==> l.to_set().insert(x).contains(y) by {
                if r.to_set().contains(y) {
                    let k = choose|k: int| 0 <= k < r.len() && r[k] == y;
                    if k > 0 {
                        assert(rt[k - 1] == y);
                        assert(rt.to_set().contains(y));
                        if y != x {
                            assert(t.to_set().contains(y));
                            let m = choose|m: int| 0 <= m < t.len() && t[m] == y;
                            assert(l[m + 1] == y);
                        }
                    }
                }
                if l.to_set().contains(y) {
                    let k = choose|k: int| 0 <= k < l.len() && l[k] == y;
                    if k > 0 {
                        assert(t[k - 1] == y);
                        assert(t.to_set().contains(y));
                        assert(rt.to_set().contains(y));
                        let m = choose|m: int| 0 <= m < rt.len() && rt[m] == y;
                        assert(r[m + 1] == y);
                    } else {
                        assert(r[0] == y);
                    }
                }
                if y == x {
                    assert(rt.to_set().contains(y));
                    let m = choose|m: int| 0 <= m < rt.len() && rt[m] == y;
                    assert(r[m + 1] == y);
                }
            }
            assert(r.to_set() =~= l.to_set().insert(x));
            assert forall|y: Seq<char>| #[trigger] r.contains(y) implies y == x || l.contains(y) by {
                let k = choose|k: int| 0 <= k < r.len() && r[k] == y;
                if k > 0 {
                    assert(rt[k - 1] == y);
                    assert(rt.contains(y));
                    if y != x {
                        let m = choose|m: int| 0 <= m < t.len() && t[m] == y;
                        assert(l[m + 1] == y);
                    }
                }
            }
        }
    }
}

/// The strings of `items` inserted in order, one after the other.
pub open spec fn ordered_from(items: Seq<Seq<char>>) -> Seq<Seq<char>>
    decreases items.len(),
{
    if items.len() == 0 {
        Seq::empty()
    } else {
        insert_in_order(ordered_from(items.drop_last()), items.last())
    }
}

proof fn lemma_ordered_from(items: Seq<Seq<char>>)
    ensures
        sorted_distinct(ordered_from(items)),
        ordered_from(items).to_set() == items.to_set(),
    decreases items.len(),
{
    if items.len() == 0 {
        assert(ordered_from(items).to_set() =~= items.to_set());
    } else {
        let prev = items.drop_last();
        lemma_ordered_from(prev);
        lemma_insert_in_order(ordered_from(prev), items.last());
        assert(items =~= prev.push(items.last()));
        prev.lemma_push_to_set_commute(items.last());
    }
}

/// Every finite collection of strings has an ascending listing, and `sorted_listing` is it.
pub proof fn lemma_sorted_listing_exists(items: Seq<Seq<char>>)
    ensures
        sorted_distinct(sorted_listing(items.to_set())),
        sorted_listing(items.to_set()).to_set() == items.to_set(),
{
    lemma_ordered_from(items);
    lemma_is_sorted_listing(ordered_from(items));
}

/// Filtering an ascending list leaves it ascending.
pub proof fn lemma_filter_sorted(l: Seq<Seq<char>>, pred: spec_fn(Seq<char>) -> bool)
    requires
        sorted_distinct(l),
    ensures
        sorted_distinct(l.filter(pred)),
    decreases l.len(),
{
    if l.len() > 0 {
        let prev = l.drop_last();
        assert(sorted_distinct(prev)) by {
            assert forall|i: int, j: int| 0 <= i < j < prev.len() implies lex_lt(#[trigger] prev[i], #[trigger] prev[j]) by {
                assert(prev[i] == l[i] && prev[j] == l[j]);
            }
        }
        lemma_filter_sorted(prev, pred);
        assert(l =~= prev.push(l.last()));
        prev.lemma_filter_push(l.last(), pred);
        if pred(l.last()) {
            let f = prev.filter(pred);
            let r = f.push(l.last());
            assert forall|i: int, j: int| 0 <= i < j < r.len() implies lex_lt(#[trigger] r[i], #[trigger] r[j]) by {
                if j == f.len() {
                    assert(f.contains(f[i]));
                    prev.lemma_filter_contains_rev(pred, f[i]);
                    let k = choose|k: int| 0 <= k < prev.len() && prev[k] == f[i];
                    assert(l[k] == f[i]);
                    assert(lex_lt(l[k], l[l.len() - 1]));
                } else {
                    assert(r[i] == f[i] && r[j] == f[j]);
                }
            }
        }
    }
}

/// Inserts `s` into an ascending list, keeping it ascending and free of duplicates.
pub fn insert_sorted(v: &mut Vec<String>, s: String)
    requires
        sorted_distinct(old(v).deep_view()),
    ensures
        sorted_distinct(final(v).deep_view()),
        final(v).deep_view().to_set() == old(v).deep_view().to_set().insert(s@),
{
    let ghost old_dv = v.deep_view();
    let mut p: usize = 0;
    while p < v.len() && str_lt(v[p].as_str(), s.as_str())
        invariant
            p <= v@.len(),
            v.deep_view() == old_dv,
            forall|k: int| 0 <= k < p ==> lex_lt(#[trigger] old_dv[k], s@),
        decreases v@.len() - p,
    {
        p = p + 1;
    }
    if p < v.len() && crate::text::str_eq(v[p].as_str(), s.as_str()) {
        assert(old_dv.to_set().insert(s@) =~= old_dv.to_set()) by {
            assert(old_dv[p as int] == s@);
        }
        return;
    }
    let ghost sv = s@;
    v.insert(p, s);
    let ghost nv = v.deep_view();
    assert(nv =~= old_dv.take(p as int).push(sv) + old_dv.skip(p as int));
    proof {
        if p < old_dv.len() {
            lemma_lex_lt_trichotomy(old_dv[p as int], sv);
        }
        assert forall|i: int, j: int| 0 <= i < j < nv.len() implies lex_lt(
            #[trigger] nv[i],
            #[trigger] nv[j],
        ) by {
            if j < p {
            } else if j == p {
                assert(nv[i] == old_dv[i]);
            } else if i == p {
                assert(nv[j] == old_dv[j - 1]);
                if j - 1 > p {
                    assert(lex_lt(old_dv[p as int], old_dv[j - 1]));
                    lemma_lex_lt_transitive(sv, old_dv[p as int], old_dv[j - 1]);
                }
            } else if i < p {
                assert(nv[j] == old_dv[j - 1]);
                assert(nv[i] == old_dv[i]);
                assert(lex_lt(old_dv[i], old_dv[j - 1]));
            } else {
                assert(nv[j] == old_dv[j - 1]);
                assert(nv[i] == old_dv[i - 1]);
            }
        }
        assert forall|x: Seq<char>| nv.to_set().contains(x) <==> old_dv.to_set().insert(
            sv,
        ).contains(x) by {
            if nv.to_set().contains(x) {
                let k = choose|k: int| 0 <= k < nv.len() && nv[k] == x;
                if k < p {
                    assert(old_dv[k] == x);
                } else if k > p {
                    assert(old_dv[k - 1] == x);
                }
            }
            if old_dv.to_set().contains(x) {
                let k = choose|k: int| 0 <= k < old_dv.len() && old_dv[k] == x;
                if k < p {
                    assert(nv[k] == x);
                } else {
                    assert(nv[k + 1] == x);
                }
            }
            if x == sv {
                assert(nv[p as int] == x);
            }
        }
        assert(nv.to_set() =~= old_dv.to_set().insert(sv));
    }
}

/// The ascending, duplicate-free listing of the strings of `items`.
pub fn sorted_unique(items: &Vec<String>) -> (r: Vec<String>)
    ensures
        r.deep_view() == sorted_listing(items.deep_view().to_set()),
        sorted_distinct(r.deep_view()),
{
    let mut r: Vec<String> = Vec::new();
    let mut i: usize = 0;
    assert(r.deep_view().to_set() =~= items.deep_view().take(0).to_set());
    while i < items.len()
        invariant
            i <= items@.len(),
            sorted_distinct(r.deep_view()),
            r.deep_view().to_set() == items.deep_view().take(i as int).to_set(),
        decreases items@.len() - i,
    {
        insert_sorted(&mut r, items[i].clone());
        assert(items.deep_view().take(i + 1) =~= items.deep_view().take(i as int).push(
            items.deep_view()[i as int],
        ));
        proof {
            items.deep_view().take(i as int).lemma_push_to_set_commute(items.deep_view()[i as int]);
        }
        i = i + 1;
    }
    assert(items.deep_view().take(items@.len() as int) =~= items.deep_view());
    proof {
        lemma_is_sorted_listing(r.deep_view());
    }
    r
}

} // verus!
