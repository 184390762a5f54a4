//! The order of texts, & sorting them.

use vstd::prelude::*;

use crate::text;

verus! {

/// Whether `a` from index `i` on comes no later than `b` from there on.
pub open spec fn ordered_from(a: Seq<char>, b: Seq<char>, i: int) -> bool
    decreases a.len() - i,
{
    if i < 0 || i >= a.len() {
        true
    } else if i >= b.len() {
        false
    } else if a[i] != b[i] {
        a[i] < b[i]
    } else {
        ordered_from(a, b, i + 1)
    }
}

/// Whether `a` comes no later than `b`: texts are ordered by the first character in which they differ.
pub open spec fn ordered(a: Seq<char>, b: Seq<char>) -> bool {
    ordered_from(a, b, 0)
}

/// Whether texts are in order.
pub open spec fn in_order(s: Seq<Seq<char>>) -> bool {
    forall|i: int, j: int|
        #![trigger s[i], s[j]]
        0 <= i < j < s.len() ==> ordered(s[i], s[j])
}

/// Whether `r` is `s`, sorted.
pub open spec fn is_sorting(s: Seq<Seq<char>>, r: Seq<Seq<char>>) -> bool {
    in_order(r) && r.to_multiset() == s.to_multiset()
}

/// Whether `a` comes no later than `b`.
fn is_ordered(a: &str, b: &str) -> (r: bool)
    ensures
        r == ordered(a@, b@),
{
    let v = text::chars_of(a);
    let w = text::chars_of(b);
    let mut i: usize = 0;
    while i < v.len()
        invariant
            v@ == a@,
            w@ == b@,
            i <= v@.len(),
            ordered(a@, b@) == ordered_from(a@, b@, i as int),
        decreases v@.len() - i,
    {
        if i >= w.len() {
            return false;
        }
        if v[i] != w[i] {
            return v[i] < w[i];
        }
        i = i + 1;
    }
    true
}

/// The texts, sorted.
pub fn sort(v: Vec<String>) -> (r: Vec<String>)
    ensures
        is_sorting(text::texts(v@), text::texts(r@)),
{
    let ghost all = text::texts(v@);
    let mut r: Vec<String> = Vec::new();
    let mut k: usize = 0;
    proof {
        assert(all.take(0) =~= text::texts(r@));
    }
    while k < v.len()
        invariant
            all == text::texts(v@),
            k <= v@.len(),
            is_sorting(all.take(k as int), text::texts(r@)),
        decreases v@.len() - k,
    {
        let ghost done = text::texts(r@);
        let x = v[k].clone();
        let mut j: usize = 0;
        while j < r.len() && is_ordered(r[j].as_str(), x.as_str())
            invariant
                j <= r@.len(),
                done == text::texts(r@),
                forall|i: int| 0 <= i < j ==> ordered(#[trigger] done[i], x@),
            ensures
                j <= r@.len(),
                forall|i: int| 0 <= i < j ==> ordered(#[trigger] done[i], x@),
                j < r@.len() ==> !ordered(done[j as int], x@),
            decreases r@.len() - j,
        {
            assert(done[j as int] == r@[j as int]@);
            j = j + 1;
        }
        r.insert(j, x);
        proof {
            assert(text::texts(r@) =~= done.insert(j as int, x@));
            lemma_insert(done, j as int, x@);
            assert(all.take(k + 1) =~= all.take(k as int).push(x@));
            vstd::seq_lib::to_multiset_build(all.take(k as int), x@);
        }
        k = k + 1;
    }
    assert(all.take(k as int) =~= all);
    r
}

proof fn lemma_insert(s: Seq<Seq<char>>, j: int, x: Seq<char>)
    requires
        in_order(s),
        0 <= j <= s.len(),
        forall|i: int| 0 <= i < j ==> ordered(#[trigger] s[i], x),
        j < s.len() ==> !ordered(s[j], x),
    ensures
        in_order(s.insert(j, x)),
        s.insert(j, x).to_multiset() == s.to_multiset().insert(x),
{
    let t = s.insert(j, x);
    assert forall|a: int, b: int|
        #![trigger t[a], t[b]]
        0 <= a < b < t.len() implies ordered(t[a], t[b]) by {
        if a == j {
            lemma_total(s[j], x, 0);
            if b > j + 1 {
                assert(ordered(s[j], s[b - 1]));
                lemma_transitive(x, s[j], s[b - 1], 0);
            }
        } else if b == j {
            assert(t[a] == s[a]);
        } else {
            let p = if a < j {
                a
            } else {
                a - 1
            };
            let q = if b < j {
                b
            } else {
                b - 1
            };
            assert(t[a] == s[p] && t[b] == s[q]);
        }
    }
    assert(t.remove(j) =~= s);
    assert(t[j] == x);
    vstd::seq_lib::to_multiset_remove(t, j);
    t.to_multiset_ensures();
    assert(t.contains(x));
    assert(t.to_multiset() =~= s.to_multiset().insert(x));
}

proof fn lemma_total(a: Seq<char>, b: Seq<char>, i: int)
    requires
        0 <= i,
        !ordered_from(a, b, i),
    ensures
        ordered_from(b, a, i),
    decreases a.len() - i,
{
    if i < a.len() && i < b.len() && a[i] == b[i] {
        lemma_total(a, b, i + 1);
    }
}

proof fn lemma_transitive(a: Seq<char>, b: Seq<char>, c: Seq<char>, i: int)
    requires
        0 <= i,
        ordered_from(a, b, i),
        ordered_from(b, c, i),
    ensures
        ordered_from(a, c, i),
    decreases a.len() - i,
{
    if i < a.len() && i < b.len() && i < c.len() && a[i] == b[i] && b[i] == c[i] {
        lemma_transitive(a, b, c, i + 1);
    }
}

proof fn lemma_reflexive(a: Seq<char>, i: int)
    ensures
        ordered_from(a, a, i),
    decreases a.len() - i,
{
    if 0 <= i < a.len() {
        lemma_reflexive(a, i + 1);
    }
}

proof fn lemma_antisymmetric(a: Seq<char>, b: Seq<char>, i: int)
    requires
        0 <= i <= a.len(),
        i <= b.len(),
        forall|j: int| 0 <= j < i ==> a[j] == b[j],
        ordered_from(a, b, i),
        ordered_from(b, a, i),
    ensures
        a == b,
    decreases a.len() - i,
{
    if i < a.len() && i < b.len() && a[i] == b[i] {
        lemma_antisymmetric(a, b, i + 1);
    } else {
        assert(a =~= b);
    }
}

// ---------------------------------------------------------------------------------------------
// Laws
// ---------------------------------------------------------------------------------------------

/// Texts can be sorted in one way only.
pub proof fn law_one_sorting(s: Seq<Seq<char>>, a: Seq<Seq<char>>, b: Seq<Seq<char>>)
    requires
        is_sorting(s, a),
        is_sorting(s, b),
    ensures
        a == b,
{
    let leq = |x: Seq<char>, y: Seq<char>| ordered(x, y);
    assert forall|x: Seq<char>| #[trigger] leq(x, x) by {
        lemma_reflexive(x, 0);
    }
    assert forall|x: Seq<char>, y: Seq<char>| #[trigger] leq(x, y) && #[trigger] leq(y, x) implies x
        == y by {
        lemma_antisymmetric(x, y, 0);
    }
    assert forall|x: Seq<char>, y: Seq<char>, z: Seq<char>| #[trigger]
        leq(x, y) && #[trigger] leq(y, z) implies leq(x, z) by {
        lemma_transitive(x, y, z, 0);
    }
    assert forall|x: Seq<char>, y: Seq<char>| #[trigger] leq(x, y) || #[trigger] leq(y, x) by {
        if !leq(x, y) {
            lemma_total(x, y, 0);
        }
    }
    assert(vstd::relations::sorted_by(a, leq));
    assert(vstd::relations::sorted_by(b, leq));
    vstd::seq_lib::lemma_sorted_unique(a, b, leq);
}

/// Texts are in the order of a dictionary: a text comes before what it is the start of, & of two texts that
/// are the same up to a character, that with the lesser character comes first.
pub proof fn law_dictionary(p: Seq<char>, c: char, x: Seq<char>, d: char, y: Seq<char>)
    ensures
        ordered(p, p + x),
        x.len() > 0 ==> !ordered(p + x, p),
        c < d ==> ordered(p.push(c) + x, p.push(d) + y),
        c < d ==> !ordered(p.push(d) + y, p.push(c) + x),
{
    lemma_same_start(p, p + x, 0, p.len() as int);
    lemma_same_start(p + x, p, 0, p.len() as int);
    let (a, b) = (p.push(c) + x, p.push(d) + y);
    assert forall|k: int| 0 <= k < p.len() implies #[trigger] a[k] == b[k] by {
        assert(a[k] == p[k] && b[k] == p[k]);
    }
    assert(a[p.len() as int] == c && b[p.len() as int] == d);
    lemma_same_start(a, b, 0, p.len() as int);
    lemma_same_start(b, a, 0, p.len() as int);
}

proof fn lemma_same_start(a: Seq<char>, b: Seq<char>, i: int, n: int)
    requires
        0 <= i <= n <= a.len(),
        n <= b.len(),
        forall|k: int| 0 <= k < n ==> #[trigger] a[k] == b[k],
    ensures
        ordered_from(a, b, i) == ordered_from(a, b, n),
    decreases n - i,
{
    if i < n {
        lemma_same_start(a, b, i + 1, n);
    }
}

} // verus!
