//! The order of texts as `String`'s `Ord` compares them (character by
//! character, a prefix first), and sorting texts in that order.
use vstd::prelude::*;
use crate::text::views;

verus! {

/// Whether `a` comes before `b` or equals it, character by character.
pub open spec fn text_le(a: Seq<char>, b: Seq<char>) -> bool
    decreases a.len(),
{
    if a.len() == 0 {
        true
    } else if b.len() == 0 {
        false
    } else if a[0] != b[0] {
        a[0] < b[0]
    } else {
        text_le(a.drop_first(), b.drop_first())
    }
}

/// Whether the texts `s` are in order.
pub open spec fn texts_sorted(s: Seq<Seq<char>>) -> bool {
    forall|i: int, j: int| 0 <= i < j < s.len() ==> text_le(#[trigger] s[i], #[trigger] s[j])
}

/// Of two texts, one comes before the other or equals it.
pub proof fn lemma_text_le_total(a: Seq<char>, b: Seq<char>)
    ensures
        text_le(a, b) || text_le(b, a),
    decreases a.len(),
{
    if a.len() > 0 && b.len() > 0 && a[0] == b[0] {
        lemma_text_le_total(a.drop_first(), b.drop_first());
    }
}

/// The order is transitive.
pub proof fn lemma_text_le_transitive(a: Seq<char>, b: Seq<char>, c: Seq<char>)
    requires
        text_le(a, b),
        text_le(b, c),
    ensures
        text_le(a, c),
    decreases a.len(),
{
    if a.len() > 0 && b.len() > 0 && c.len() > 0 && a[0] == b[0] && b[0] == c[0] {
        lemma_text_le_transitive(a.drop_first(), b.drop_first(), c.drop_first());
    }
}

/// Texts that come before each other are equal.
pub proof fn lemma_text_le_antisymmetric(a: Seq<char>, b: Seq<char>)
    requires
        text_le(a, b),
        text_le(b, a),
    ensures
        a == b,
    decreases a.len(),
{
    if a.len() > 0 && b.len() > 0 {
        lemma_text_le_antisymmetric(a.drop_first(), b.drop_first());
        assert(a =~= seq![a[0]] + a.drop_first());
        assert(b =~= seq![b[0]] + b.drop_first());
    }
}

/// Whether `a` comes before `b` or equals it.
pub fn text_le_chars(a: &[char], b: &[char]) -> (r: bool)
    ensures
        r == text_le(a@, b@),
{
    let n = a.len();
    let m = b.len();
    let mut i: usize = 0;
    assert(a@.skip(0) =~= a@);
    assert(b@.skip(0) =~= b@);
    while i < n && i < m && a[i] == b[i]
        invariant
            i <= n,
            i <= m,
            n == a@.len(),
            m == b@.len(),
            text_le(a@, b@) == text_le(a@.skip(i as int), b@.skip(i as int)),
        decreases n - i,
    {
        assert(a@.skip(i as int).drop_first() =~= a@.skip(i as int + 1));
        assert(b@.skip(i as int).drop_first() =~= b@.skip(i as int + 1));
        i = i + 1;
    }
    if i == n {
        true
    } else if i == m {
        false
    } else {
        assert(a@.skip(i as int)[0] == a@[i as int]);
        assert(b@.skip(i as int)[0] == b@[i as int]);
        a[i] < b[i]
    }
}

/// The texts `v` in order: the same texts, each as often, sorted.
pub fn sort_texts(v: Vec<Vec<char>>) -> (r: Vec<Vec<char>>)
    ensures
        texts_sorted(views(r@)),
        views(r@).to_multiset() == views(v@).to_multiset(),
{
    let ghost orig = views(v@);
    let mut out: Vec<Vec<char>> = Vec::new();
    let n = v.len();
    let mut i: usize = 0;
    assert(views(out@) =~= orig.take(0));
    while i < n
        invariant
            i <= n,
            n == v@.len(),
            orig == views(v@),
            texts_sorted(views(out@)),
            views(out@).to_multiset() == orig.take(i as int).to_multiset(),
        decreases n - i,
    {
        let x = v[i].clone();
        let ghost xv = x@;
        assert(xv == orig[i as int]);
        let ghost ov = views(out@);
        let m = out.len();
        let mut p: usize = 0;
        while p < m
            invariant
                p <= m,
                m == out@.len(),
                ov == views(out@),
                xv == x@,
                forall|k: int| 0 <= k < p ==> text_le(#[trigger] ov[k], xv),
            ensures
                p <= m,
                forall|k: int| 0 <= k < p ==> text_le(#[trigger] ov[k], xv),
                p < m ==> !text_le(ov[p as int], xv),
            decreases m - p,
        {
            assert(ov[p as int] == out@[p as int]@);
            if text_le_chars(out[p].as_slice(), x.as_slice()) {
                p = p + 1;
            } else {
                break;
            }
        }
        proof {
            if p < m {
                assert(!text_le(ov[p as int], xv));
                lemma_text_le_total(ov[p as int], xv);
                assert forall|k: int| p <= k < m implies text_le(xv, #[trigger] ov[k]) by {
                    if k > p {
                        lemma_text_le_transitive(xv, ov[p as int], ov[k]);
                    }
                }
            }
        }
        out.insert(p, x);
        proof {
            let nv = views(out@);
            assert(nv =~= ov.insert(p as int, xv));
            assert forall|a: int, b: int| 0 <= a < b < nv.len() implies text_le(
                #[trigger] nv[a],
                #[trigger] nv[b],
            ) by {
                if a < p && b < p {
                } else if a < p && b == p {
                } else if a < p && b > p {
                    assert(nv[b] == ov[b - 1]);
                } else if a == p {
                    assert(nv[b] == ov[b - 1]);
                } else {
                    assert(nv[a] == ov[a - 1] && nv[b] == ov[b - 1]);
                }
            }
            vstd::seq_lib::to_multiset_insert(ov, p as int, xv);
            assert(orig.take(i as int + 1) =~= orig.take(i as int).push(xv));
            vstd::seq_lib::to_multiset_build(orig.take(i as int), xv);
        }
        i = i + 1;
    }
    assert(orig.take(n as int) =~= orig);
    out
}


/// Whether the numbers `s` are in ascending order.
pub open spec fn ints_sorted(s: Seq<i32>) -> bool {
    forall|i: int, j: int| 0 <= i < j < s.len() ==> #[trigger] s[i] <= #[trigger] s[j]
}

/// The numbers `v` in ascending order: the same numbers, each as often.
pub fn sort_ints(v: Vec<i32>) -> (r: Vec<i32>)
    ensures
        ints_sorted(r@),
        r@.to_multiset() == v@.to_multiset(),
{
    let mut out: Vec<i32> = Vec::new();
    let n = v.len();
    let mut i: usize = 0;
    assert(out@ =~= v@.take(0));
    while i < n
        invariant
            i <= n,
            n == v@.len(),
            ints_sorted(out@),
            out@.to_multiset() == v@.take(i as int).to_multiset(),
        decreases n - i,
    {
        let x = v[i];
        let ghost ov = out@;
        let m = out.len();
        let mut p: usize = 0;
        while p < m && out[p] <= x
            invariant
                p <= m,
                m == out@.len(),
                ov == out@,
                forall|k: int| 0 <= k < p ==> #[trigger] ov[k] <= x,
            decreases m - p,
        {
            p = p + 1;
        }
        out.insert(p, x);
        proof {
            let nv = out@;
            assert(nv =~= ov.insert(p as int, x));
            assert forall|a: int, b: int| 0 <= a < b < nv.len() implies #[trigger] nv[a] <= #[trigger] nv[b] by {
                if a < p && b < p {
                } else if a < p && b == p {
                } else if a < p && b > p {
                    assert(nv[b] == ov[b - 1]);
                } else if a == p {
                    assert(nv[b] == ov[b - 1]);
                    assert(ov[p as int] > x);
                } else {
                    assert(nv[a] == ov[a - 1] && nv[b] == ov[b - 1]);
                }
            }
            vstd::seq_lib::to_multiset_insert(ov, p as int, x);
            assert(v@.take(i as int + 1) =~= v@.take(i as int).push(x));
            vstd::seq_lib::to_multiset_build(v@.take(i as int), x);
        }
        i = i + 1;
    }
    assert(v@.take(n as int) =~= v@);
    out
}

} // verus!
