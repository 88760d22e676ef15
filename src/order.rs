//! Lexicographic order on strings (by code point, as `str`'s `Ord` orders
//! them) and duplicate-free sorting.
use vstd::prelude::*;
use crate::text::{chars_of, views};

verus! {

/// `a` sorts strictly before `b`.
pub open spec fn lex_lt(a: Seq<char>, b: Seq<char>) -> bool
    decreases a.len(),
{
    if a.len() == 0 {
        b.len() > 0
    } else if b.len() == 0 {
        false
    } else if a[0] == b[0] {
        lex_lt(a.drop_first(), b.drop_first())
    } else {
        a[0] < b[0]
    }
}

/// Each element sorts strictly before every later one.
pub open spec fn strictly_sorted(s: Seq<Seq<char>>) -> bool {
    forall|i: int, j: int| 0 <= i < j < s.len() ==> lex_lt(s[i], s[j])
}

pub proof fn lemma_lex_irreflexive(a: Seq<char>)
    ensures
        !lex_lt(a, a),
    decreases a.len(),
{
    if a.len() > 0 {
        lemma_lex_irreflexive(a.drop_first());
    }
}

pub proof fn lemma_lex_total(a: Seq<char>, b: Seq<char>)
    ensures
        a != b ==> lex_lt(a, b) || lex_lt(b, a),
    decreases a.len(),
{
    if a.len() > 0 && b.len() > 0 && a[0] == b[0] {
        lemma_lex_total(a.drop_first(), b.drop_first());
        if a.drop_first() == b.drop_first() {
            assert(a =~= seq![a[0]] + a.drop_first());
            assert(b =~= seq![b[0]] + b.drop_first());
        }
    } else if a.len() == 0 && b.len() == 0 {
        assert(a =~= b);
    }
}

pub proof fn lemma_lex_transitive(a: Seq<char>, b: Seq<char>, c: Seq<char>)
    requires
        lex_lt(a, b),
        lex_lt(b, c),
    ensures
        lex_lt(a, c),
    decreases a.len(),
{
    if a.len() > 0 && b.len() > 0 && c.len() > 0 && a[0] == b[0] && b[0] == c[0] {
        lemma_lex_transitive(a.drop_first(), b.drop_first(), c.drop_first());
    }
}

/// The elements of `s` in increasing order, each once.
pub open spec fn sorted_of(s: Set<Seq<char>>) -> Seq<Seq<char>> {
    choose|q: Seq<Seq<char>>| strictly_sorted(q) && q.to_set() == s
}

/// A strictly sorted sequence is determined by its set of elements.
pub proof fn lemma_sorted_unique(a: Seq<Seq<char>>, b: Seq<Seq<char>>)
    requires
        strictly_sorted(a),
        strictly_sorted(b),
        a.to_set() == b.to_set(),
    ensures
        a == b,
    decreases a.len(),
{
    if a.len() == 0 {
        if b.len() > 0 {
            assert(b.to_set().contains(b[0]));
        }
        assert(a =~= b);
    } else {
        assert(a.to_set().contains(a[0]));
        assert(b.len() > 0);
        assert(b.to_set().contains(b[0]));
        let i = choose|i: int| 0 <= i < a.len() && a[i] == b[0];
        let j = choose|j: int| 0 <= j < b.len() && b[j] == a[0];
        if a[0] != b[0] {
            assert(i > 0 && j > 0);
            lemma_lex_transitive(a[0], a[i], b[j]);
            lemma_lex_irreflexive(a[0]);
        }
        let a1 = a.drop_first();
        let b1 = b.drop_first();
        assert forall|x: Seq<char>| a1.to_set().contains(x) <==> b1.to_set().contains(x) by {
            if a1.to_set().contains(x) {
                let k = choose|k: int| 0 <= k < a1.len() && a1[k] == x;
                assert(a[k + 1] == x);
                assert(lex_lt(a[0], x));
                lemma_lex_irreflexive(x);
                assert(b.to_set().contains(x));
                let m = choose|m: int| 0 <= m < b.len() && b[m] == x;
                assert(m != 0);
                assert(b1[m - 1] == x);
            }
            if b1.to_set().contains(x) {
                let k = choose|k: int| 0 <= k < b1.len() && b1[k] == x;
                assert(b[k + 1] == x);
                assert(lex_lt(b[0], x));
                lemma_lex_irreflexive(x);
                assert(a.to_set().contains(x));
                let m = choose|m: int| 0 <= m < a.len() && a[m] == x;
                assert(m != 0);
                assert(a1[m - 1] == x);
            }
        }
        assert(a1.to_set() =~= b1.to_set());
        lemma_sorted_unique(a1, b1);
        assert(a =~= seq![a[0]] + a1);
        assert(b =~= seq![b[0]] + b1);
    }
}

/// Whether `a` sorts strictly before `b`.
pub fn less(a: &Vec<char>, b: &Vec<char>) -> (r: bool)
    ensures
        r == lex_lt(a@, b@),
{
    let mut i: usize = 0;
    assert(a@.skip(0) =~= a@);
    assert(b@.skip(0) =~= b@);
    while i < a.len() && i < b.len()
        invariant
            i <= a@.len(),
            i <= b@.len(),
            lex_lt(a@, b@) == lex_lt(a@.skip(i as int), b@.skip(i as int)),
        decreases a@.len() - i,
    {
        assert(a@.skip(i as int)[0] == a@[i as int]);
        assert(b@.skip(i as int)[0] == b@[i as int]);
        if a[i] != b[i] {
            return a[i] < b[i];
        }
        assert(a@.skip(i as int).drop_first() =~= a@.skip(i + 1));
        assert(b@.skip(i as int).drop_first() =~= b@.skip(i + 1));
        i = i + 1;
    }
    i == a.len() && i < b.len()
}

/// The distinct strings of `items`, sorted.
pub fn unique_sorted(items: &Vec<String>) -> (r: Vec<String>)
    ensures
        strictly_sorted(views(r@)),
        views(r@).to_set() == views(items@).to_set(),
        views(r@) == sorted_of(views(items@).to_set()),
{
    let mut out: Vec<String> = Vec::new();
    let mut k: usize = 0;
    while k < items.len()
        invariant
            k <= items@.len(),
            strictly_sorted(views(out@)),
            forall|y: Seq<char>| views(out@).contains(y) <==> views(items@).take(k as int).contains(y),
        decreases items@.len() - k,
    {
        let x = &items[k];
        let xc = chars_of(x.as_str());
        let mut p: usize = 0;
        let mut scanning = true;
        while scanning && p < out.len()
            invariant
                p <= out@.len(),
                xc@ == x@,
                forall|i: int| 0 <= i < p ==> lex_lt(views(out@)[i], x@),
                !scanning ==> p < out@.len() && !lex_lt(views(out@)[p as int], x@),
            decreases out@.len() - p, if scanning { 1int } else { 0int },
        {
            let oc = chars_of(out[p].as_str());
            assert(oc@ == views(out@)[p as int]);
            if less(&oc, &xc) {
                p = p + 1;
            } else {
                scanning = false;
            }
        }
        let ghost old_out = views(out@);
        let ghost pre = views(items@).take(k as int);
        let ghost post = views(items@).take(k + 1);
        assert(post =~= pre.push(x@));
        if p < out.len() && out[p] == *x {
            assert forall|y: Seq<char>| views(out@).contains(y) <==> post.contains(y) by {
                if post.contains(y) {
                    let j = choose|j: int| 0 <= j < post.len() && post[j] == y;
                    if j < pre.len() {
                        assert(pre[j] == y);
                    } else {
                        assert(old_out[p as int] == y);
                    }
                }
                if views(out@).contains(y) {
                    assert(pre.contains(y));
                    let j = choose|j: int| 0 <= j < pre.len() && pre[j] == y;
                    assert(post[j] == y);
                }
            }
        } else {
            proof {
                if p < out@.len() {
                    lemma_lex_total(x@, old_out[p as int]);
                }
            }
            assert(forall|y: Seq<char>| old_out.contains(y) <==> pre.contains(y));
            out.insert(p, x.clone());
            let ghost new_out = views(out@);
            assert(new_out =~= old_out.insert(p as int, x@));
            assert forall|i: int, j: int| 0 <= i < j < new_out.len() implies lex_lt(
                new_out[i],
                new_out[j],
            ) by {
                if j == p {
                } else if i == p {
                    if j - 1 > p {
                        lemma_lex_transitive(x@, old_out[p as int], old_out[j - 1]);
                    }
                } else if i > p {
                } else if j > p {
                }
            }
            assert forall|y: Seq<char>| new_out.contains(y) <==> post.contains(y) by {
                if post.contains(y) {
                    let j = choose|j: int| 0 <= j < post.len() && post[j] == y;
                    if j < pre.len() {
                        assert(pre[j] == y);
                        assert(old_out.contains(y));
                        let m = choose|m: int| 0 <= m < old_out.len() && old_out[m] == y;
                        if m < p {
                            assert(new_out[m] == y);
                        } else {
                            assert(new_out[m + 1] == y);
                        }
                    } else {
                        assert(new_out[p as int] == y);
                    }
                }
                if new_out.contains(y) {
                    let m = choose|m: int| 0 <= m < new_out.len() && new_out[m] == y;
                    if m < p {
                        assert(old_out[m] == y);
                        assert(old_out.contains(y));
                    } else if m == p {
                        assert(post[k as int] == y);
                    } else {
                        assert(old_out[m - 1] == y);
                        assert(old_out.contains(y));
                    }
                    if pre.contains(y) {
                        let j = choose|j: int| 0 <= j < pre.len() && pre[j] == y;
                        assert(post[j] == y);
                    }
                }
            }
        }
        k = k + 1;
    }
    assert(views(items@).take(k as int) =~= views(items@));
    assert(views(out@).to_set() =~= views(items@).to_set());
    proof {
        let q = sorted_of(views(items@).to_set());
        assert(strictly_sorted(q) && q.to_set() == views(items@).to_set());
        lemma_sorted_unique(views(out@), q);
    }
    out
}

} // verus!
