//! XML escaping for the property-list report.
use vstd::prelude::*;
use vstd::string::{StrSliceExecFns, StringExecFns};

verus! {

/// The five characters that XML reserves.
pub open spec fn is_reserved(c: char) -> bool {
    c == '&' || c == '<' || c == '>' || c == '"' || c == '\''
}

/// The text that stands for `c` in an XML document.
pub open spec fn escape_char(c: char) -> Seq<char> {
    if c == '&' {
        "&amp;"@
    } else if c == '<' {
        "&lt;"@
    } else if c == '>' {
        "&gt;"@
    } else if c == '"' {
        "&quot;"@
    } else if c == '\'' {
        "&apos;"@
    } else {
        seq![c]
    }
}

/// `s` with each reserved character replaced by its named entity.
pub open spec fn escape(s: Seq<char>) -> Seq<char>
    decreases s.len(),
{
    if s.len() == 0 {
        seq![]
    } else {
        escape(s.drop_last()) + escape_char(s.last())
    }
}

/// Text without reserved characters is left as it is.
pub proof fn lemma_escape_plain(s: Seq<char>)
    requires
        forall|i: int| 0 <= i < s.len() ==> !is_reserved(s[i]),
    ensures
        escape(s) == s,
    decreases s.len(),
{
    if s.len() > 0 {
        lemma_escape_plain(s.drop_last());
        assert(s.drop_last() + seq![s.last()] =~= s);
    }
}

/// Escaping works character by character: the escape of a concatenation is
/// the concatenation of the escapes.
pub proof fn lemma_escape_concat(a: Seq<char>, b: Seq<char>)
    ensures
        escape(a + b) == escape(a) + escape(b),
    decreases b.len(),
{
    if b.len() == 0 {
        assert(a + b =~= a);
        assert(escape(a) + escape(b) =~= escape(a));
    } else {
        assert((a + b).drop_last() =~= a + b.drop_last());
        lemma_escape_concat(a, b.drop_last());
        assert(escape(a) + escape(b.drop_last()) + escape_char(b.last()) =~= escape(a) + (escape(
            b.drop_last(),
        ) + escape_char(b.last())));
    }
}

proof fn lemma_escape_cons(c: char, rest: Seq<char>)
    ensures
        escape(seq![c] + rest) == escape_char(c) + escape(rest),
{
    lemma_escape_concat(seq![c], rest);
    assert(seq![c].drop_last() =~= Seq::<char>::empty());
    assert(escape(seq![c].drop_last()) == Seq::<char>::empty());
    assert(escape(seq![c]) =~= escape_char(c));
}

proof fn lemma_escape_char_prefix_free(c: char, d: char, t: Seq<char>, u: Seq<char>)
    requires
        escape_char(c) + t == escape_char(d) + u,
    ensures
        c == d,
        t == u,
{
    reveal_strlit("&amp;");
    reveal_strlit("&lt;");
    reveal_strlit("&gt;");
    reveal_strlit("&quot;");
    reveal_strlit("&apos;");
    let x = escape_char(c) + t;
    let y = escape_char(d) + u;
    assert(x[0] == y[0]);
    assert(x.len() == y.len());
    if c != d {
        if is_reserved(c) && is_reserved(d) {
            assert(x[1] == y[1]);
            assert(x[2] == y[2]);
        }
        assert(false);
    }
    assert(t =~= x.skip(escape_char(c).len() as int));
    assert(u =~= y.skip(escape_char(d).len() as int));
}

/// Escaping loses nothing: different texts have different escapes, so an
/// escaped key or value read back from a document determines the original.
pub proof fn lemma_escape_injective(a: Seq<char>, b: Seq<char>)
    requires
        escape(a) == escape(b),
    ensures
        a == b,
    decreases a.len(),
{
    if a.len() == 0 || b.len() == 0 {
        reveal_strlit("&amp;");
        reveal_strlit("&lt;");
        reveal_strlit("&gt;");
        reveal_strlit("&quot;");
        reveal_strlit("&apos;");
        assert(escape(Seq::<char>::empty()) == Seq::<char>::empty());
        if a.len() > 0 {
            assert(a =~= seq![a[0]] + a.drop_first());
            lemma_escape_cons(a[0], a.drop_first());
            assert(escape_char(a[0]).len() > 0);
        }
        if b.len() > 0 {
            assert(b =~= seq![b[0]] + b.drop_first());
            lemma_escape_cons(b[0], b.drop_first());
            assert(escape_char(b[0]).len() > 0);
        }
        assert(a =~= b);
    } else {
        assert(a =~= seq![a[0]] + a.drop_first());
        assert(b =~= seq![b[0]] + b.drop_first());
        lemma_escape_cons(a[0], a.drop_first());
        lemma_escape_cons(b[0], b.drop_first());
        lemma_escape_char_prefix_free(a[0], b[0], escape(a.drop_first()), escape(b.drop_first()));
        lemma_escape_injective(a.drop_first(), b.drop_first());
    }
}

/// Escaped text holds no `>`.
pub proof fn lemma_escape_no_gt(s: Seq<char>)
    ensures
        forall|i: int| 0 <= i < escape(s).len() ==> escape(s)[i] != '>',
    decreases s.len(),
{
    reveal_strlit("&amp;");
    reveal_strlit("&lt;");
    reveal_strlit("&gt;");
    reveal_strlit("&quot;");
    reveal_strlit("&apos;");
    if s.len() > 0 {
        lemma_escape_no_gt(s.drop_last());
        let e = escape(s.drop_last());
        let c = escape_char(s.last());
        assert forall|i: int| 0 <= i < (e + c).len() implies (e + c)[i] != '>' by {
            if i >= e.len() {
                assert((e + c)[i] == c[i - e.len()]);
            }
        }
    }
}

/// Where `x1 + e1 + s == x2 + e2 + s`, both `x` end in `>` and neither `e`
/// holds one, the two splits are the same.
pub proof fn lemma_split_after_gt(
    x1: Seq<char>,
    e1: Seq<char>,
    x2: Seq<char>,
    e2: Seq<char>,
    s: Seq<char>,
)
    requires
        x1 + e1 + s == x2 + e2 + s,
        x1.len() > 0 && x1.last() == '>',
        x2.len() > 0 && x2.last() == '>',
        forall|i: int| 0 <= i < e1.len() ==> e1[i] != '>',
        forall|i: int| 0 <= i < e2.len() ==> e2[i] != '>',
    ensures
        x1 == x2,
        e1 == e2,
{
    let t1 = x1 + e1 + s;
    let t2 = x2 + e2 + s;
    let n = t1.len();
    assert(x1 + e1 =~= t1.take(n - s.len()));
    assert(x2 + e2 =~= t2.take(n - s.len()));
    let y1 = x1 + e1;
    let y2 = x2 + e2;
    assert(y1 == y2);
    if e1.len() < e2.len() {
        let p = x1.len() - 1;
        assert(y1[p] == '>');
        assert(y2[p] == e2[p - x2.len()]);
    }
    if e2.len() < e1.len() {
        let p = x2.len() - 1;
        assert(y2[p] == '>');
        assert(y1[p] == e1[p - x1.len()]);
    }
    assert(e1 =~= y1.skip(x1.len() as int));
    assert(e2 =~= y2.skip(x2.len() as int));
    assert(x1 =~= y1.take(x1.len() as int));
    assert(x2 =~= y2.take(x2.len() as int));
}

/// `s` with `&`, `<`, `>`, `"` and `'` replaced by their named entities.
pub fn escape_xml(s: &str) -> (r: String)
    ensures
        r@ == escape(s@),
{
    let n: usize = s.unicode_len();
    let mut r = String::new();
    let mut i: usize = 0;
    while i < n
        invariant
            n == s@.len(),
            i <= n,
            r@ == escape(s@.take(i as int)),
        decreases n - i,
    {
        let c = s.get_char(i);
        if c == '&' {
            r.append("&amp;");
        } else if c == '<' {
            r.append("&lt;");
        } else if c == '>' {
            r.append("&gt;");
        } else if c == '"' {
            r.append("&quot;");
        } else if c == '\'' {
            r.append("&apos;");
        } else {
            let one = s.substring_char(i, i + 1);
            assert(one@ =~= seq![c]);
            r.append(one);
        }
        assert(s@.take(i + 1).drop_last() =~= s@.take(i as int));
        i = i + 1;
    }
    assert(s@.take(i as int) =~= s@);
    r
}

} // verus!
