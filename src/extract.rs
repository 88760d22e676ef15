//! Heuristic extraction of driver references from single lines of build
//! configuration and device-tree source text.
use vstd::prelude::*;
use crate::text::{
    chars_of, substring, ends_with, ends_with_seq, is_whitespace, trim_bounds, views, find, find_from, find_seq, find_seq_from, is_ws, lemma_find_from_sound,
    trim,
};

verus! {

/// The double-quote character as a pattern.
pub open spec fn quote() -> Seq<char> {
    seq!['"']
}

/// The `:=` assignment operator.
pub open spec fn colon_eq() -> Seq<char> {
    seq![':', '=']
}

/// The `=` assignment operator.
pub open spec fn eq_sign() -> Seq<char> {
    seq!['=']
}

/// The package prefix that marks a HAL reference.
pub open spec fn hal_prefix() -> Seq<char> {
    seq!['a', 'n', 'd', 'r', 'o', 'i', 'd', '.', 'h', 'a', 'r', 'd', 'w', 'a', 'r', 'e', '.']
}

/// The kernel-module file extension.
pub open spec fn ko_ext() -> Seq<char> {
    seq!['.', 'k', 'o']
}

/// The text between the first and the second double quote of `line`.
pub open spec fn compatible_of(line: Seq<char>) -> Option<Seq<char>> {
    match find(line, quote()) {
        Some(a) => match find_from(line, quote(), a + 1) {
            Some(b) => Some(line.subrange(a + 1, b)),
            None => None,
        },
        None => None,
    }
}

/// Where the value of an assignment starts: after the first `:=`, else after
/// the first `=`.
pub open spec fn value_start(line: Seq<char>) -> Option<int> {
    match find(line, colon_eq()) {
        Some(p) => Some(p + 2),
        None => match find(line, eq_sign()) {
            Some(p) => Some(p + 1),
            None => None,
        },
    }
}

/// The trimmed value of an assignment line, when there is one and it is not
/// empty.
pub open spec fn assignment_value(line: Seq<char>) -> Option<Seq<char>> {
    match value_start(line) {
        Some(k) => if trim(line.skip(k)).len() > 0 {
            Some(trim(line.skip(k)))
        } else {
            None
        },
        None => None,
    }
}

/// The first position at or after `k` holding whitespace, or the length.
pub open spec fn ws_from(s: Seq<char>, k: int) -> int
    decreases s.len() - k,
{
    if k < 0 || k >= s.len() {
        s.len() as int
    } else if is_ws(s[k]) {
        k
    } else {
        ws_from(s, k + 1)
    }
}

/// The HAL package named on `line`: from `android.hardware.` up to the next
/// whitespace or the end of the line.
pub open spec fn hal_of(line: Seq<char>) -> Option<Seq<char>> {
    match find(line, hal_prefix()) {
        Some(a) => Some(line.subrange(a, ws_from(line, a))),
        None => None,
    }
}

/// The whitespace-separated tokens of `s`, as `str::split_whitespace` yields
/// them.
pub open spec fn tokens(s: Seq<char>) -> Seq<Seq<char>>
    decreases s.len(),
{
    if s.len() == 0 {
        seq![]
    } else {
        let t = tokens(s.drop_last());
        let c = s.last();
        if is_ws(c) {
            t
        } else if s.len() >= 2 && !is_ws(s[s.len() - 2]) && t.len() > 0 {
            t.update(t.len() - 1, t.last().push(c))
        } else {
            t.push(seq![c])
        }
    }
}

/// The entries of `ts` that end in the kernel-module extension, in order.
pub open spec fn ko_only(ts: Seq<Seq<char>>) -> Seq<Seq<char>>
    decreases ts.len(),
{
    if ts.len() == 0 {
        seq![]
    } else if ends_with(ts.last(), ko_ext()) {
        ko_only(ts.drop_last()).push(ts.last())
    } else {
        ko_only(ts.drop_last())
    }
}

/// The module files named after the first `:=` of `line`.
pub open spec fn modules_of(line: Seq<char>) -> Seq<Seq<char>> {
    match find(line, colon_eq()) {
        Some(p) => ko_only(tokens(line.skip(p + 2))),
        None => seq![],
    }
}

/// The first double-quoted string on a `compatible` line.
pub fn extract_compatible_string(line: &str) -> (r: Option<String>)
    ensures
        r matches Some(v) ==> compatible_of(line@) == Some(v@),
        r is None ==> compatible_of(line@) is None,
{
    let s = chars_of(line);
    let q: Vec<char> = vec!['"'];
    assert(q@ =~= quote());
    match find_seq(&s, &q) {
        Some(a) => {
            proof {
                lemma_find_from_sound(s@, q@, 0);
            }
            assert(a < s.len());
            match find_seq_from(&s, &q, a + 1) {
                Some(b) => {
                    proof {
                        lemma_find_from_sound(s@, q@, a + 1);
                    }
                    Some(substring(line, a + 1, b))
                },
                None => None,
            }
        },
        None => None,
    }
}

/// The value of an assignment line (`VAR := value` or `VAR = value`),
/// trimmed; `None` when there is no operator or the value is empty.
pub fn extract_makefile_value(line: &str) -> (r: Option<String>)
    ensures
        r matches Some(v) ==> assignment_value(line@) == Some(v@),
        r is None ==> assignment_value(line@) is None,
{
    let s = chars_of(line);
    let ce: Vec<char> = vec![':', '='];
    let eq: Vec<char> = vec!['='];
    assert(ce@ =~= colon_eq());
    assert(eq@ =~= eq_sign());
    proof {
        lemma_find_from_sound(s@, ce@, 0);
        lemma_find_from_sound(s@, eq@, 0);
    }
    let start: usize = match find_seq(&s, &ce) {
        Some(p) => {
            assert(p + 2 <= s.len());
            p + 2
        },
        None => match find_seq(&s, &eq) {
            Some(p) => {
                assert(p + 1 <= s.len());
                p + 1
            },
            None => {
                return None;
            },
        },
    };
    let (a, b) = trim_bounds(&s, start, s.len());
    assert(s@.subrange(start as int, s@.len() as int) =~= s@.skip(start as int));
    if a == b {
        None
    } else {
        Some(substring(line, a, b))
    }
}

/// The HAL package named on a line: from `android.hardware.` up to the next
/// whitespace or the end of the line.
pub fn extract_hal_name(line: &str) -> (r: Option<String>)
    ensures
        r matches Some(v) ==> hal_of(line@) == Some(v@),
        r is None ==> hal_of(line@) is None,
{
    let s = chars_of(line);
    let pre: Vec<char> = vec![
        'a', 'n', 'd', 'r', 'o', 'i', 'd', '.', 'h', 'a', 'r', 'd', 'w', 'a', 'r', 'e', '.',
    ];
    assert(pre@ =~= hal_prefix());
    match find_seq(&s, &pre) {
        Some(a) => {
            proof {
                lemma_find_from_sound(s@, pre@, 0);
            }
            let mut e: usize = a;
            while e < s.len() && !is_whitespace(s[e])
                invariant
                    a <= e <= s@.len(),
                    ws_from(s@, a as int) == ws_from(s@, e as int),
                decreases s@.len() - e,
            {
                e = e + 1;
            }
            Some(substring(line, a, e))
        },
        None => None,
    }
}

/// The whitespace-separated tokens of `line` from character `lo` on.
pub fn split_whitespace_from(line: &str, s: &Vec<char>, lo: usize) -> (r: Vec<String>)
    requires
        s@ == line@,
        lo <= s@.len(),
    ensures
        views(r@) == tokens(s@.skip(lo as int)),
{
    let ghost w = s@.skip(lo as int);
    let mut out: Vec<String> = Vec::new();
    let mut in_tok = false;
    let mut cs: usize = lo;
    let mut i: usize = lo;
    assert(w.take(0) =~= Seq::<char>::empty());
    while i < s.len()
        invariant
            w == s@.skip(lo as int),
            s@ == line@,
            lo <= cs <= i <= s@.len(),
            in_tok ==> cs < i && !is_ws(s@[i - 1]) && tokens(w.take(i - lo)) == views(out@).push(
                s@.subrange(cs as int, i as int),
            ),
            !in_tok ==> (i == lo || is_ws(s@[i - 1])) && tokens(w.take(i - lo)) == views(out@),
        decreases s@.len() - i,
    {
        let c = s[i];
        let ghost prev = w.take(i - lo);
        let ghost next = w.take(i - lo + 1);
        assert(next.drop_last() =~= prev);
        assert(next.last() == c);
        if is_whitespace(c) {
            if in_tok {
                let t = substring(line, cs, i);
                out.push(t);
                in_tok = false;
            }
        } else {
            if !in_tok {
                cs = i;
                in_tok = true;
                assert(s@.subrange(cs as int, i + 1) =~= seq![c]);
            } else {
                assert(s@.subrange(cs as int, i as int).push(c) =~= s@.subrange(cs as int, i + 1));
            }
        }
        i = i + 1;
        assert(tokens(w.take(i - lo)) == tokens(next));
        proof {
            if in_tok {
                assert(tokens(w.take(i - lo)) =~= views(out@).push(s@.subrange(cs as int, i as int)));
            } else {
                assert(tokens(w.take(i - lo)) =~= views(out@));
            }
        }
    }
    assert(w.take(i - lo) =~= w);
    if in_tok {
        let t = substring(line, cs, i);
        out.push(t);
    }
    assert(views(out@) =~= tokens(w));
    out
}

/// The kernel-module files among `toks`, in order.
pub fn keep_modules(toks: &Vec<String>) -> (r: Vec<String>)
    ensures
        views(r@) == ko_only(views(toks@)),
{
    let ext: Vec<char> = vec!['.', 'k', 'o'];
    assert(ext@ =~= ko_ext());
    let mut out: Vec<String> = Vec::new();
    let mut k: usize = 0;
    while k < toks.len()
        invariant
            k <= toks@.len(),
            ext@ == ko_ext(),
            views(out@) == ko_only(views(toks@).take(k as int)),
        decreases toks@.len() - k,
    {
        let t = chars_of(toks[k].as_str());
        let ghost prev = views(toks@).take(k as int);
        let ghost next = views(toks@).take(k + 1);
        assert(next.drop_last() =~= prev);
        assert(next.last() == toks@[k as int]@);
        if ends_with_seq(&t, &ext) {
            out.push(toks[k].clone());
        }
        assert(views(out@) =~= ko_only(next));
        k = k + 1;
    }
    assert(views(toks@).take(k as int) =~= views(toks@));
    out
}

/// The module files (`*.ko`) listed after the first `:=` of a line;
/// `None` when there is no `:=` or it lists none.
pub fn extract_kernel_modules(line: &str) -> (r: Option<Vec<String>>)
    ensures
        r matches Some(v) ==> views(v@) == modules_of(line@) && v@.len() > 0,
        r is None ==> modules_of(line@).len() == 0,
{
    let s = chars_of(line);
    let ce: Vec<char> = vec![':', '='];
    assert(ce@ =~= colon_eq());
    match find_seq(&s, &ce) {
        Some(p) => {
            proof {
                lemma_find_from_sound(s@, ce@, 0);
            }
            assert(p + 2 <= s.len());
            let toks = split_whitespace_from(line, &s, p + 2);
            let mods = keep_modules(&toks);
            if mods.len() == 0 {
                None
            } else {
                Some(mods)
            }
        },
        None => None,
    }
}

} // verus!
