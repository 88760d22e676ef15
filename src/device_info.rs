//! Device identity: vendor and device from the tree's path, product name
//! from the product list makefile.
use vstd::prelude::*;
use vstd::string::StringExecFns;
use crate::report::pair_views;
use crate::scan::trim_str;
use crate::text::{
    chars_of, contains, contains_seq, find, find_seq, lemma_find_from_sound, substring, trim, views,
};

verus! {

/// The last position before `k` holding `c`; -1 when there is none.
pub open spec fn last_before(s: Seq<char>, c: char, k: int) -> int
    decreases k,
{
    if k <= 0 {
        -1
    } else if s[k - 1] == c {
        k - 1
    } else {
        last_before(s, c, k - 1)
    }
}

proof fn lemma_last_before(s: Seq<char>, c: char, k: int)
    requires
        0 <= k <= s.len(),
    ensures
        -1 <= last_before(s, c, k) < k,
        last_before(s, c, k) >= 0 ==> s[last_before(s, c, k)] == c,
    decreases k,
{
    if k > 0 && s[k - 1] != c {
        lemma_last_before(s, c, k - 1);
    }
}

/// Vendor and device: the last two `/`-separated segments of the path, when
/// it has at least two.
pub open spec fn path_info(p: Seq<char>) -> Seq<(Seq<char>, Seq<char>)> {
    let l1 = last_before(p, '/', p.len() as int);
    let l2 = last_before(p, '/', l1);
    if l1 >= 0 {
        seq![("vendor"@, p.subrange(l2 + 1, l1)), ("device"@, p.skip(l1 + 1))]
    } else {
        seq![]
    }
}

/// The value a `PRODUCT_NAME` line gives: what follows its first `=`,
/// trimmed; empty when it has none.
pub open spec fn product_value(line: Seq<char>) -> Seq<char> {
    match find(line, "="@) {
        Some(p) => trim(line.skip(p + 1)),
        None => seq![],
    }
}

/// The product name declared by the last line that mentions `PRODUCT_NAME`.
pub open spec fn product_name_of(lines: Seq<Seq<char>>) -> Option<Seq<char>>
    decreases lines.len(),
{
    if lines.len() == 0 {
        None
    } else if contains(lines.last(), "PRODUCT_NAME"@) {
        Some(product_value(lines.last()))
    } else {
        product_name_of(lines.drop_last())
    }
}

/// All attributes found, path-derived ones first.
pub open spec fn device_info_of(path: Seq<char>, lines: Seq<Seq<char>>) -> Seq<
    (Seq<char>, Seq<char>),
> {
    path_info(path) + match product_name_of(lines) {
        Some(v) => seq![("product_name"@, v)],
        None => seq![],
    }
}

fn last_slash_before(s: &Vec<char>, k: usize) -> (r: Option<usize>)
    requires
        k <= s@.len(),
    ensures
        r matches Some(i) ==> last_before(s@, '/', k as int) == i,
        r is None ==> last_before(s@, '/', k as int) == -1,
{
    let mut j: usize = k;
    while j > 0
        invariant
            j <= k <= s@.len(),
            last_before(s@, '/', k as int) == last_before(s@, '/', j as int),
        decreases j,
    {
        if s[j - 1] == '/' {
            return Some(j - 1);
        }
        j = j - 1;
    }
    None
}

fn product_value_exec(line: &str) -> (r: String)
    ensures
        r@ == product_value(line@),
{
    let s = chars_of(line);
    let eq = chars_of("=");
    match find_seq(&s, &eq) {
        Some(p) => {
            proof {
                lemma_find_from_sound(s@, eq@, 0);
                reveal_strlit("=");
            }
            assert(p + 1 <= s.len());
            trim_str(substring(line, p + 1, s.len()).as_str())
        },
        None => String::new(),
    }
}

/// Vendor and device from the tree's path, and the product name from the
/// lines of the product list makefile (empty when it was not found).
/// Attribute order: vendor, device, product_name; an empty result means
/// nothing was found.
pub fn extract_device_info(path: &str, android_products: &Vec<String>) -> (r: Vec<(String, String)>)
    ensures
        pair_views(r@) == device_info_of(path@, views(android_products@)),
{
    let mut r: Vec<(String, String)> = Vec::new();
    let p = chars_of(path);
    proof {
        lemma_last_before(p@, '/', p@.len() as int);
    }
    match last_slash_before(&p, p.len()) {
        Some(l1) => {
            proof {
                lemma_last_before(p@, '/', l1 as int);
            }
            let l2 = last_slash_before(&p, l1);
            let start: usize = match l2 {
                Some(x) => x + 1,
                None => 0,
            };
            r.push((String::from_str("vendor"), substring(path, start, l1)));
            r.push((String::from_str("device"), substring(path, l1 + 1, p.len())));
            assert(p@.subrange(l1 + 1, p@.len() as int) =~= p@.skip(l1 + 1));
        },
        None => {},
    }
    let ghost base = r@;
    assert(pair_views(r@) =~= path_info(path@));
    let pn = chars_of("PRODUCT_NAME");
    let mut k: usize = android_products.len();
    let mut value: Option<String> = None;
    assert(views(android_products@).take(k as int) =~= views(android_products@));
    while k > 0
        invariant
            k <= android_products@.len(),
            pn@ == "PRODUCT_NAME"@,
            value is None ==> product_name_of(views(android_products@)) == product_name_of(
                views(android_products@).take(k as int),
            ),
            value matches Some(v) ==> product_name_of(views(android_products@)) == Some(v@),
        decreases k,
    {
        if value.is_none() {
            let line = &android_products[k - 1];
            let ghost pre = views(android_products@).take(k as int);
            assert(pre.last() == line@);
            assert(pre.drop_last() =~= views(android_products@).take(k - 1));
            if contains_seq(&chars_of(line.as_str()), &pn) {
                value = Some(product_value_exec(line.as_str()));
            }
        }
        k = k - 1;
    }
    assert(views(android_products@).take(0) =~= Seq::<Seq<char>>::empty());
    match value {
        Some(v) => {
            r.push((String::from_str("product_name"), v));
        },
        None => {},
    }
    assert(pair_views(r@) =~= device_info_of(path@, views(android_products@)));
    r
}

} // verus!
