//! The category map that the driver scans accumulate into, and the sorted,
//! duplicate-free listing of references used for display and export.
use vstd::prelude::*;
use vstd::string::StringExecFns;
use crate::order::{sorted_of, unique_sorted};
use crate::text::views;

verus! {

/// Position of the first `c` in `ns` at or after `k`; -1 when there is none.
pub open spec fn first_index(ns: Seq<Seq<char>>, c: Seq<char>, k: int) -> int
    decreases ns.len() - k,
{
    if k < 0 || k >= ns.len() {
        -1
    } else if ns[k] == c {
        k
    } else {
        first_index(ns, c, k + 1)
    }
}

proof fn lemma_first_index(ns: Seq<Seq<char>>, c: Seq<char>, k: int)
    requires
        0 <= k,
    ensures
        first_index(ns, c, k) == -1 || (k <= first_index(ns, c, k) < ns.len() && ns[first_index(
            ns,
            c,
            k,
        )] == c),
        first_index(ns, c, k) == -1 ==> forall|j: int| k <= j < ns.len() ==> ns[j] != c,
    decreases ns.len() - k,
{
    if k < ns.len() && ns[k] != c {
        lemma_first_index(ns, c, k + 1);
    }
}

proof fn lemma_first_index_push(ns: Seq<Seq<char>>, x: Seq<char>, c: Seq<char>, k: int)
    requires
        0 <= k <= ns.len(),
    ensures
        first_index(ns.push(x), c, k) == if first_index(ns, c, k) >= 0 {
            first_index(ns, c, k)
        } else if x == c {
            ns.len() as int
        } else {
            -1
        },
    decreases ns.len() - k,
{
    if k < ns.len() {
        assert(ns.push(x)[k] == ns[k]);
        if ns[k] != c {
            lemma_first_index_push(ns, x, c, k + 1);
        }
    } else {
        assert(ns.push(x)[k] == x);
        assert(first_index(ns.push(x), c, k + 1) == -1);
    }
}

/// Category name → references recorded under it, in recording order.
/// A category is present only once something was recorded under it.
pub struct DriverMap {
    names: Vec<String>,
    lists: Vec<Vec<String>>,
}

impl View for DriverMap {
    type V = Map<Seq<char>, Seq<Seq<char>>>;

    closed spec fn view(&self) -> Map<Seq<char>, Seq<Seq<char>>> {
        Map::new(
            |c: Seq<char>| first_index(views(self.names@), c, 0) >= 0,
            |c: Seq<char>| views(self.lists@[first_index(views(self.names@), c, 0)]@),
        )
    }
}

/// The references recorded under `c`, or none.
pub open spec fn refs_in(m: Map<Seq<char>, Seq<Seq<char>>>, c: Seq<char>) -> Seq<Seq<char>> {
    if m.contains_key(c) {
        m[c]
    } else {
        seq![]
    }
}

impl DriverMap {
    /// Internal consistency: one list per name, none of them empty.
    pub closed spec fn wf(&self) -> bool {
        &&& self.names@.len() == self.lists@.len()
        &&& forall|i: int| 0 <= i < self.lists@.len() ==> self.lists@[i]@.len() > 0
    }

    pub fn new() -> (r: DriverMap)
        ensures
            r.wf(),
            r@ == Map::<Seq<char>, Seq<Seq<char>>>::empty(),
    {
        let r = DriverMap { names: Vec::new(), lists: Vec::new() };
        assert(r@ =~= Map::<Seq<char>, Seq<Seq<char>>>::empty());
        r
    }

    /// Every present category holds at least one reference.
    pub proof fn lemma_no_empty_category(&self)
        requires
            self.wf(),
        ensures
            forall|c: Seq<char>| #[trigger] self@.contains_key(c) ==> self@[c].len() > 0,
    {
        assert forall|c: Seq<char>| #[trigger] self@.contains_key(c) implies self@[c].len()
            > 0 by {
            lemma_first_index(views(self.names@), c, 0);
        }
    }

    /// Whether no category is present.
    pub fn is_empty(&self) -> (r: bool)
        requires
            self.wf(),
        ensures
            r == (self@.dom() == Set::<Seq<char>>::empty()),
    {
        proof {
            if self.names@.len() > 0 {
                let c = views(self.names@)[0];
                assert(first_index(views(self.names@), c, 0) == 0);
                assert(self@.contains_key(c));
            } else {
                assert(self@.dom() =~= Set::<Seq<char>>::empty());
            }
        }
        self.names.len() == 0
    }

    fn index_of(&self, cat: &String) -> (r: Option<usize>)
        requires
            self.wf(),
        ensures
            r matches Some(i) ==> first_index(views(self.names@), cat@, 0) == i,
            r is None ==> first_index(views(self.names@), cat@, 0) == -1,
    {
        let mut i: usize = 0;
        while i < self.names.len()
            invariant
                i <= self.names@.len(),
                first_index(views(self.names@), cat@, 0) == first_index(
                    views(self.names@),
                    cat@,
                    i as int,
                ),
            decreases self.names@.len() - i,
        {
            if self.names[i] == *cat {
                return Some(i);
            }
            i = i + 1;
        }
        None
    }

    /// Records `item` under category `cat`, creating the category if needed.
    pub fn add(&mut self, cat: &str, item: String)
        requires
            old(self).wf(),
        ensures
            final(self).wf(),
            final(self)@ == old(self)@.insert(cat@, refs_in(old(self)@, cat@).push(item@)),
    {
        let name = String::from_str(cat);
        let ghost ns = views(self.names@);
        match self.index_of(&name) {
            Some(i) => {
                proof {
                    lemma_first_index(ns, cat@, 0);
                }
                let mut l = self.lists.remove(i);
                l.push(item);
                self.lists.insert(i, l);
                proof {
                    assert(views(self.names@) == ns);
                    assert(self.lists@ =~= old(self).lists@.update(i as int, l));
                    assert(views(l@) =~= views(old(self).lists@[i as int]@).push(item@));
                    assert forall|c: Seq<char>| #[trigger]
                        self@.contains_key(c) && c != cat@ implies self@[c] == old(self)@[c] by {
                        lemma_first_index(ns, c, 0);
                    }
                    assert(self@ =~= old(self)@.insert(cat@, refs_in(old(self)@, cat@).push(item@)));
                }
            },
            None => {
                let mut l: Vec<String> = Vec::new();
                l.push(item);
                self.names.push(name);
                self.lists.push(l);
                proof {
                    assert(views(self.names@) =~= ns.push(cat@));
                    assert forall|c: Seq<char>| true implies first_index(views(self.names@), c, 0)
                        == if first_index(ns, c, 0) >= 0 {
                        first_index(ns, c, 0)
                    } else if cat@ == c {
                        ns.len() as int
                    } else {
                        -1
                    } by {
                        lemma_first_index_push(ns, cat@, c, 0);
                    }
                    assert forall|c: Seq<char>| #[trigger]
                        old(self)@.contains_key(c) implies self@.contains_key(c) && self@[c]
                        == old(self)@[c] by {
                        lemma_first_index(ns, c, 0);
                    }
                    assert(views(l@) =~= seq![item@]);
                    assert(self@ =~= old(self)@.insert(cat@, refs_in(old(self)@, cat@).push(item@)));
                }
            },
        }
    }

    /// The present categories, in the order they were created.
    pub fn categories(&self) -> (r: Vec<String>)
        requires
            self.wf(),
        ensures
            views(r@).to_set() == self@.dom(),
    {
        let r = clone_strings(&self.names);
        proof {
            let ns = views(self.names@);
            assert forall|c: Seq<char>| ns.to_set().contains(c) <==> self@.contains_key(c) by {
                lemma_first_index(ns, c, 0);
            }
            assert(ns.to_set() =~= self@.dom());
        }
        r
    }

    /// Categories in sorted order, each with its references sorted and free
    /// of duplicates: the form in which the map is shown.
    pub fn listing(&self) -> (r: Vec<(String, Vec<String>)>)
        requires
            self.wf(),
        ensures
            r@.map_values(|e: (String, Vec<String>)| e.0@) == sorted_of(self@.dom()),
            forall|i: int|
                0 <= i < r@.len() ==> views(#[trigger] r@[i].1@) == sorted_of(
                    refs_in(self@, r@[i].0@).to_set(),
                ),
    {
        let cats = unique_sorted(&self.categories());
        let mut r: Vec<(String, Vec<String>)> = Vec::new();
        let mut i: usize = 0;
        while i < cats.len()
            invariant
                self.wf(),
                i <= cats@.len(),
                r@.len() == i,
                r@.map_values(|e: (String, Vec<String>)| e.0@) == views(cats@).take(i as int),
                forall|k: int|
                    0 <= k < r@.len() ==> views(#[trigger] r@[k].1@) == sorted_of(
                        refs_in(self@, r@[k].0@).to_set(),
                    ),
            decreases cats@.len() - i,
        {
            let c = cats[i].clone();
            let l = unique_sorted(&self.refs(&c));
            r.push((c, l));
            assert(r@.map_values(|e: (String, Vec<String>)| e.0@) =~= views(cats@).take(i + 1));
            i = i + 1;
        }
        assert(views(cats@).take(i as int) =~= views(cats@));
        r
    }

    /// The references recorded under `cat`, in recording order.
    pub fn refs(&self, cat: &String) -> (r: Vec<String>)
        requires
            self.wf(),
        ensures
            views(r@) == refs_in(self@, cat@),
    {
        proof {
            lemma_first_index(views(self.names@), cat@, 0);
        }
        match self.index_of(cat) {
            Some(i) => clone_strings(&self.lists[i]),
            None => Vec::new(),
        }
    }
}

/// A copy of `v`.
pub fn clone_strings(v: &Vec<String>) -> (r: Vec<String>)
    ensures
        views(r@) == views(v@),
{
    let mut r: Vec<String> = Vec::new();
    let mut i: usize = 0;
    while i < v.len()
        invariant
            i <= v@.len(),
            views(r@) == views(v@).take(i as int),
            r@.len() == i,
        decreases v@.len() - i,
    {
        let ghost old_r = r@;
        let x = v[i].clone();
        r.push(x);
        assert(views(r@) =~= views(old_r).push(v@[i as int]@));
        assert(views(v@).take(i + 1) =~= views(v@).take(i as int).push(v@[i as int]@));
        i = i + 1;
    }
    assert(views(v@).take(i as int) =~= views(v@));
    r
}

} // verus!
