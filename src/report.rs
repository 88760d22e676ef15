//! The hardware report and its rendering as a property-list document.
use vstd::prelude::*;
use vstd::string::StringExecFns;
use crate::drivers::{refs_in, DriverMap};
use crate::markers::Presence;
use crate::order::{sorted_of, unique_sorted};
use crate::plist::{
    escape, escape_xml, lemma_escape_injective, lemma_escape_no_gt, lemma_split_after_gt,
};
use crate::text::views;

verus! {

/// Everything one inspection of a tree found.
pub struct HardwareReport {
    /// Attribute name and value pairs ("vendor", "device", "product_name").
    pub device_info: Vec<(String, String)>,
    pub key_files: Vec<Presence>,
    pub key_dirs: Vec<Presence>,
    pub drivers: DriverMap,
    pub structure_valid: bool,
}

/// The character sequences of attribute pairs.
pub open spec fn pair_views(ps: Seq<(String, String)>) -> Seq<(Seq<char>, Seq<char>)> {
    ps.map_values(|p: (String, String)| (p.0@, p.1@))
}

/// The marker names and flags of a presence map.
pub open spec fn flag_views(ps: Seq<Presence>) -> Seq<(Seq<char>, bool)> {
    ps.map_values(|p: Presence| (p.name@, p.found))
}

/// The value paired first with `k`; empty when there is none.
pub open spec fn value_of(ps: Seq<(Seq<char>, Seq<char>)>, k: Seq<char>) -> Seq<char>
    decreases ps.len(),
{
    if ps.len() == 0 {
        seq![]
    } else if ps[0].0 == k {
        ps[0].1
    } else {
        value_of(ps.drop_first(), k)
    }
}

/// The flag paired first with `k`; false when there is none.
pub open spec fn flag_of(ps: Seq<(Seq<char>, bool)>, k: Seq<char>) -> bool
    decreases ps.len(),
{
    if ps.len() == 0 {
        false
    } else if ps[0].0 == k {
        ps[0].1
    } else {
        flag_of(ps.drop_first(), k)
    }
}

pub open spec fn bool_word(b: bool) -> Seq<char> {
    if b {
        "true"@
    } else {
        "false"@
    }
}

/// The key/string entries of the device-information dictionary.
pub open spec fn info_entries(keys: Seq<Seq<char>>, ps: Seq<(Seq<char>, Seq<char>)>) -> Seq<char>
    decreases keys.len(),
{
    if keys.len() == 0 {
        seq![]
    } else {
        info_entries(keys.drop_last(), ps) + "\t\t<key>"@ + escape(keys.last()) + "</key>\n"@
            + "\t\t<string>"@ + escape(value_of(ps, keys.last())) + "</string>\n"@
    }
}

/// The key/boolean entries of a marker dictionary.
pub open spec fn flag_entries(keys: Seq<Seq<char>>, ps: Seq<(Seq<char>, bool)>) -> Seq<char>
    decreases keys.len(),
{
    if keys.len() == 0 {
        seq![]
    } else {
        flag_entries(keys.drop_last(), ps) + "\t\t<key>"@ + escape(keys.last()) + "</key>\n"@
            + "\t\t<"@ + bool_word(flag_of(ps, keys.last())) + " />\n"@
    }
}

/// The string elements of a driver array.
pub open spec fn string_items(xs: Seq<Seq<char>>) -> Seq<char>
    decreases xs.len(),
{
    if xs.len() == 0 {
        seq![]
    } else {
        string_items(xs.drop_last()) + "\t\t\t<string>"@ + escape(xs.last()) + "</string>\n"@
    }
}

/// The category/array entries of the driver dictionary.
pub open spec fn driver_entries(cats: Seq<Seq<char>>, m: Map<Seq<char>, Seq<Seq<char>>>) -> Seq<
    char,
>
    decreases cats.len(),
{
    if cats.len() == 0 {
        seq![]
    } else {
        driver_entries(cats.drop_last(), m) + "\t\t<key>"@ + escape(cats.last()) + "</key>\n"@
            + "\t\t<array>\n"@ + string_items(sorted_of(refs_in(m, cats.last()).to_set()))
            + "\t\t</array>\n"@
    }
}

pub open spec fn plist_header() -> Seq<char> {
    "<?xml version=\"1.0\" encoding=\"UTF-8\"?>\n<!DOCTYPE plist PUBLIC \"-//Apple//DTD PLIST 1.0//EN\" \"http://www.apple.com/DTDs/PropertyList-1.0.dtd\">\n<plist version=\"1.0\">\n<dict>\n"@
}

/// The whole document: every dictionary sorted by key, each driver array
/// sorted and free of duplicates.
pub open spec fn plist_text(
    info: Seq<(Seq<char>, Seq<char>)>,
    valid: bool,
    files: Seq<(Seq<char>, bool)>,
    dirs: Seq<(Seq<char>, bool)>,
    m: Map<Seq<char>, Seq<Seq<char>>>,
) -> Seq<char> {
    plist_header() + "\t<key>DeviceInformation</key>\n\t<dict>\n"@ + info_entries(
        sorted_of(info.map_values(|p: (Seq<char>, Seq<char>)| p.0).to_set()),
        info,
    ) + "\t</dict>\n"@ + "\t<key>StructureValid</key>\n\t<"@ + bool_word(valid) + " />\n"@
        + "\t<key>KeyFiles</key>\n\t<dict>\n"@ + flag_entries(
        sorted_of(files.map_values(|p: (Seq<char>, bool)| p.0).to_set()),
        files,
    ) + "\t</dict>\n"@ + "\t<key>KeyDirectories</key>\n\t<dict>\n"@ + flag_entries(
        sorted_of(dirs.map_values(|p: (Seq<char>, bool)| p.0).to_set()),
        dirs,
    ) + "\t</dict>\n"@ + "\t<key>DeviceDrivers</key>\n\t<dict>\n"@ + driver_entries(
        sorted_of(m.dom()),
        m,
    ) + "\t</dict>\n"@ + "</dict>\n</plist>\n"@
}

/// The string elements of a driver array determine the references listed:
/// reading the array back recovers them, in order.
pub proof fn lemma_string_items_determine(xs: Seq<Seq<char>>, ys: Seq<Seq<char>>)
    requires
        string_items(xs) == string_items(ys),
    ensures
        xs == ys,
    decreases xs.len(),
{
    reveal_strlit("\t\t\t<string>");
    reveal_strlit("</string>\n");
    if xs.len() == 0 || ys.len() == 0 {
        assert(xs.len() == 0 && ys.len() == 0);
        assert(xs =~= ys);
    } else {
        let x1 = string_items(xs.drop_last()) + "\t\t\t<string>"@;
        let x2 = string_items(ys.drop_last()) + "\t\t\t<string>"@;
        lemma_escape_no_gt(xs.last());
        lemma_escape_no_gt(ys.last());
        lemma_split_after_gt(x1, escape(xs.last()), x2, escape(ys.last()), "</string>\n"@);
        lemma_escape_injective(xs.last(), ys.last());
        assert(string_items(xs.drop_last()) =~= x1.take(x1.len() - 11));
        assert(string_items(ys.drop_last()) =~= x2.take(x2.len() - 11));
        lemma_string_items_determine(xs.drop_last(), ys.drop_last());
        assert(xs =~= xs.drop_last().push(xs.last()));
        assert(ys =~= ys.drop_last().push(ys.last()));
    }
}

proof fn lemma_drop_suffix(a: Seq<char>, b: Seq<char>, s: Seq<char>)
    requires
        a + s == b + s,
    ensures
        a == b,
{
    assert(a =~= (a + s).take(a.len() as int));
    assert(b =~= (b + s).take(b.len() as int));
}

/// The key/string entries of the device-information dictionary determine
/// its keys, in order, and the value of each.
pub proof fn lemma_info_entries_determine(
    ks1: Seq<Seq<char>>,
    ps1: Seq<(Seq<char>, Seq<char>)>,
    ks2: Seq<Seq<char>>,
    ps2: Seq<(Seq<char>, Seq<char>)>,
)
    requires
        info_entries(ks1, ps1) == info_entries(ks2, ps2),
    ensures
        ks1 == ks2,
        forall|i: int| 0 <= i < ks1.len() ==> value_of(ps1, ks1[i]) == value_of(ps2, ks1[i]),
    decreases ks1.len(),
{
    reveal_strlit("\t\t<key>");
    reveal_strlit("</key>\n");
    reveal_strlit("\t\t<string>");
    reveal_strlit("</string>\n");
    if ks1.len() == 0 || ks2.len() == 0 {
        assert(ks1.len() == 0 && ks2.len() == 0);
        assert(ks1 =~= ks2);
    } else {
        let p1 = info_entries(ks1.drop_last(), ps1);
        let p2 = info_entries(ks2.drop_last(), ps2);
        let k1 = ks1.last();
        let k2 = ks2.last();
        let v1 = value_of(ps1, k1);
        let v2 = value_of(ps2, k2);
        let x1 = p1 + "\t\t<key>"@ + escape(k1) + "</key>\n"@ + "\t\t<string>"@;
        let x2 = p2 + "\t\t<key>"@ + escape(k2) + "</key>\n"@ + "\t\t<string>"@;
        lemma_escape_no_gt(v1);
        lemma_escape_no_gt(v2);
        lemma_split_after_gt(x1, escape(v1), x2, escape(v2), "</string>\n"@);
        lemma_escape_injective(v1, v2);
        let m = "</key>\n"@ + "\t\t<string>"@;
        assert(x1 =~= (p1 + "\t\t<key>"@) + escape(k1) + m);
        assert(x2 =~= (p2 + "\t\t<key>"@) + escape(k2) + m);
        lemma_escape_no_gt(k1);
        lemma_escape_no_gt(k2);
        lemma_split_after_gt(p1 + "\t\t<key>"@, escape(k1), p2 + "\t\t<key>"@, escape(k2), m);
        lemma_escape_injective(k1, k2);
        lemma_drop_suffix(p1, p2, "\t\t<key>"@);
        lemma_info_entries_determine(ks1.drop_last(), ps1, ks2.drop_last(), ps2);
        assert(ks1 =~= ks1.drop_last().push(k1));
        assert(ks2 =~= ks2.drop_last().push(k2));
        assert forall|i: int| 0 <= i < ks1.len() implies value_of(ps1, ks1[i]) == value_of(
            ps2,
            ks1[i],
        ) by {
            if i < ks1.len() - 1 {
                assert(ks1.drop_last()[i] == ks1[i]);
            }
        }
    }
}

/// The key/boolean entries of a marker dictionary determine its marker
/// names, in order, and the flag of each.
pub proof fn lemma_flag_entries_determine(
    ks1: Seq<Seq<char>>,
    ps1: Seq<(Seq<char>, bool)>,
    ks2: Seq<Seq<char>>,
    ps2: Seq<(Seq<char>, bool)>,
)
    requires
        flag_entries(ks1, ps1) == flag_entries(ks2, ps2),
    ensures
        ks1 == ks2,
        forall|i: int| 0 <= i < ks1.len() ==> flag_of(ps1, ks1[i]) == flag_of(ps2, ks1[i]),
    decreases ks1.len(),
{
    reveal_strlit("\t\t<key>");
    reveal_strlit("</key>\n");
    reveal_strlit("\t\t<");
    reveal_strlit(" />\n");
    reveal_strlit("true");
    reveal_strlit("false");
    if ks1.len() == 0 || ks2.len() == 0 {
        assert(ks1.len() == 0 && ks2.len() == 0);
        assert(ks1 =~= ks2);
    } else {
        let p1 = flag_entries(ks1.drop_last(), ps1);
        let p2 = flag_entries(ks2.drop_last(), ps2);
        let k1 = ks1.last();
        let k2 = ks2.last();
        let b1 = flag_of(ps1, k1);
        let b2 = flag_of(ps2, k2);
        let y1 = p1 + "\t\t<key>"@ + escape(k1) + "</key>\n"@ + "\t\t<"@ + bool_word(b1);
        let y2 = p2 + "\t\t<key>"@ + escape(k2) + "</key>\n"@ + "\t\t<"@ + bool_word(b2);
        lemma_drop_suffix(y1, y2, " />\n"@);
        if b1 != b2 {
            let n = y1.len();
            assert(y1[n - 5] != y2[n - 5]);
        }
        let z1 = p1 + "\t\t<key>"@ + escape(k1) + "</key>\n"@;
        let z2 = p2 + "\t\t<key>"@ + escape(k2) + "</key>\n"@;
        assert(y1 =~= z1 + ("\t\t<"@ + bool_word(b1)));
        assert(y2 =~= z2 + ("\t\t<"@ + bool_word(b2)));
        lemma_drop_suffix(z1, z2, "\t\t<"@ + bool_word(b1));
        lemma_escape_no_gt(k1);
        lemma_escape_no_gt(k2);
        lemma_split_after_gt(p1 + "\t\t<key>"@, escape(k1), p2 + "\t\t<key>"@, escape(k2), "</key>\n"@);
        lemma_escape_injective(k1, k2);
        lemma_drop_suffix(p1, p2, "\t\t<key>"@);
        lemma_flag_entries_determine(ks1.drop_last(), ps1, ks2.drop_last(), ps2);
        assert(ks1 =~= ks1.drop_last().push(k1));
        assert(ks2 =~= ks2.drop_last().push(k2));
        assert forall|i: int| 0 <= i < ks1.len() implies flag_of(ps1, ks1[i]) == flag_of(
            ps2,
            ks1[i],
        ) by {
            if i < ks1.len() - 1 {
                assert(ks1.drop_last()[i] == ks1[i]);
            }
        }
    }
}

fn value_lookup(ps: &Vec<(String, String)>, k: &String) -> (r: String)
    ensures
        r@ == value_of(pair_views(ps@), k@),
{
    let mut i: usize = 0;
    assert(pair_views(ps@).skip(0) =~= pair_views(ps@));
    while i < ps.len()
        invariant
            i <= ps@.len(),
            value_of(pair_views(ps@), k@) == value_of(pair_views(ps@).skip(i as int), k@),
        decreases ps@.len() - i,
    {
        assert(pair_views(ps@).skip(i as int)[0] == (ps@[i as int].0@, ps@[i as int].1@));
        if ps[i].0 == *k {
            return ps[i].1.clone();
        }
        assert(pair_views(ps@).skip(i as int).drop_first() =~= pair_views(ps@).skip(i + 1));
        i = i + 1;
    }
    String::new()
}

fn flag_lookup(ps: &Vec<Presence>, k: &String) -> (r: bool)
    ensures
        r == flag_of(flag_views(ps@), k@),
{
    let mut i: usize = 0;
    assert(flag_views(ps@).skip(0) =~= flag_views(ps@));
    while i < ps.len()
        invariant
            i <= ps@.len(),
            flag_of(flag_views(ps@), k@) == flag_of(flag_views(ps@).skip(i as int), k@),
        decreases ps@.len() - i,
    {
        assert(flag_views(ps@).skip(i as int)[0] == (ps@[i as int].name@, ps@[i as int].found));
        if ps[i].name == *k {
            return ps[i].found;
        }
        assert(flag_views(ps@).skip(i as int).drop_first() =~= flag_views(ps@).skip(i + 1));
        i = i + 1;
    }
    false
}

fn word(b: bool) -> (r: &'static str)
    ensures
        r@ == bool_word(b),
{
    if b {
        "true"
    } else {
        "false"
    }
}

fn render_info(keys: &Vec<String>, ps: &Vec<(String, String)>) -> (r: String)
    ensures
        r@ == info_entries(views(keys@), pair_views(ps@)),
{
    let mut s = String::new();
    let mut i: usize = 0;
    while i < keys.len()
        invariant
            i <= keys@.len(),
            s@ == info_entries(views(keys@).take(i as int), pair_views(ps@)),
        decreases keys@.len() - i,
    {
        let k = &keys[i];
        s.append("\t\t<key>");
        s.append(escape_xml(k.as_str()).as_str());
        s.append("</key>\n");
        s.append("\t\t<string>");
        s.append(escape_xml(value_lookup(ps, k).as_str()).as_str());
        s.append("</string>\n");
        assert(views(keys@).take(i + 1).drop_last() =~= views(keys@).take(i as int));
        i = i + 1;
    }
    assert(views(keys@).take(i as int) =~= views(keys@));
    s
}

fn render_flags(keys: &Vec<String>, ps: &Vec<Presence>) -> (r: String)
    ensures
        r@ == flag_entries(views(keys@), flag_views(ps@)),
{
    let mut s = String::new();
    let mut i: usize = 0;
    while i < keys.len()
        invariant
            i <= keys@.len(),
            s@ == flag_entries(views(keys@).take(i as int), flag_views(ps@)),
        decreases keys@.len() - i,
    {
        let k = &keys[i];
        s.append("\t\t<key>");
        s.append(escape_xml(k.as_str()).as_str());
        s.append("</key>\n");
        s.append("\t\t<");
        s.append(word(flag_lookup(ps, k)));
        s.append(" />\n");
        assert(views(keys@).take(i + 1).drop_last() =~= views(keys@).take(i as int));
        i = i + 1;
    }
    assert(views(keys@).take(i as int) =~= views(keys@));
    s
}

fn render_strings(xs: &Vec<String>) -> (r: String)
    ensures
        r@ == string_items(views(xs@)),
{
    let mut s = String::new();
    let mut i: usize = 0;
    while i < xs.len()
        invariant
            i <= xs@.len(),
            s@ == string_items(views(xs@).take(i as int)),
        decreases xs@.len() - i,
    {
        s.append("\t\t\t<string>");
        s.append(escape_xml(xs[i].as_str()).as_str());
        s.append("</string>\n");
        assert(views(xs@).take(i + 1).drop_last() =~= views(xs@).take(i as int));
        i = i + 1;
    }
    assert(views(xs@).take(i as int) =~= views(xs@));
    s
}

fn render_drivers(cats: &Vec<String>, m: &DriverMap) -> (r: String)
    requires
        m.wf(),
    ensures
        r@ == driver_entries(views(cats@), m@),
{
    let mut s = String::new();
    let mut i: usize = 0;
    while i < cats.len()
        invariant
            i <= cats@.len(),
            m.wf(),
            s@ == driver_entries(views(cats@).take(i as int), m@),
        decreases cats@.len() - i,
    {
        let c = &cats[i];
        s.append("\t\t<key>");
        s.append(escape_xml(c.as_str()).as_str());
        s.append("</key>\n");
        s.append("\t\t<array>\n");
        let refs = unique_sorted(&m.refs(c));
        s.append(render_strings(&refs).as_str());
        s.append("\t\t</array>\n");
        assert(views(cats@).take(i + 1).drop_last() =~= views(cats@).take(i as int));
        i = i + 1;
    }
    assert(views(cats@).take(i as int) =~= views(cats@));
    s
}

fn info_keys(ps: &Vec<(String, String)>) -> (r: Vec<String>)
    ensures
        views(r@) == pair_views(ps@).map_values(|p: (Seq<char>, Seq<char>)| p.0),
{
    let mut r: Vec<String> = Vec::new();
    let mut i: usize = 0;
    while i < ps.len()
        invariant
            i <= ps@.len(),
            r@.len() == i,
            views(r@) == pair_views(ps@).take(i as int).map_values(|p: (Seq<char>, Seq<char>)| p.0),
        decreases ps@.len() - i,
    {
        let ghost old_r = r@;
        r.push(ps[i].0.clone());
        assert(views(r@) =~= views(old_r).push(ps@[i as int].0@));
        assert(pair_views(ps@).take(i + 1) =~= pair_views(ps@).take(i as int).push(
            (ps@[i as int].0@, ps@[i as int].1@),
        ));
        assert(views(r@) =~= pair_views(ps@).take(i + 1).map_values(
            |p: (Seq<char>, Seq<char>)| p.0,
        ));
        i = i + 1;
    }
    assert(pair_views(ps@).take(i as int) =~= pair_views(ps@));
    r
}

fn flag_keys(ps: &Vec<Presence>) -> (r: Vec<String>)
    ensures
        views(r@) == flag_views(ps@).map_values(|p: (Seq<char>, bool)| p.0),
{
    let mut r: Vec<String> = Vec::new();
    let mut i: usize = 0;
    while i < ps.len()
        invariant
            i <= ps@.len(),
            r@.len() == i,
            views(r@) == flag_views(ps@).take(i as int).map_values(|p: (Seq<char>, bool)| p.0),
        decreases ps@.len() - i,
    {
        let ghost old_r = r@;
        r.push(ps[i].name.clone());
        assert(views(r@) =~= views(old_r).push(ps@[i as int].name@));
        assert(flag_views(ps@).take(i + 1) =~= flag_views(ps@).take(i as int).push(
            (ps@[i as int].name@, ps@[i as int].found),
        ));
        assert(views(r@) =~= flag_views(ps@).take(i + 1).map_values(|p: (Seq<char>, bool)| p.0));
        i = i + 1;
    }
    assert(flag_views(ps@).take(i as int) =~= flag_views(ps@));
    r
}

impl HardwareReport {
    /// The property-list document for this report.
    pub fn to_plist(&self) -> (r: String)
        requires
            self.drivers.wf(),
        ensures
            r@ == plist_text(
                pair_views(self.device_info@),
                self.structure_valid,
                flag_views(self.key_files@),
                flag_views(self.key_dirs@),
                self.drivers@,
            ),
    {
        let mut s = String::new();
        s.append(
            "<?xml version=\"1.0\" encoding=\"UTF-8\"?>\n<!DOCTYPE plist PUBLIC \"-//Apple//DTD PLIST 1.0//EN\" \"http://www.apple.com/DTDs/PropertyList-1.0.dtd\">\n<plist version=\"1.0\">\n<dict>\n",
        );
        s.append("\t<key>DeviceInformation</key>\n\t<dict>\n");
        let ik = unique_sorted(&info_keys(&self.device_info));
        s.append(render_info(&ik, &self.device_info).as_str());
        s.append("\t</dict>\n");
        s.append("\t<key>StructureValid</key>\n\t<");
        s.append(word(self.structure_valid));
        s.append(" />\n");
        s.append("\t<key>KeyFiles</key>\n\t<dict>\n");
        let fk = unique_sorted(&flag_keys(&self.key_files));
        s.append(render_flags(&fk, &self.key_files).as_str());
        s.append("\t</dict>\n");
        s.append("\t<key>KeyDirectories</key>\n\t<dict>\n");
        let dk = unique_sorted(&flag_keys(&self.key_dirs));
        s.append(render_flags(&dk, &self.key_dirs).as_str());
        s.append("\t</dict>\n");
        s.append("\t<key>DeviceDrivers</key>\n\t<dict>\n");
        let ck = unique_sorted(&self.drivers.categories());
        s.append(render_drivers(&ck, &self.drivers).as_str());
        s.append("\t</dict>\n");
        s.append("</dict>\n</plist>\n");
        s
    }
}

} // verus!
