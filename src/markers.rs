//! The marker matcher: which of the expected files and directories stand
//! directly under the tree root, and the structure verdict drawn from them.
use vstd::prelude::*;
use vstd::string::StringExecFns;
use crate::text::views;

verus! {

/// What a directory entry is.
#[derive(Clone, Copy, Debug, PartialEq, Eq, Structural)]
pub enum EntryKind {
    File,
    Directory,
    Other,
}

/// One immediate child of the tree root.
pub struct RootEntry {
    pub name: String,
    pub kind: EntryKind,
}

/// Whether one marker was found.
pub struct Presence {
    pub name: String,
    pub found: bool,
}

/// Verdict on the tree's layout.
#[derive(Clone, Copy, Debug, PartialEq, Eq, Structural)]
pub enum Verdict {
    Valid,
    Partial,
    Invalid,
}

pub open spec fn key_files_spec() -> Seq<Seq<char>> {
    seq![
        "AndroidProducts.mk"@,
        "BoardConfig.mk"@,
        "device.mk"@,
        "system.prop"@,
        "vendorsetup.sh"@,
        "extract-files.sh"@,
        "setup-makefiles.sh"@,
    ]
}

pub open spec fn key_dirs_spec() -> Seq<Seq<char>> {
    seq![
        "overlay"@,
        "proprietary"@,
        "proprietary-files.txt"@,
        "configs"@,
        "rootdir"@,
        "recovery"@,
        "prebuilt"@,
    ]
}

/// The marker names of a presence map, in order.
pub open spec fn marker_names(ps: Seq<Presence>) -> Seq<Seq<char>> {
    ps.map_values(|p: Presence| p.name@)
}

/// Some entry is named `name` and is of kind `kind`.
pub open spec fn present(entries: Seq<RootEntry>, name: Seq<char>, kind: EntryKind) -> bool {
    exists|j: int| 0 <= j < entries.len() && entries[j].name@ == name && entries[j].kind == kind
}

/// `ps` records, for each of `markers` in order, whether an entry of `kind`
/// bears its name.
pub open spec fn presence_of(
    ps: Seq<Presence>,
    markers: Seq<Seq<char>>,
    entries: Seq<RootEntry>,
    kind: EntryKind,
) -> bool {
    &&& marker_names(ps) == markers
    &&& forall|i: int| 0 <= i < ps.len() ==> ps[i].found == present(entries, markers[i], kind)
}

/// Some marker of `ps` is named `name` and was found.
pub open spec fn is_found(ps: Seq<Presence>, name: Seq<char>) -> bool {
    exists|i: int| 0 <= i < ps.len() && ps[i].name@ == name && ps[i].found
}

/// The expected files of a device tree.
pub fn key_files() -> (r: Vec<String>)
    ensures
        views(r@) == key_files_spec(),
{
    let mut r: Vec<String> = Vec::new();
    r.push(String::from_str("AndroidProducts.mk"));
    r.push(String::from_str("BoardConfig.mk"));
    r.push(String::from_str("device.mk"));
    r.push(String::from_str("system.prop"));
    r.push(String::from_str("vendorsetup.sh"));
    r.push(String::from_str("extract-files.sh"));
    r.push(String::from_str("setup-makefiles.sh"));
    assert(views(r@) =~= key_files_spec());
    r
}

/// The expected directories of a device tree.
pub fn key_dirs() -> (r: Vec<String>)
    ensures
        views(r@) == key_dirs_spec(),
{
    let mut r: Vec<String> = Vec::new();
    r.push(String::from_str("overlay"));
    r.push(String::from_str("proprietary"));
    r.push(String::from_str("proprietary-files.txt"));
    r.push(String::from_str("configs"));
    r.push(String::from_str("rootdir"));
    r.push(String::from_str("recovery"));
    r.push(String::from_str("prebuilt"));
    assert(views(r@) =~= key_dirs_spec());
    r
}

fn has_entry(entries: &Vec<RootEntry>, name: &String, kind: EntryKind) -> (r: bool)
    ensures
        r == present(entries@, name@, kind),
{
    let mut j: usize = 0;
    while j < entries.len()
        invariant
            j <= entries@.len(),
            forall|k: int| 0 <= k < j ==> !(entries@[k].name@ == name@ && entries@[k].kind == kind),
        decreases entries@.len() - j,
    {
        if entries[j].name == *name && entries[j].kind == kind {
            return true;
        }
        j = j + 1;
    }
    false
}

/// For each of `markers`, whether an entry of `kind` bears its name; every
/// marker appears once, found or not.
pub fn presence(markers: &Vec<String>, entries: &Vec<RootEntry>, kind: EntryKind) -> (r: Vec<
    Presence,
>)
    ensures
        presence_of(r@, views(markers@), entries@, kind),
{
    let mut r: Vec<Presence> = Vec::new();
    let mut i: usize = 0;
    assert(marker_names(r@) =~= views(markers@).take(0));
    while i < markers.len()
        invariant
            i <= markers@.len(),
            presence_of(r@, views(markers@).take(i as int), entries@, kind),
            r@.len() == i,
        decreases markers@.len() - i,
    {
        let found = has_entry(entries, &markers[i], kind);
        let name = markers[i].clone();
        assert(name@ == views(markers@)[i as int]);
        let ghost old_r = r@;
        let ghost nv = name@;
        r.push(Presence { name, found });
        assert(marker_names(r@) =~= marker_names(old_r).push(nv));
        assert(views(markers@).take(i + 1) =~= views(markers@).take(i as int).push(nv));
        i = i + 1;
    }
    assert(views(markers@).take(i as int) =~= views(markers@));
    r
}

/// Matches the root's immediate children against the expected files and
/// directories. Each presence map holds every marker of its set, in the
/// set's order, whatever was found.
pub fn match_markers(entries: &Vec<RootEntry>) -> (r: (Vec<Presence>, Vec<Presence>))
    ensures
        presence_of(r.0@, key_files_spec(), entries@, EntryKind::File),
        presence_of(r.1@, key_dirs_spec(), entries@, EntryKind::Directory),
{
    let files = presence(&key_files(), entries, EntryKind::File);
    let dirs = presence(&key_dirs(), entries, EntryKind::Directory);
    (files, dirs)
}

/// Whether the marker `name` is recorded as found in `ps`.
pub fn found(ps: &Vec<Presence>, name: &str) -> (r: bool)
    ensures
        r == is_found(ps@, name@),
{
    let n = String::from_str(name);
    let mut i: usize = 0;
    while i < ps.len()
        invariant
            i <= ps@.len(),
            n@ == name@,
            forall|k: int| 0 <= k < i ==> !(ps@[k].name@ == name@ && ps@[k].found),
        decreases ps@.len() - i,
    {
        if ps[i].name == n && ps[i].found {
            return true;
        }
        i = i + 1;
    }
    false
}

pub open spec fn has_makefile_spec(files: Seq<Presence>) -> bool {
    is_found(files, "AndroidProducts.mk"@) || is_found(files, "device.mk"@)
}

pub open spec fn has_board_config_spec(files: Seq<Presence>) -> bool {
    is_found(files, "BoardConfig.mk"@)
}

/// A product makefile and the board configuration were both found.
pub fn structure_valid(files: &Vec<Presence>) -> (r: bool)
    ensures
        r == (has_makefile_spec(files@) && has_board_config_spec(files@)),
{
    let mk = found(files, "AndroidProducts.mk") || found(files, "device.mk");
    mk && found(files, "BoardConfig.mk")
}

/// Valid when both critical markers were found, partial when one was,
/// invalid when neither was.
pub fn verdict(files: &Vec<Presence>) -> (r: Verdict)
    ensures
        r == (if has_makefile_spec(files@) && has_board_config_spec(files@) {
            Verdict::Valid
        } else if has_makefile_spec(files@) || has_board_config_spec(files@) {
            Verdict::Partial
        } else {
            Verdict::Invalid
        }),
{
    let mk = found(files, "AndroidProducts.mk") || found(files, "device.mk");
    let bc = found(files, "BoardConfig.mk");
    if mk && bc {
        Verdict::Valid
    } else if mk || bc {
        Verdict::Partial
    } else {
        Verdict::Invalid
    }
}

} // verus!
