//! The whole inspection over what was read from the tree: driver collection
//! from the four sub-scans, and the assembled report.
use vstd::prelude::*;
use crate::device_info::{device_info_of, extract_device_info};
use crate::drivers::DriverMap;
use crate::markers::{
    has_board_config_spec, has_makefile_spec, is_found, key_dirs_spec, key_files_spec,
    match_markers, presence_of, structure_valid, found, EntryKind, RootEntry,
};
use crate::report::{pair_views, HardwareReport};
use crate::scan::{
    board_refs, dts_refs, parse_board_config, parse_device_mk, parse_dts_file, prebuilt_all,
    product_refs, record_all, scan_prebuilt_modules,
};
use crate::text::views;

verus! {

/// A device-tree source file: its base name and its lines.
pub struct SourceFile {
    pub name: String,
    pub lines: Vec<String>,
}

/// What the device-tree source files record, file by file.
pub open spec fn all_dts_refs(files: Seq<SourceFile>) -> Seq<(Seq<char>, Seq<char>)>
    decreases files.len(),
{
    if files.len() == 0 {
        seq![]
    } else {
        all_dts_refs(files.drop_last()) + dts_refs(files.last().name@, views(files.last().lines@))
    }
}

pub open spec fn opt_lines(o: Option<Vec<String>>) -> Seq<Seq<char>> {
    match o {
        Some(v) => views(v@),
        None => seq![],
    }
}

/// Everything the four sub-scans record, in scan order.
pub open spec fn driver_refs(
    dts: Seq<SourceFile>,
    board: Option<Vec<String>>,
    product: Option<Vec<String>>,
    prebuilt: Seq<Seq<char>>,
) -> Seq<(Seq<char>, Seq<char>)> {
    all_dts_refs(dts) + board_refs(opt_lines(board)) + product_refs(opt_lines(product))
        + prebuilt_all(prebuilt)
}

/// Runs the four sub-scans in order: device-tree sources (in walk order),
/// the board configuration and the product makefile (when present), then the
/// base names of the files found under the prebuilt directories.
pub fn list_device_drivers(
    dts_files: &Vec<SourceFile>,
    board_config: &Option<Vec<String>>,
    device_mk: &Option<Vec<String>>,
    prebuilt_files: &Vec<String>,
) -> (r: DriverMap)
    ensures
        r.wf(),
        r@ == record_all(
            Map::empty(),
            driver_refs(dts_files@, *board_config, *device_mk, views(prebuilt_files@)),
        ),
{
    let mut d = DriverMap::new();
    let ghost m0 = d@;
    let mut i: usize = 0;
    while i < dts_files.len()
        invariant
            i <= dts_files@.len(),
            d.wf(),
            m0 == Map::<Seq<char>, Seq<Seq<char>>>::empty(),
            d@ == record_all(m0, all_dts_refs(dts_files@.take(i as int))),
        decreases dts_files@.len() - i,
    {
        let f = &dts_files[i];
        parse_dts_file(f.name.as_str(), &f.lines, &mut d);
        proof {
            let pre = dts_files@.take(i as int);
            assert(dts_files@.take(i + 1).drop_last() =~= pre);
            crate::scan::lemma_record_all_append(
                m0,
                all_dts_refs(pre),
                dts_refs(f.name@, views(f.lines@)),
            );
        }
        i = i + 1;
    }
    assert(dts_files@.take(i as int) =~= dts_files@);
    let ghost a = all_dts_refs(dts_files@);
    match board_config {
        Some(lines) => parse_board_config(lines, &mut d),
        None => {
            assert(board_refs(seq![]) =~= seq![]);
        },
    }
    let ghost b = board_refs(opt_lines(*board_config));
    proof {
        crate::scan::lemma_record_all_append(m0, a, b);
    }
    match device_mk {
        Some(lines) => parse_device_mk(lines, &mut d),
        None => {
            assert(product_refs(seq![]) =~= seq![]);
        },
    }
    let ghost c = product_refs(opt_lines(*device_mk));
    proof {
        crate::scan::lemma_record_all_append(m0, a + b, c);
    }
    scan_prebuilt_modules(prebuilt_files, &mut d);
    proof {
        crate::scan::lemma_record_all_append(m0, a + b + c, prebuilt_all(views(prebuilt_files@)));
    }
    d
}

/// Assembles the report: marker presence from the root's immediate
/// children, device information from the path and (when the product list
/// makefile was found as a file) its lines, the collected drivers, and the
/// structure verdict.
pub fn build_report(
    tree_path: &str,
    entries: &Vec<RootEntry>,
    android_products: &Vec<String>,
    drivers: DriverMap,
) -> (r: HardwareReport)
    requires
        drivers.wf(),
    ensures
        r.drivers.wf(),
        r.drivers@ == drivers@,
        presence_of(r.key_files@, key_files_spec(), entries@, EntryKind::File),
        presence_of(r.key_dirs@, key_dirs_spec(), entries@, EntryKind::Directory),
        r.structure_valid == (has_makefile_spec(r.key_files@) && has_board_config_spec(
            r.key_files@,
        )),
        pair_views(r.device_info@) == device_info_of(
            tree_path@,
            if is_found(r.key_files@, "AndroidProducts.mk"@) {
                views(android_products@)
            } else {
                seq![]
            },
        ),
{
    let (files, dirs) = match_markers(entries);
    let info = if found(&files, "AndroidProducts.mk") {
        extract_device_info(tree_path, android_products)
    } else {
        let none: Vec<String> = Vec::new();
        assert(views(none@) =~= seq![]);
        extract_device_info(tree_path, &none)
    };
    let valid = structure_valid(&files);
    HardwareReport {
        device_info: info,
        key_files: files,
        key_dirs: dirs,
        drivers,
        structure_valid: valid,
    }
}

} // verus!
