//! The four driver sub-scans over text already read: device-tree sources,
//! the board configuration, the product makefile and prebuilt module files.
//! Each records `(category, reference)` pairs into a `DriverMap`.
use vstd::prelude::*;
use vstd::string::StringExecFns;
use crate::drivers::{refs_in, DriverMap};
use crate::extract::{
    assignment_value, compatible_of, extract_compatible_string, extract_hal_name,
    extract_kernel_modules, extract_makefile_value, hal_of, modules_of,
};
use crate::text::{
    substring, chars_of, contains, contains_seq, ends_with, ends_with_seq, starts_with, starts_with_seq,
    trim, trim_bounds, views,
};

verus! {

pub open spec fn cat_device_tree() -> Seq<char> {
    "Device Tree Bindings"@
}

pub open spec fn cat_kernel_modules() -> Seq<char> {
    "Kernel Modules"@
}

pub open spec fn cat_wifi() -> Seq<char> {
    "WiFi Driver"@
}

pub open spec fn cat_bluetooth() -> Seq<char> {
    "Bluetooth Driver"@
}

pub open spec fn cat_platform() -> Seq<char> {
    "GPU/Platform"@
}

pub open spec fn cat_hal() -> Seq<char> {
    "HAL (Hardware Abstraction Layer)"@
}

pub open spec fn cat_audio() -> Seq<char> {
    "Audio Driver"@
}

pub open spec fn cat_camera() -> Seq<char> {
    "Camera Driver"@
}

pub open spec fn cat_prebuilt() -> Seq<char> {
    "Prebuilt Kernel Modules"@
}

/// The category map after recording one reference.
pub open spec fn record(
    m: Map<Seq<char>, Seq<Seq<char>>>,
    p: (Seq<char>, Seq<char>),
) -> Map<Seq<char>, Seq<Seq<char>>> {
    m.insert(p.0, refs_in(m, p.0).push(p.1))
}

/// The category map after recording `ps` in order.
pub open spec fn record_all(
    m: Map<Seq<char>, Seq<Seq<char>>>,
    ps: Seq<(Seq<char>, Seq<char>)>,
) -> Map<Seq<char>, Seq<Seq<char>>>
    decreases ps.len(),
{
    if ps.len() == 0 {
        m
    } else {
        record(record_all(m, ps.drop_last()), ps.last())
    }
}

pub proof fn lemma_record_all_append(
    m: Map<Seq<char>, Seq<Seq<char>>>,
    a: Seq<(Seq<char>, Seq<char>)>,
    b: Seq<(Seq<char>, Seq<char>)>,
)
    ensures
        record_all(m, a + b) == record_all(record_all(m, a), b),
    decreases b.len(),
{
    if b.len() == 0 {
        assert(a + b =~= a);
    } else {
        assert((a + b).drop_last() =~= a + b.drop_last());
        lemma_record_all_append(m, a, b.drop_last());
    }
}

/// Each of `items` paired with category `cat`.
pub open spec fn under(cat: Seq<char>, items: Seq<Seq<char>>) -> Seq<(Seq<char>, Seq<char>)> {
    items.map_values(|x: Seq<char>| (cat, x))
}

/// The pair `(cat, v)` when there is a `v`.
pub open spec fn under_opt(cat: Seq<char>, o: Option<Seq<char>>) -> Seq<(Seq<char>, Seq<char>)> {
    match o {
        Some(v) => seq![(cat, v)],
        None => seq![],
    }
}

/// `under_opt` when `cond` holds, nothing otherwise.
pub open spec fn when(cond: bool, ps: Seq<(Seq<char>, Seq<char>)>) -> Seq<(Seq<char>, Seq<char>)> {
    if cond {
        ps
    } else {
        seq![]
    }
}

/// What one trimmed board-configuration line records.
pub open spec fn board_line_refs(t: Seq<char>) -> Seq<(Seq<char>, Seq<char>)> {
    when(
        contains(t, "BOARD_VENDOR_KERNEL_MODULES"@) || contains(t, "KERNEL_MODULES"@),
        under(cat_kernel_modules(), modules_of(t)),
    ) + when(
        starts_with(t, "BOARD_WLAN_DEVICE"@) || starts_with(t, "WPA_SUPPLICANT_VERSION"@),
        under_opt(cat_wifi(), assignment_value(t)),
    ) + when(
        starts_with(t, "BOARD_HAVE_BLUETOOTH"@) || starts_with(t, "BOARD_BLUETOOTH_BDROID_BUILDCFG"@),
        under_opt(cat_bluetooth(), assignment_value(t)),
    ) + when(starts_with(t, "TARGET_BOARD_PLATFORM"@), under_opt(cat_platform(), assignment_value(t)))
}

/// What one trimmed product-makefile line records.
pub open spec fn product_line_refs(t: Seq<char>) -> Seq<(Seq<char>, Seq<char>)> {
    when(
        contains(t, "PRODUCT_PACKAGES"@) && contains(t, "android.hardware."@),
        under_opt(cat_hal(), hal_of(t)),
    ) + when(
        contains(t, "audio."@) || contains(t, "AUDIO_"@),
        under_opt(cat_audio(), assignment_value(t)),
    ) + when(
        contains(t, "camera."@) || contains(t, "CAMERA_"@),
        under_opt(cat_camera(), assignment_value(t)),
    )
}

/// The reference that a compatible string `c` found in file `file` becomes.
pub open spec fn binding_ref(c: Seq<char>, file: Seq<char>) -> Seq<char> {
    c + " ("@ + file + ")"@
}

/// What one trimmed line of device-tree source file `file` records.
pub open spec fn dts_line_refs(file: Seq<char>, t: Seq<char>) -> Seq<(Seq<char>, Seq<char>)> {
    if starts_with(t, "compatible"@) {
        match compatible_of(t) {
            Some(c) => seq![(cat_device_tree(), binding_ref(c, file))],
            None => seq![],
        }
    } else {
        seq![]
    }
}

/// What a module file name found under a prebuilt directory records.
pub open spec fn prebuilt_refs(name: Seq<char>) -> Seq<(Seq<char>, Seq<char>)> {
    when(ends_with(name, ".ko"@), seq![(cat_prebuilt(), name)])
}

/// What `lines` record, line by line, with `f` giving what one line records.
pub open spec fn over_lines(
    f: spec_fn(Seq<char>) -> Seq<(Seq<char>, Seq<char>)>,
    lines: Seq<Seq<char>>,
) -> Seq<(Seq<char>, Seq<char>)>
    decreases lines.len(),
{
    if lines.len() == 0 {
        seq![]
    } else {
        over_lines(f, lines.drop_last()) + f(lines.last())
    }
}

proof fn lemma_over_lines_step(
    f: spec_fn(Seq<char>) -> Seq<(Seq<char>, Seq<char>)>,
    lines: Seq<Seq<char>>,
    k: int,
    m: Map<Seq<char>, Seq<Seq<char>>>,
)
    requires
        0 <= k < lines.len(),
    ensures
        record_all(m, over_lines(f, lines.take(k + 1))) == record_all(
            record_all(m, over_lines(f, lines.take(k))),
            f(lines[k]),
        ),
{
    assert(lines.take(k + 1).drop_last() =~= lines.take(k));
    lemma_record_all_append(m, over_lines(f, lines.take(k)), f(lines[k]));
}

/// What the lines of a board configuration record.
pub open spec fn board_refs(lines: Seq<Seq<char>>) -> Seq<(Seq<char>, Seq<char>)> {
    over_lines(|l: Seq<char>| board_line_refs(trim(l)), lines)
}

/// What the lines of a product makefile record.
pub open spec fn product_refs(lines: Seq<Seq<char>>) -> Seq<(Seq<char>, Seq<char>)> {
    over_lines(|l: Seq<char>| product_line_refs(trim(l)), lines)
}

/// What the lines of device-tree source file `file` record.
pub open spec fn dts_refs(file: Seq<char>, lines: Seq<Seq<char>>) -> Seq<(Seq<char>, Seq<char>)> {
    over_lines(|l: Seq<char>| dts_line_refs(file, trim(l)), lines)
}

/// What the files found under the prebuilt directories record.
pub open spec fn prebuilt_all(names: Seq<Seq<char>>) -> Seq<(Seq<char>, Seq<char>)> {
    over_lines(|n: Seq<char>| prebuilt_refs(n), names)
}

/// `s` with surrounding whitespace removed.
pub fn trim_str(s: &str) -> (r: String)
    ensures
        r@ == trim(s@),
{
    let c = chars_of(s);
    let (a, b) = trim_bounds(&c, 0, c.len());
    assert(c@.subrange(0, c@.len() as int) =~= c@);
    substring(s, a, b)
}

fn add_opt(drivers: &mut DriverMap, cat: &str, v: Option<String>)
    requires
        old(drivers).wf(),
    ensures
        final(drivers).wf(),
        final(drivers)@ == record_all(
            old(drivers)@,
            under_opt(
                cat@,
                match v {
                    Some(x) => Some(x@),
                    None => None,
                },
            ),
        ),
{
    match v {
        Some(x) => {
            let ghost xv = x@;
            drivers.add(cat, x);
            let ghost ps = seq![(cat@, xv)];
            assert(ps.drop_last() =~= Seq::<(Seq<char>, Seq<char>)>::empty());
            assert(record_all(old(drivers)@, ps.drop_last()) == old(drivers)@);
            assert(record_all(old(drivers)@, ps) == record(old(drivers)@, (cat@, xv)));
        },
        None => {},
    }
}

fn add_each(drivers: &mut DriverMap, cat: &str, items: &Vec<String>)
    requires
        old(drivers).wf(),
    ensures
        final(drivers).wf(),
        final(drivers)@ == record_all(old(drivers)@, under(cat@, views(items@))),
{
    let mut i: usize = 0;
    while i < items.len()
        invariant
            i <= items@.len(),
            drivers.wf(),
            drivers@ == record_all(old(drivers)@, under(cat@, views(items@).take(i as int))),
        decreases items@.len() - i,
    {
        drivers.add(cat, items[i].clone());
        assert(under(cat@, views(items@).take(i + 1)).drop_last() =~= under(
            cat@,
            views(items@).take(i as int),
        ));
        i = i + 1;
    }
    assert(views(items@).take(i as int) =~= views(items@));
}

/// Records what one board-configuration line names: kernel modules, WiFi,
/// Bluetooth and platform settings.
pub fn record_board_line(line: &str, drivers: &mut DriverMap)
    requires
        old(drivers).wf(),
    ensures
        final(drivers).wf(),
        final(drivers)@ == record_all(old(drivers)@, board_line_refs(trim(line@))),
{
    let t = trim_str(line);
    let tc = chars_of(t.as_str());
    let ghost t0 = trim(line@);
    let ghost m0 = drivers@;
    let ghost a = when(
        contains(t0, "BOARD_VENDOR_KERNEL_MODULES"@) || contains(t0, "KERNEL_MODULES"@),
        under(cat_kernel_modules(), modules_of(t0)),
    );
    let ghost b = when(
        starts_with(t0, "BOARD_WLAN_DEVICE"@) || starts_with(t0, "WPA_SUPPLICANT_VERSION"@),
        under_opt(cat_wifi(), assignment_value(t0)),
    );
    let ghost c = when(
        starts_with(t0, "BOARD_HAVE_BLUETOOTH"@) || starts_with(t0, "BOARD_BLUETOOTH_BDROID_BUILDCFG"@),
        under_opt(cat_bluetooth(), assignment_value(t0)),
    );
    let ghost d = when(starts_with(t0, "TARGET_BOARD_PLATFORM"@), under_opt(cat_platform(), assignment_value(t0)));
    if contains_seq(&tc, &chars_of("BOARD_VENDOR_KERNEL_MODULES")) || contains_seq(
        &tc,
        &chars_of("KERNEL_MODULES"),
    ) {
        match extract_kernel_modules(t.as_str()) {
            Some(mods) => add_each(drivers, "Kernel Modules", &mods),
            None => {
                assert(under(cat_kernel_modules(), modules_of(t0)) =~= seq![]);
            },
        }
    }
    assert(drivers@ == record_all(m0, a));
    if starts_with_seq(&tc, &chars_of("BOARD_WLAN_DEVICE")) || starts_with_seq(
        &tc,
        &chars_of("WPA_SUPPLICANT_VERSION"),
    ) {
        add_opt(drivers, "WiFi Driver", extract_makefile_value(t.as_str()));
    }
    proof {
        lemma_record_all_append(m0, a, b);
    }
    if starts_with_seq(&tc, &chars_of("BOARD_HAVE_BLUETOOTH")) || starts_with_seq(
        &tc,
        &chars_of("BOARD_BLUETOOTH_BDROID_BUILDCFG"),
    ) {
        add_opt(drivers, "Bluetooth Driver", extract_makefile_value(t.as_str()));
    }
    proof {
        lemma_record_all_append(m0, a + b, c);
    }
    if starts_with_seq(&tc, &chars_of("TARGET_BOARD_PLATFORM")) {
        add_opt(drivers, "GPU/Platform", extract_makefile_value(t.as_str()));
    }
    proof {
        lemma_record_all_append(m0, a + b + c, d);
    }
}

/// Records what one product-makefile line names: HAL packages, audio and
/// camera settings. The three rules apply independently.
pub fn record_product_line(line: &str, drivers: &mut DriverMap)
    requires
        old(drivers).wf(),
    ensures
        final(drivers).wf(),
        final(drivers)@ == record_all(old(drivers)@, product_line_refs(trim(line@))),
{
    let t = trim_str(line);
    let tc = chars_of(t.as_str());
    let ghost t0 = trim(line@);
    let ghost m0 = drivers@;
    let ghost a = when(
        contains(t0, "PRODUCT_PACKAGES"@) && contains(t0, "android.hardware."@),
        under_opt(cat_hal(), hal_of(t0)),
    );
    let ghost b = when(
        contains(t0, "audio."@) || contains(t0, "AUDIO_"@),
        under_opt(cat_audio(), assignment_value(t0)),
    );
    let ghost c = when(
        contains(t0, "camera."@) || contains(t0, "CAMERA_"@),
        under_opt(cat_camera(), assignment_value(t0)),
    );
    if contains_seq(&tc, &chars_of("PRODUCT_PACKAGES")) && contains_seq(
        &tc,
        &chars_of("android.hardware."),
    ) {
        add_opt(drivers, "HAL (Hardware Abstraction Layer)", extract_hal_name(t.as_str()));
    }
    assert(drivers@ == record_all(m0, a));
    if contains_seq(&tc, &chars_of("audio.")) || contains_seq(&tc, &chars_of("AUDIO_")) {
        add_opt(drivers, "Audio Driver", extract_makefile_value(t.as_str()));
    }
    proof {
        lemma_record_all_append(m0, a, b);
    }
    if contains_seq(&tc, &chars_of("camera.")) || contains_seq(&tc, &chars_of("CAMERA_")) {
        add_opt(drivers, "Camera Driver", extract_makefile_value(t.as_str()));
    }
    proof {
        lemma_record_all_append(m0, a + b, c);
    }
}

/// Records the compatible string of one device-tree source line, as
/// `"<compatible> (<file>)"`.
pub fn record_dts_line(file_name: &str, line: &str, drivers: &mut DriverMap)
    requires
        old(drivers).wf(),
    ensures
        final(drivers).wf(),
        final(drivers)@ == record_all(old(drivers)@, dts_line_refs(file_name@, trim(line@))),
{
    let t = trim_str(line);
    let tc = chars_of(t.as_str());
    if starts_with_seq(&tc, &chars_of("compatible")) {
        match extract_compatible_string(t.as_str()) {
            Some(c) => {
                let r = c.concat(" (").concat(file_name).concat(")");
                add_opt(drivers, "Device Tree Bindings", Some(r));
            },
            None => {},
        }
    }
}

/// Scans the lines of the board configuration.
pub fn parse_board_config(lines: &Vec<String>, drivers: &mut DriverMap)
    requires
        old(drivers).wf(),
    ensures
        final(drivers).wf(),
        final(drivers)@ == record_all(old(drivers)@, board_refs(views(lines@))),
{
    let ghost f = |l: Seq<char>| board_line_refs(trim(l));
    let mut k: usize = 0;
    while k < lines.len()
        invariant
            f == (|l: Seq<char>| board_line_refs(trim(l))),
            k <= lines@.len(),
            drivers.wf(),
            drivers@ == record_all(old(drivers)@, over_lines(f, views(lines@).take(k as int))),
        decreases lines@.len() - k,
    {
        record_board_line(lines[k].as_str(), drivers);
        assert(views(lines@)[k as int] == lines@[k as int]@);
        assert(f(views(lines@)[k as int]) == board_line_refs(trim(lines@[k as int]@)));
        proof {
            lemma_over_lines_step(f, views(lines@), k as int, old(drivers)@);
        }
        k = k + 1;
    }
    assert(views(lines@).take(k as int) =~= views(lines@));
}

/// Scans the lines of the product makefile.
pub fn parse_device_mk(lines: &Vec<String>, drivers: &mut DriverMap)
    requires
        old(drivers).wf(),
    ensures
        final(drivers).wf(),
        final(drivers)@ == record_all(old(drivers)@, product_refs(views(lines@))),
{
    let ghost f = |l: Seq<char>| product_line_refs(trim(l));
    let mut k: usize = 0;
    while k < lines.len()
        invariant
            f == (|l: Seq<char>| product_line_refs(trim(l))),
            k <= lines@.len(),
            drivers.wf(),
            drivers@ == record_all(old(drivers)@, over_lines(f, views(lines@).take(k as int))),
        decreases lines@.len() - k,
    {
        record_product_line(lines[k].as_str(), drivers);
        assert(views(lines@)[k as int] == lines@[k as int]@);
        assert(f(views(lines@)[k as int]) == product_line_refs(trim(lines@[k as int]@)));
        proof {
            lemma_over_lines_step(f, views(lines@), k as int, old(drivers)@);
        }
        k = k + 1;
    }
    assert(views(lines@).take(k as int) =~= views(lines@));
}

/// Scans the lines of the device-tree source file named `file_name`.
pub fn parse_dts_file(file_name: &str, lines: &Vec<String>, drivers: &mut DriverMap)
    requires
        old(drivers).wf(),
    ensures
        final(drivers).wf(),
        final(drivers)@ == record_all(old(drivers)@, dts_refs(file_name@, views(lines@))),
{
    let ghost f = |l: Seq<char>| dts_line_refs(file_name@, trim(l));
    let mut k: usize = 0;
    while k < lines.len()
        invariant
            f == (|l: Seq<char>| dts_line_refs(file_name@, trim(l))),
            k <= lines@.len(),
            drivers.wf(),
            drivers@ == record_all(old(drivers)@, over_lines(f, views(lines@).take(k as int))),
        decreases lines@.len() - k,
    {
        record_dts_line(file_name, lines[k].as_str(), drivers);
        assert(views(lines@)[k as int] == lines@[k as int]@);
        assert(f(views(lines@)[k as int]) == dts_line_refs(file_name@, trim(lines@[k as int]@)));
        proof {
            lemma_over_lines_step(f, views(lines@), k as int, old(drivers)@);
        }
        k = k + 1;
    }
    assert(views(lines@).take(k as int) =~= views(lines@));
}

/// Whether a file name is a device-tree source (`.dts`) or include (`.dtsi`).
pub fn is_device_tree_source(name: &str) -> (r: bool)
    ensures
        r == (ends_with(name@, ".dts"@) || ends_with(name@, ".dtsi"@)),
{
    let n = chars_of(name);
    ends_with_seq(&n, &chars_of(".dts")) || ends_with_seq(&n, &chars_of(".dtsi"))
}

/// The subdirectories of the tree root searched for prebuilt modules.
pub fn prebuilt_dirs() -> (r: Vec<String>)
    ensures
        views(r@) == seq!["prebuilt"@, "proprietary"@, "vendor"@],
{
    let mut r: Vec<String> = Vec::new();
    r.push(String::from_str("prebuilt"));
    r.push(String::from_str("proprietary"));
    r.push(String::from_str("vendor"));
    assert(views(r@) =~= seq!["prebuilt"@, "proprietary"@, "vendor"@]);
    r
}

/// Records, from the base names of the files found under the prebuilt
/// directories (in walk order), those of kernel modules.
pub fn scan_prebuilt_modules(file_names: &Vec<String>, drivers: &mut DriverMap)
    requires
        old(drivers).wf(),
    ensures
        final(drivers).wf(),
        final(drivers)@ == record_all(old(drivers)@, prebuilt_all(views(file_names@))),
{
    let ghost f = |n: Seq<char>| prebuilt_refs(n);
    let ext = chars_of(".ko");
    let mut k: usize = 0;
    while k < file_names.len()
        invariant
            f == (|n: Seq<char>| prebuilt_refs(n)),
            k <= file_names@.len(),
            ext@ == ".ko"@,
            drivers.wf(),
            drivers@ == record_all(
                old(drivers)@,
                over_lines(f, views(file_names@).take(k as int)),
            ),
        decreases file_names@.len() - k,
    {
        let name = &file_names[k];
        if ends_with_seq(&chars_of(name.as_str()), &ext) {
            add_opt(drivers, "Prebuilt Kernel Modules", Some(name.clone()));
        } else {
            assert(record_all(drivers@, Seq::<(Seq<char>, Seq<char>)>::empty()) == drivers@);
        }
        assert(views(file_names@)[k as int] == file_names@[k as int]@);
        assert(f(views(file_names@)[k as int]) == prebuilt_refs(file_names@[k as int]@));
        proof {
            lemma_over_lines_step(f, views(file_names@), k as int, old(drivers)@);
        }
        k = k + 1;
    }
    assert(views(file_names@).take(k as int) =~= views(file_names@));
}

} // verus!
