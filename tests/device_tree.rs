use device_tree_parser::{
    build_report, escape_xml, extract_compatible_string, extract_device_info, extract_hal_name,
    extract_kernel_modules, extract_makefile_value, is_device_tree_source, key_dirs, key_files,
    list_device_drivers, match_markers, parse_board_config, parse_device_mk, parse_dts_file,
    prebuilt_dirs, scan_prebuilt_modules, split_lines, structure_valid, unique_sorted, verdict, DriverMap,
    EntryKind, RootEntry, SourceFile, Verdict,
};

fn s(x: &str) -> String {
    x.to_string()
}

fn lines(xs: &[&str]) -> Vec<String> {
    xs.iter().map(|x| x.to_string()).collect()
}

fn file(name: &str) -> RootEntry {
    RootEntry { name: s(name), kind: EntryKind::File }
}

fn dir(name: &str) -> RootEntry {
    RootEntry { name: s(name), kind: EntryKind::Directory }
}

fn listing(d: &DriverMap) -> Vec<(String, Vec<String>)> {
    d.listing()
}

#[test]
fn presence_maps_cover_every_marker() {
    for entries in [vec![], vec![file("BoardConfig.mk"), dir("overlay"), file("unrelated")]] {
        let (files, dirs) = match_markers(&entries);
        let fnames: Vec<String> = files.iter().map(|p| p.name.clone()).collect();
        let dnames: Vec<String> = dirs.iter().map(|p| p.name.clone()).collect();
        assert_eq!(fnames, key_files());
        assert_eq!(dnames, key_dirs());
    }
}

#[test]
fn markers_require_matching_kind() {
    let entries = vec![dir("BoardConfig.mk"), file("overlay"), file("device.mk"), dir("prebuilt")];
    let (files, dirs) = match_markers(&entries);
    let f = |n: &str| files.iter().find(|p| p.name == n).unwrap().found;
    let d = |n: &str| dirs.iter().find(|p| p.name == n).unwrap().found;
    assert!(!f("BoardConfig.mk"));
    assert!(f("device.mk"));
    assert!(!d("overlay"));
    assert!(d("prebuilt"));
    assert!(!d("recovery"));
}

#[test]
fn board_config_and_device_mk_is_valid() {
    let (files, _) = match_markers(&vec![file("BoardConfig.mk"), file("device.mk")]);
    assert!(structure_valid(&files));
    assert_eq!(verdict(&files), Verdict::Valid);
}

#[test]
fn only_board_config_is_partial() {
    let (files, _) = match_markers(&vec![file("BoardConfig.mk")]);
    assert!(!structure_valid(&files));
    assert_eq!(verdict(&files), Verdict::Partial);
}

#[test]
fn no_makefiles_is_invalid() {
    let (files, _) = match_markers(&vec![file("system.prop"), dir("overlay")]);
    assert!(!structure_valid(&files));
    assert_eq!(verdict(&files), Verdict::Invalid);
}

#[test]
fn compatible_takes_first_quoted_pair() {
    let mut d = DriverMap::new();
    parse_dts_file("foo.dts", &lines(&["  compatible = \"qcom,msm8996\", \"qcom,other\";"]), &mut d);
    assert_eq!(
        listing(&d),
        vec![(s("Device Tree Bindings"), vec![s("qcom,msm8996 (foo.dts)")])]
    );
}

#[test]
fn compatible_string_extraction() {
    assert_eq!(extract_compatible_string("compatible = \"a,b\";"), Some(s("a,b")));
    assert_eq!(extract_compatible_string("compatible = \"\";"), Some(s("")));
    assert_eq!(extract_compatible_string("compatible = \"unterminated"), None);
    assert_eq!(extract_compatible_string("compatible = none"), None);
}

#[test]
fn dts_lines_without_marker_or_quotes_record_nothing() {
    let mut d = DriverMap::new();
    parse_dts_file(
        "x.dtsi",
        &lines(&["model = \"board\";", "compatible = nothing;", "status = \"okay\";"]),
        &mut d,
    );
    assert!(d.is_empty());
}

#[test]
fn board_kernel_modules_keep_only_ko() {
    let mut d = DriverMap::new();
    parse_board_config(&lines(&["BOARD_VENDOR_KERNEL_MODULES := a.ko b.ko c.txt"]), &mut d);
    assert_eq!(listing(&d), vec![(s("Kernel Modules"), vec![s("a.ko"), s("b.ko")])]);
}

#[test]
fn kernel_module_extraction() {
    assert_eq!(
        extract_kernel_modules("BOARD_VENDOR_KERNEL_MODULES := a.ko b.ko c.txt"),
        Some(vec![s("a.ko"), s("b.ko")])
    );
    assert_eq!(extract_kernel_modules("X := \t x.ko\ty.ko  "), Some(vec![s("x.ko"), s("y.ko")]));
    assert_eq!(extract_kernel_modules("KERNEL_MODULES := c.txt"), None);
    assert_eq!(extract_kernel_modules("KERNEL_MODULES = a.ko"), None);
}

#[test]
fn board_config_rule_table() {
    let mut d = DriverMap::new();
    parse_board_config(
        &lines(&[
            "  BOARD_WLAN_DEVICE := qcwcn  ",
            "WPA_SUPPLICANT_VERSION := VER_0_8_X",
            "BOARD_HAVE_BLUETOOTH := true",
            "BOARD_BLUETOOTH_BDROID_BUILDCFG_INCLUDE_DIR :=",
            "TARGET_BOARD_PLATFORM = msm8996",
            "# TARGET_BOARD_PLATFORM := ignored",
        ]),
        &mut d,
    );
    assert_eq!(
        listing(&d),
        vec![
            (s("Bluetooth Driver"), vec![s("true")]),
            (s("GPU/Platform"), vec![s("msm8996")]),
            (s("WiFi Driver"), vec![s("VER_0_8_X"), s("qcwcn")]),
        ]
    );
}

#[test]
fn makefile_value_extraction() {
    assert_eq!(extract_makefile_value("A := b"), Some(s("b")));
    assert_eq!(extract_makefile_value("A = b c "), Some(s("b c")));
    assert_eq!(extract_makefile_value("A := x = y"), Some(s("x = y")));
    assert_eq!(extract_makefile_value("A := "), None);
    assert_eq!(extract_makefile_value("no operator"), None);
}

#[test]
fn hal_name_extraction() {
    assert_eq!(
        extract_hal_name("PRODUCT_PACKAGES += android.hardware.audio@2.0-impl \\"),
        Some(s("android.hardware.audio@2.0-impl"))
    );
    assert_eq!(
        extract_hal_name("x android.hardware.light@2.0-service"),
        Some(s("android.hardware.light@2.0-service"))
    );
    assert_eq!(extract_hal_name("PRODUCT_PACKAGES += libfoo"), None);
}

#[test]
fn device_mk_rules_apply_independently() {
    let mut d = DriverMap::new();
    parse_device_mk(
        &lines(&[
            "PRODUCT_PACKAGES += android.hardware.audio@2.0-impl audio.primary.msm8996",
            "AUDIO_FEATURE_ENABLED_HIFI := true",
            "CAMERA_DAEMON := camera.msm8996",
            "PRODUCT_PACKAGES += libfoo",
        ]),
        &mut d,
    );
    assert_eq!(
        listing(&d),
        vec![
            (
                s("Audio Driver"),
                vec![s("android.hardware.audio@2.0-impl audio.primary.msm8996"), s("true")]
            ),
            (s("Camera Driver"), vec![s("camera.msm8996")]),
            (s("HAL (Hardware Abstraction Layer)"), vec![s("android.hardware.audio@2.0-impl")]),
        ]
    );
}

#[test]
fn prebuilt_modules_by_extension() {
    let mut d = DriverMap::new();
    scan_prebuilt_modules(&lines(&["wlan.ko", "readme.txt", "ko", "x.ko.bak", "wlan.ko"]), &mut d);
    assert_eq!(d.refs(&s("Prebuilt Kernel Modules")), vec![s("wlan.ko"), s("wlan.ko")]);
    assert_eq!(listing(&d), vec![(s("Prebuilt Kernel Modules"), vec![s("wlan.ko")])]);
    assert_eq!(prebuilt_dirs(), vec![s("prebuilt"), s("proprietary"), s("vendor")]);
}

#[test]
fn device_tree_source_names() {
    assert!(is_device_tree_source("a.dts"));
    assert!(is_device_tree_source("a.dtsi"));
    assert!(!is_device_tree_source("a.dtb"));
    assert!(!is_device_tree_source("dts"));
}

#[test]
fn duplicates_collapse_sorted() {
    assert_eq!(unique_sorted(&lines(&["x", "x", "y"])), vec![s("x"), s("y")]);
    assert_eq!(unique_sorted(&lines(&["b", "a", "B", "b", ""])), vec![s(""), s("B"), s("a"), s("b")]);
    assert_eq!(unique_sorted(&lines(&["ab", "a", "é", "z"])), vec![s("a"), s("ab"), s("z"), s("é")]);
    let mut d = DriverMap::new();
    d.add("Cat", s("x"));
    d.add("Cat", s("x"));
    d.add("Cat", s("y"));
    assert_eq!(listing(&d), vec![(s("Cat"), vec![s("x"), s("y")])]);
}

#[test]
fn category_map_creates_lazily() {
    let mut d = DriverMap::new();
    assert!(d.is_empty());
    assert_eq!(d.refs(&s("WiFi Driver")), Vec::<String>::new());
    d.add("WiFi Driver", s("b"));
    d.add("Audio Driver", s("a"));
    d.add("WiFi Driver", s("a"));
    assert!(!d.is_empty());
    assert_eq!(d.refs(&s("WiFi Driver")), vec![s("b"), s("a")]);
    assert_eq!(d.categories(), vec![s("WiFi Driver"), s("Audio Driver")]);
}

#[test]
fn escaping_replaces_exactly_five() {
    assert_eq!(escape_xml("a&b<c>d\"e'f"), "a&amp;b&lt;c&gt;d&quot;e&apos;f");
    assert_eq!(escape_xml("plain text é/;"), "plain text é/;");
    assert_eq!(escape_xml("&amp;"), "&amp;amp;");
    assert_eq!(escape_xml(""), "");
}

#[test]
fn device_info_from_path_and_products() {
    let info = extract_device_info(
        "/src/device/xiaomi/gemini",
        &lines(&["PRODUCT_MAKEFILES := x", "PRODUCT_NAME := lineage_gemini", "PRODUCT_NAME = last"]),
    );
    assert_eq!(
        info,
        vec![
            (s("vendor"), s("xiaomi")),
            (s("device"), s("gemini")),
            (s("product_name"), s("last")),
        ]
    );
    assert_eq!(extract_device_info("gemini", &vec![]), vec![]);
    assert_eq!(
        extract_device_info("a/", &lines(&["PRODUCT_NAME"])),
        vec![(s("vendor"), s("a")), (s("device"), s("")), (s("product_name"), s(""))]
    );
}

#[test]
fn drivers_from_all_four_scans() {
    let dts = vec![SourceFile {
        name: s("board.dtsi"),
        lines: lines(&["compatible = \"qcom,pm8994\";"]),
    }];
    let d = list_device_drivers(
        &dts,
        &Some(lines(&["TARGET_BOARD_PLATFORM := msm8996"])),
        &None,
        &lines(&["m.ko"]),
    );
    assert_eq!(
        listing(&d),
        vec![
            (s("Device Tree Bindings"), vec![s("qcom,pm8994 (board.dtsi)")]),
            (s("GPU/Platform"), vec![s("msm8996")]),
            (s("Prebuilt Kernel Modules"), vec![s("m.ko")]),
        ]
    );
}

fn sample_report() -> device_tree_parser::HardwareReport {
    let mut d = DriverMap::new();
    d.add("Kernel Modules", s("b.ko"));
    d.add("Kernel Modules", s("a.ko"));
    d.add("Kernel Modules", s("b.ko"));
    d.add("Audio Driver", s("x<&>\"'"));
    build_report(
        "vendor/acme/phone",
        &vec![file("AndroidProducts.mk"), file("BoardConfig.mk"), dir("overlay")],
        &lines(&["PRODUCT_NAME := acme_phone"]),
        d,
    )
}

#[test]
fn plist_document_exact() {
    let r = build_report("x", &vec![], &vec![], DriverMap::new());
    let doc = r.to_plist();
    let mut expected = String::new();
    expected.push_str("<?xml version=\"1.0\" encoding=\"UTF-8\"?>\n");
    expected.push_str("<!DOCTYPE plist PUBLIC \"-//Apple//DTD PLIST 1.0//EN\" \"http://www.apple.com/DTDs/PropertyList-1.0.dtd\">\n");
    expected.push_str("<plist version=\"1.0\">\n<dict>\n");
    expected.push_str("\t<key>DeviceInformation</key>\n\t<dict>\n\t</dict>\n");
    expected.push_str("\t<key>StructureValid</key>\n\t<false />\n");
    expected.push_str("\t<key>KeyFiles</key>\n\t<dict>\n");
    let mut kf = key_files();
    kf.sort();
    for k in kf {
        expected.push_str(&format!("\t\t<key>{}</key>\n\t\t<false />\n", k));
    }
    expected.push_str("\t</dict>\n\t<key>KeyDirectories</key>\n\t<dict>\n");
    let mut kd = key_dirs();
    kd.sort();
    for k in kd {
        expected.push_str(&format!("\t\t<key>{}</key>\n\t\t<false />\n", k));
    }
    expected.push_str("\t</dict>\n\t<key>DeviceDrivers</key>\n\t<dict>\n\t</dict>\n</dict>\n</plist>\n");
    assert_eq!(doc, expected);
}

#[test]
fn plist_report_contents() {
    let r = sample_report();
    assert!(r.structure_valid);
    let doc = r.to_plist();
    assert!(doc.contains("\t<key>StructureValid</key>\n\t<true />\n"));
    assert!(doc.contains("\t\t<key>device</key>\n\t\t<string>phone</string>\n\t\t<key>product_name</key>\n\t\t<string>acme_phone</string>\n\t\t<key>vendor</key>\n\t\t<string>acme</string>\n"));
    assert!(doc.contains("\t\t<key>Audio Driver</key>\n\t\t<array>\n\t\t\t<string>x&lt;&amp;&gt;&quot;&apos;</string>\n\t\t</array>\n\t\t<key>Kernel Modules</key>\n\t\t<array>\n\t\t\t<string>a.ko</string>\n\t\t\t<string>b.ko</string>\n\t\t</array>\n"));
}

fn unescape(x: &str) -> String {
    x.replace("&lt;", "<")
        .replace("&gt;", ">")
        .replace("&quot;", "\"")
        .replace("&apos;", "'")
        .replace("&amp;", "&")
}

fn inner<'a>(line: &'a str, open: &str, close: &str) -> Option<&'a str> {
    let t = line.trim();
    t.strip_prefix(open).and_then(|r| r.strip_suffix(close))
}

#[test]
fn plist_round_trip() {
    let r = sample_report();
    let doc = r.to_plist();
    let mut section = String::new();
    let mut key: Option<String> = None;
    let mut info: Vec<(String, String)> = vec![];
    let mut files: Vec<(String, bool)> = vec![];
    let mut dirs: Vec<(String, bool)> = vec![];
    let mut drivers: Vec<(String, Vec<String>)> = vec![];
    for line in doc.lines() {
        if let Some(k) = inner(line, "<key>", "</key>") {
            if line.starts_with("\t\t") {
                key = Some(unescape(k));
                if section == "DeviceDrivers" {
                    drivers.push((unescape(k), vec![]));
                }
            } else {
                section = k.to_string();
            }
        } else if let Some(v) = inner(line, "<string>", "</string>") {
            if section == "DeviceInformation" {
                info.push((key.clone().unwrap(), unescape(v)));
            } else {
                drivers.last_mut().unwrap().1.push(unescape(v));
            }
        } else if line.starts_with("\t\t<") && (line.trim() == "<true />" || line.trim() == "<false />") {
            let b = line.trim() == "<true />";
            if section == "KeyFiles" {
                files.push((key.clone().unwrap(), b));
            } else {
                dirs.push((key.clone().unwrap(), b));
            }
        }
    }
    let mut want_info = r.device_info.clone();
    want_info.sort();
    assert_eq!(info, want_info);
    let mut want_files: Vec<(String, bool)> = r.key_files.iter().map(|p| (p.name.clone(), p.found)).collect();
    want_files.sort();
    assert_eq!(files, want_files);
    let mut want_dirs: Vec<(String, bool)> = r.key_dirs.iter().map(|p| (p.name.clone(), p.found)).collect();
    want_dirs.sort();
    assert_eq!(dirs, want_dirs);
    assert_eq!(drivers, r.drivers.listing());
}

#[test]
fn lines_split_like_std() {
    for text in ["", "a", "a\n", "a\r\nb", "\n", "\n\nx\r", "a\r\n\r\n", "é\nü"] {
        let want: Vec<String> = text.lines().map(String::from).collect();
        assert_eq!(split_lines(text), want, "{:?}", text);
    }
    assert_eq!(split_lines("x\r\ny\n"), vec![s("x"), s("y")]);
}
