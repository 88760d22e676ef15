//! Inspection of Android device trees: marker detection, heuristic driver
//! extraction from build configuration text, and plist report rendering.
//!
//! The library works on what was read from the tree (entry names, file
//! lines); walking directories and reading files is left to the caller.
pub mod text;
pub mod extract;
pub mod drivers;
pub mod order;
pub mod scan;
pub mod markers;
pub mod plist;
pub mod report;
pub mod device_info;
pub mod inspect;

pub use device_info::extract_device_info;
pub use drivers::DriverMap;
pub use extract::{
    extract_compatible_string, extract_hal_name, extract_kernel_modules, extract_makefile_value,
};
pub use inspect::{build_report, list_device_drivers, SourceFile};
pub use markers::{
    key_dirs, key_files, match_markers, structure_valid, verdict, EntryKind, Presence,
    RootEntry, Verdict,
};
pub use order::unique_sorted;
pub use plist::escape_xml;
pub use report::HardwareReport;
pub use text::split_lines;
pub use scan::{
    is_device_tree_source, parse_board_config, parse_device_mk, parse_dts_file, prebuilt_dirs,
    scan_prebuilt_modules,
};
