//! Native extraction planning.
use launchcore::natives::{plan_native_extraction, should_extract_entry};

fn strs(v: &[&str]) -> Vec<String> {
    v.iter().map(|s| s.to_string()).collect()
}

#[test]
fn extraction_keeps_shared_libraries_with_structure() {
    let entries = strs(&["META-INF/MANIFEST.MF", "foo.dll", "bar.txt", "sub/baz.so"]);
    let out = plan_native_extraction(&entries, &Vec::new());
    assert_eq!(out, strs(&["foo.dll", "sub/baz.so"]));
}

#[test]
fn excludes_filter_by_substring() {
    let entries = strs(&["arm64/lib.so", "x64/lib.so"]);
    let out = plan_native_extraction(&entries, &strs(&["arm64"]));
    assert_eq!(out, strs(&["x64/lib.so"]));
}

#[test]
fn directories_and_meta_inf_skipped() {
    assert!(!should_extract_entry("META-INF/x.so", &Vec::new()));
    assert!(!should_extract_entry("sub/", &Vec::new()));
    assert!(should_extract_entry("native/lib.dylib", &Vec::new()));
}

#[test]
fn extension_must_sit_inside_the_file_name() {
    // A dotfile has no extension, and a bare name matches nothing.
    assert!(!should_extract_entry("sub/.so", &Vec::new()));
    assert!(!should_extract_entry("dll", &Vec::new()));
    assert!(should_extract_entry("a.b.dll", &Vec::new()));
}

#[test]
fn meta_inf_prefix_is_a_path_component() {
    // A directory merely starting with the reserved name is not reserved.
    assert!(should_extract_entry("META-INFO/lib.so", &Vec::new()));
}
