//! Loader version lists, version ordering and installer layout decisions.
use std::cmp::Ordering;
use launchcore::loaders::{InstallerLayout, LoaderKind, compare_versions, detect_installer_layout,
    fabric_loader_versions, fabric_profile_url, fabric_versions_url, forge_installer_url,
    forge_loader_versions, forge_manifest_entry, installer_marker_entry,
    installer_package_prefix, neoforge_installer_url, neoforge_loader_versions,
    neoforge_manifest_entry, parse_loader_kind, quilt_loader_versions, quilt_profile_url,
    sort_loader_versions, LoaderVersion};
use launchcore::errors::LaunchError;

#[test]
fn numeric_version_comparison() {
    assert_eq!(compare_versions("1.2.3", "1.2.4"), Ordering::Less);
    assert_eq!(compare_versions("1.10", "1.9"), Ordering::Greater);
    assert_eq!(compare_versions("1.2", "1.2.1"), Ordering::Less);
    assert_eq!(compare_versions("1.2.0", "1.2.0"), Ordering::Equal);
    // Non-numeric separators only delimit components.
    assert_eq!(compare_versions("0.16.9", "0.16.10-beta.1"), Ordering::Less);
}

#[test]
fn oversized_components_are_dropped() {
    // A component that does not fit 32 bits is skipped, as a failed parse.
    assert_eq!(compare_versions("1.99999999999", "1"), Ordering::Equal);
}

#[test]
fn fabric_list_sorted_stable_first_newest_first() {
    let raw = vec![
        ("0.14.0".to_string(), true),
        ("0.16.0-beta.1".to_string(), false),
        ("0.15.0".to_string(), true),
    ];
    let out = fabric_loader_versions(&raw);
    assert_eq!(out.len(), 3);
    assert_eq!(out[0].version, "0.15.0");
    assert_eq!(out[0].id, "fabric-0.15.0");
    assert_eq!(out[0].loader, "fabric");
    assert!(out[0].stable);
    assert_eq!(out[1].version, "0.14.0");
    assert_eq!(out[2].version, "0.16.0-beta.1");
    assert!(!out[2].stable);
}

#[test]
fn quilt_prerelease_marked_unstable() {
    let out = quilt_loader_versions(&vec![
        "0.21.0".to_string(),
        "0.22.0-beta.1".to_string(),
        "0.20.0-alpha.2".to_string(),
    ]);
    assert_eq!(out[0].version, "0.21.0");
    assert!(out[0].stable);
    assert!(!out[1].stable && !out[2].stable);
    assert_eq!(out[1].id, "quilt-0.22.0-beta.1");
}

#[test]
fn neoforge_versions_filtered_by_game_version_prefix() {
    let all = vec![
        "20.4.100".to_string(),
        "20.4.50-beta".to_string(),
        "21.0.1".to_string(),
    ];
    let out = neoforge_loader_versions(&all, "1.20.4");
    assert_eq!(out.len(), 2);
    assert_eq!(out[0].version, "20.4.100");
    assert!(out[0].stable);
    assert_eq!(out[1].version, "20.4.50-beta");
    assert!(!out[1].stable);
    assert_eq!(out[0].id, "neoforge-20.4.100");
    assert_eq!(out[0].loader, "neoforge");
}

#[test]
fn forge_promotions_recommended_then_latest() {
    let promos = vec![
        ("1.20.1-recommended".to_string(), "47.2.0".to_string()),
        ("1.20.1-latest".to_string(), "47.3.1".to_string()),
    ];
    let out = forge_loader_versions(&promos, "1.20.1");
    assert_eq!(out.len(), 2);
    assert_eq!(out[0].version, "47.2.0");
    assert!(out[0].stable);
    assert_eq!(out[1].version, "47.3.1");
    assert!(!out[1].stable);
}

#[test]
fn forge_duplicate_latest_skipped() {
    let promos = vec![
        ("1.20.1-recommended".to_string(), "47.2.0".to_string()),
        ("1.20.1-latest".to_string(), "47.2.0".to_string()),
    ];
    let out = forge_loader_versions(&promos, "1.20.1");
    assert_eq!(out.len(), 1);
    assert_eq!(out[0].id, "forge-47.2.0");
}

#[test]
fn forge_without_promotions_is_empty() {
    let out = forge_loader_versions(&Vec::new(), "1.20.1");
    assert!(out.is_empty());
}

#[test]
fn loader_names_parse_case_insensitively() {
    assert_eq!(parse_loader_kind("Fabric"), Some(LoaderKind::Fabric));
    assert_eq!(parse_loader_kind("NEOFORGE"), Some(LoaderKind::NeoForge));
    assert_eq!(parse_loader_kind("quilt"), Some(LoaderKind::Quilt));
    assert_eq!(parse_loader_kind("forge"), Some(LoaderKind::Forge));
    assert_eq!(parse_loader_kind("vanilla"), None);
    assert_eq!(parse_loader_kind("unknown"), None);
}

#[test]
fn endpoint_urls() {
    assert_eq!(
        fabric_profile_url("1.20.4", "0.15.6"),
        "https://meta.fabricmc.net/v2/versions/loader/1.20.4/0.15.6/profile/json"
    );
    assert_eq!(
        quilt_profile_url("1.20.4", "0.23.1"),
        "https://meta.quiltmc.org/v3/versions/loader/1.20.4/0.23.1/profile/json"
    );
    assert_eq!(
        fabric_versions_url("1.20.4"),
        "https://meta.fabricmc.net/v2/versions/loader/1.20.4"
    );
    assert_eq!(
        neoforge_installer_url("20.4.100"),
        "https://maven.neoforged.net/releases/net/neoforged/neoforge/20.4.100/neoforge-20.4.100-installer.jar"
    );
    assert_eq!(
        forge_installer_url("1.20.1", "47.2.0"),
        "https://maven.minecraftforge.net/net/minecraftforge/forge/1.20.1-47.2.0/forge-1.20.1-47.2.0-installer.jar"
    );
}

#[test]
fn installer_layout_detection() {
    assert_eq!(detect_installer_layout(true, false), Ok(InstallerLayout::Neoforged));
    assert_eq!(detect_installer_layout(true, true), Ok(InstallerLayout::Neoforged));
    assert_eq!(detect_installer_layout(false, true), Ok(InstallerLayout::Minecraftforge));
    match detect_installer_layout(false, false) {
        Err(LaunchError::UnknownInstallerLayout) => (),
        other => panic!("unexpected: {:?}", other),
    }
}

#[test]
fn installer_markers_and_prefixes() {
    assert_eq!(
        installer_marker_entry(InstallerLayout::Neoforged),
        "net/neoforged/installer/SimpleInstaller.class"
    );
    assert_eq!(installer_package_prefix(InstallerLayout::Minecraftforge), "net.minecraftforge");
    assert_eq!(neoforge_manifest_entry(true, true), Some("client.json".to_string()));
    assert_eq!(neoforge_manifest_entry(false, true), Some("version.json".to_string()));
    assert_eq!(neoforge_manifest_entry(false, false), None);
    assert_eq!(forge_manifest_entry(false, true), Some("install_profile.json".to_string()));
}

#[test]
fn sort_is_a_permutation() {
    let v = vec![
        LoaderVersion {
            id: "a".to_string(),
            loader: "fabric".to_string(),
            version: "1.0".to_string(),
            stable: false,
        },
        LoaderVersion {
            id: "b".to_string(),
            loader: "fabric".to_string(),
            version: "2.0".to_string(),
            stable: true,
        },
    ];
    let out = sort_loader_versions(v);
    assert_eq!(out.len(), 2);
    assert_eq!(out[0].id, "b");
    assert_eq!(out[1].id, "a");
}
