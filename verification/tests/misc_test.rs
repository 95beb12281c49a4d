//! Identity, catalog, metadata, instances, profile merging and string
//! helpers.
use launchcore::auth::{AuthData, generate_offline_uuid, login_offline};
use launchcore::details::{ArgumentItem, Arguments, AssetIndex, DownloadInfo, Downloads, Library,
    NewArguments, VersionDetails};
use launchcore::errors::LaunchError;
use launchcore::instances::{apply_instance_update, make_instance, sort_instances_by_created};
use launchcore::launch::{LoaderProfile, apply_loader_profile};
use launchcore::manifest::{LatestVersions, MinecraftVersion, VersionManager, VersionManifest,
    find_version_url, release_versions};
use launchcore::modmeta::{extract_toml_value, mod_icon_candidates, normalize_icon_path,
    parse_mods_toml};
use launchcore::strutil::{contains_str, ends_with_str, replace_all, split_char, split_words,
    starts_with_str, str_eq, to_lowercase_str, trim_char_str, trim_str};

#[test]
fn offline_uuid_is_name_derived() {
    assert_eq!(generate_offline_uuid("Steve"), "5627dd98-e6be-3c21-b8a8-e92344183641");
    assert_eq!(generate_offline_uuid("Alex"), "36532b5e-c442-3dbb-a24c-c7e55d0f979a");
}

#[test]
fn offline_login_fields() {
    let r = login_offline("Steve".to_string());
    assert_eq!(r.access_token, "offline_token");
    assert_eq!(r.refresh_token, "none");
    assert_eq!(r.expires_in, 0);
    assert_eq!(r.username, "Steve");
    assert_eq!(r.uuid, "offline-Steve");
    assert_eq!(r.xuid, "0");
    assert_eq!(r.mode, "offline");
}

fn mv(id: &str, ty: &str, url: &str) -> MinecraftVersion {
    MinecraftVersion {
        id: id.to_string(),
        version_type: ty.to_string(),
        url: url.to_string(),
        time: String::new(),
        release_time: String::new(),
    }
}

#[test]
fn release_filter_keeps_order() {
    let versions = vec![
        mv("1.21", "release", "u1"),
        mv("24w14a", "snapshot", "u2"),
        mv("1.20.6", "release", "u3"),
    ];
    let out = release_versions(&versions);
    assert_eq!(out.len(), 2);
    assert_eq!(out[0].id, "1.21");
    assert_eq!(out[1].id, "1.20.6");
}

#[test]
fn version_lookup_by_id() {
    let versions = vec![mv("1.21", "release", "https://meta/1.21.json")];
    assert_eq!(find_version_url(&versions, "1.21"), Ok("https://meta/1.21.json".to_string()));
    match find_version_url(&versions, "1.99") {
        Err(LaunchError::VersionNotFound(v)) => {
            assert_eq!(v, "1.99");
            assert_eq!(
                LaunchError::VersionNotFound(v).message(),
                "version not found: 1.99"
            );
        },
        other => panic!("unexpected: {:?}", other),
    }
}

#[test]
fn manifest_model_holds() {
    let m = VersionManifest {
        latest: LatestVersions { release: "1.21".to_string(), snapshot: "24w14a".to_string() },
        versions: vec![mv("1.21", "release", "u")],
    };
    assert_eq!(m.latest.release, "1.21");
    let mgr = VersionManager::new("/mc/versions".to_string());
    assert_eq!(mgr.cache_dir, "/mc/versions");
}

#[test]
fn error_messages() {
    assert_eq!(
        LaunchError::NetworkError("timed out".to_string()).message(),
        "network failure: timed out"
    );
    assert_eq!(
        LaunchError::ParseError("bad json".to_string()).message(),
        "malformed payload: bad json"
    );
    assert_eq!(
        LaunchError::InstallerExecutionError("exit 1".to_string()).message(),
        "installer failed: exit 1"
    );
    assert_eq!(
        LaunchError::MissingArtifactPath("g:a:1.0".to_string()).message(),
        "artifact missing path field: g:a:1.0"
    );
    assert_eq!(
        LaunchError::JavaNotFound.message(),
        "Java not found. Please install Java 17 or newer."
    );
    assert_eq!(LaunchError::HttpStatusError(404).message(), "request failed with an error status");
    assert_eq!(
        LaunchError::UnknownInstallerLayout.message(),
        "unknown installer package layout"
    );
}

#[test]
fn toml_value_extraction() {
    assert_eq!(extract_toml_value("modId = \"examplemod\""), Some("examplemod".to_string()));
    assert_eq!(extract_toml_value("version='1.0.0'"), Some("1.0.0".to_string()));
    assert_eq!(extract_toml_value("no equals here"), None);
    // Only the text up to the second separator counts.
    assert_eq!(extract_toml_value("k = a=b"), Some("a".to_string()));
}

#[test]
fn mods_toml_scan_first_values_win() {
    let content = "[[mods]]\nmodId = \"examplemod\"\ndisplayName = \"Example\"\nversion = \"1.2.3\"\nmodId = \"second\"\n";
    let m = parse_mods_toml(content);
    assert_eq!(m.id, Some("examplemod".to_string()));
    assert_eq!(m.name, Some("Example".to_string()));
    assert_eq!(m.version, Some("1.2.3".to_string()));
}

#[test]
fn mods_toml_without_id_is_empty() {
    let m = parse_mods_toml("displayName = \"Example\"\n");
    assert_eq!(m.id, None);
    assert_eq!(m.name, None);
    assert_eq!(m.version, None);
}

#[test]
fn icon_path_rules() {
    assert_eq!(normalize_icon_path("./icon.png"), "icon.png");
    assert_eq!(normalize_icon_path("assets/icon.png"), "assets/icon.png");
    assert_eq!(
        mod_icon_candidates(),
        vec!["icon.png", "logo.png", "mod_icon.png", "pack.png"]
    );
}

#[test]
fn instance_lifecycle() {
    let inst = make_instance(
        "id-1".to_string(),
        "My pack".to_string(),
        "1.20.4".to_string(),
        Some("fabric".to_string()),
        Some("0.15.6".to_string()),
        None,
        1000,
    );
    assert_eq!(inst.versions, Some(vec!["1.20.4".to_string()]));
    assert_eq!(inst.icon, None);
    let updated = apply_instance_update(
        inst,
        Some("Renamed".to_string()),
        None,
        None,
        None,
        None,
        Some("icon.png".to_string()),
        None,
    );
    assert_eq!(updated.name, "Renamed");
    assert_eq!(updated.version, "1.20.4");
    assert_eq!(updated.icon, Some("icon.png".to_string()));
    assert_eq!(updated.created, 1000);
}

#[test]
fn instances_sorted_newest_first() {
    let mk = |id: &str, created: u64| {
        make_instance(id.to_string(), id.to_string(), "1.20".to_string(), None, None, None, created)
    };
    let out = sort_instances_by_created(vec![mk("a", 10), mk("b", 30), mk("c", 20)]);
    assert_eq!(out[0].id, "b");
    assert_eq!(out[1].id, "c");
    assert_eq!(out[2].id, "a");
}

fn details_with(arguments: Option<Arguments>, minecraft_arguments: Option<String>) -> VersionDetails {
    VersionDetails {
        id: "1.20.4".to_string(),
        version_type: "release".to_string(),
        assets: "12".to_string(),
        asset_index: AssetIndex {
            id: "12".to_string(),
            sha1: String::new(),
            size: 0,
            url: String::new(),
            total_size: 0,
        },
        downloads: Downloads {
            client: DownloadInfo { sha1: String::new(), size: 0, url: String::new(), path: None },
            server: None,
        },
        libraries: vec![
            Library {
                name: "g:a:1.0".to_string(),
                downloads: None,
                url: None,
                natives: None,
                rules: None,
                extract: None,
            },
        ],
        main_class: "net.minecraft.client.main.Main".to_string(),
        minecraft_arguments,
        arguments,
    }
}

fn profile_with(arguments: Option<Arguments>) -> LoaderProfile {
    LoaderProfile {
        id: "fabric-loader-0.15.6-1.20.4".to_string(),
        inherits_from: "1.20.4".to_string(),
        main_class: "net.fabricmc.loader.impl.launch.knot.KnotClient".to_string(),
        libraries: vec![
            Library {
                name: "g:a:2.0".to_string(),
                downloads: None,
                url: None,
                natives: None,
                rules: None,
                extract: None,
            },
        ],
        arguments,
    }
}

#[test]
fn profile_overrides_main_class_and_merges_libraries() {
    let mut d = details_with(None, None);
    apply_loader_profile(&mut d, profile_with(None));
    assert_eq!(d.main_class, "net.fabricmc.loader.impl.launch.knot.KnotClient");
    assert_eq!(d.libraries.len(), 1);
    assert_eq!(d.libraries[0].name, "g:a:2.0");
    assert_eq!(d.id, "1.20.4");
}

#[test]
fn profile_arguments_appended_to_structured_lists() {
    let base = Arguments::New(
        NewArguments {
            game: vec![ArgumentItem::Simple("--base".to_string())],
            jvm: vec![],
        },
    );
    let extra = Arguments::New(
        NewArguments {
            game: vec![ArgumentItem::Simple("--extra".to_string())],
            jvm: vec![ArgumentItem::Simple("-DFabricMcEmu".to_string())],
        },
    );
    let mut d = details_with(Some(base), None);
    apply_loader_profile(&mut d, profile_with(Some(extra)));
    match d.arguments {
        Some(Arguments::New(na)) => {
            assert_eq!(na.game.len(), 2);
            assert_eq!(na.game[0], ArgumentItem::Simple("--base".to_string()));
            assert_eq!(na.game[1], ArgumentItem::Simple("--extra".to_string()));
            assert_eq!(na.jvm.len(), 1);
        },
        other => panic!("unexpected: {:?}", other),
    }
}

#[test]
fn legacy_profile_arguments_space_appended() {
    let mut d = details_with(None, Some("--username ${auth_player_name}".to_string()));
    apply_loader_profile(
        &mut d,
        profile_with(Some(Arguments::Old("--tweakClass x.Tweaker".to_string()))),
    );
    assert_eq!(
        d.minecraft_arguments,
        Some("--username ${auth_player_name} --tweakClass x.Tweaker".to_string())
    );
}

#[test]
fn structured_profile_arguments_on_bare_descriptor() {
    let extra = Arguments::New(
        NewArguments { game: vec![ArgumentItem::Simple("--extra".to_string())], jvm: vec![] },
    );
    let mut d = details_with(None, None);
    apply_loader_profile(&mut d, profile_with(Some(extra.clone())));
    assert_eq!(d.arguments, Some(extra));
}

#[test]
fn auth_data_variants_carry_identity() {
    let ms = AuthData::Microsoft {
        access_token: "tok".to_string(),
        uuid: "u".to_string(),
        username: "Steve".to_string(),
        xuid: Some("123".to_string()),
    };
    match ms {
        AuthData::Microsoft { username, .. } => assert_eq!(username, "Steve"),
        _ => panic!("wrong variant"),
    }
}

#[test]
fn string_helpers() {
    assert!(str_eq("abc", "abc"));
    assert!(!str_eq("abc", "abd"));
    assert!(contains_str("hello world", "lo wo"));
    assert!(!contains_str("hello", "world"));
    assert!(starts_with_str("META-INF/x", "META-INF/"));
    assert!(ends_with_str("crash-2024.txt", ".txt"));
    assert_eq!(replace_all("a.b.c", ".", "/"), "a/b/c");
    assert_eq!(replace_all("aaa", "aa", "b"), "ba");
    assert_eq!(trim_str("  x \t"), "x");
    assert_eq!(trim_char_str("\"quoted\"", '"'), "quoted");
    assert_eq!(to_lowercase_str("NeoForge"), "neoforge");
    assert_eq!(split_char("a:b::c", ':'), vec!["a", "b", "", "c"]);
    assert_eq!(split_words("  a  b \t c "), vec!["a", "b", "c"]);
}
