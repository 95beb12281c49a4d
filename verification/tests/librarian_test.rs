//! Library merge, maven paths and the cache-aware resolution plan.
use launchcore::details::{DownloadInfo, Extract, Library, LibraryDownloads, OsRule, Rule};
use launchcore::librarian::{ClasspathEntry, LibraryAction, LibraryManager, library_relative_path,
    merge_libraries, resolve_libraries};

fn plain_lib(name: &str) -> Library {
    Library {
        name: name.to_string(),
        downloads: None,
        url: None,
        natives: None,
        rules: None,
        extract: None,
    }
}

fn artifact_lib(name: &str, url: &str, path: &str) -> Library {
    Library {
        name: name.to_string(),
        downloads: Some(
            LibraryDownloads {
                artifact: Some(
                    DownloadInfo {
                        sha1: String::new(),
                        size: 0,
                        url: url.to_string(),
                        path: Some(path.to_string()),
                    },
                ),
                classifiers: None,
            },
        ),
        url: None,
        natives: None,
        rules: None,
        extract: None,
    }
}

#[test]
fn maven_path_from_coordinate() {
    assert_eq!(
        library_relative_path("com.example:lib:1.0"),
        "com/example/lib/1.0/lib-1.0.jar"
    );
}

#[test]
fn maven_path_short_name() {
    assert_eq!(library_relative_path("odd"), "odd.jar");
}

#[test]
fn overlay_replaces_matching_key_and_appends_new() {
    let mut base = vec![plain_lib("g:a:1.0"), plain_lib("x:y:1.0")];
    let overlay = vec![plain_lib("g:a:2.0"), plain_lib("h:b:1.0")];
    merge_libraries(&mut base, overlay);
    assert_eq!(base.len(), 3);
    assert_eq!(base[0].name, "g:a:2.0");
    assert_eq!(base[1].name, "x:y:1.0");
    assert_eq!(base[2].name, "h:b:1.0");
}

#[test]
fn overlay_without_key_is_appended() {
    let mut base = vec![plain_lib("g:a:1.0")];
    merge_libraries(&mut base, vec![plain_lib("odd")]);
    assert_eq!(base.len(), 2);
    assert_eq!(base[1].name, "odd");
}

#[test]
fn resolution_downloads_only_missing_artifacts() {
    let libs = vec![
        artifact_lib("g:a:1.0", "https://host/a.jar", "g/a/1.0/a-1.0.jar"),
        artifact_lib("g:b:1.0", "https://host/b.jar", "g/b/1.0/b-1.0.jar"),
    ];
    let present = vec!["libs/g/a/1.0/a-1.0.jar".to_string()];
    let plan = resolve_libraries(&libs, "linux", "x64", "libs", "njars", &present);
    assert_eq!(plan.downloads.len(), 1);
    assert_eq!(plan.downloads[0].0, "https://host/b.jar");
    assert_eq!(plan.downloads[0].1, "libs/g/b/1.0/b-1.0.jar");
    // Both still join the classpath, in order.
    assert_eq!(plan.classpath.len(), 2);
    match &plan.classpath[0] {
        ClasspathEntry::Definite(p) => assert_eq!(p, "libs/g/a/1.0/a-1.0.jar"),
        other => panic!("unexpected entry: {:?}", other),
    }
}

#[test]
fn second_run_against_populated_cache_downloads_nothing() {
    let libs = vec![
        artifact_lib("g:a:1.0", "https://host/a.jar", "g/a/1.0/a-1.0.jar"),
        artifact_lib("g:b:1.0", "https://host/b.jar", "g/b/1.0/b-1.0.jar"),
    ];
    let present = Vec::new();
    let first = resolve_libraries(&libs, "linux", "x64", "libs", "njars", &present);
    assert_eq!(first.downloads.len(), 2);
    // Every destination of the first run now exists locally.
    let mut populated = Vec::new();
    for (_, dest) in &first.downloads {
        populated.push(dest.clone());
    }
    let second = resolve_libraries(&libs, "linux", "x64", "libs", "njars", &populated);
    assert_eq!(second.downloads.len(), 0);
    assert_eq!(second.classpath.len(), first.classpath.len());
}

#[test]
fn native_classifier_planned_with_extraction() {
    let lib = Library {
        name: "org.lwjgl:lwjgl:3.2".to_string(),
        downloads: Some(
            LibraryDownloads {
                artifact: Some(
                    DownloadInfo {
                        sha1: String::new(),
                        size: 0,
                        url: "https://host/lwjgl.jar".to_string(),
                        path: Some("org/lwjgl/lwjgl.jar".to_string()),
                    },
                ),
                classifiers: Some(
                    vec![
                        (
                            "natives-linux".to_string(),
                            DownloadInfo {
                                sha1: String::new(),
                                size: 0,
                                url: "https://host/lwjgl-natives.jar".to_string(),
                                path: Some("org/lwjgl/lwjgl-natives-linux.jar".to_string()),
                            },
                        ),
                    ],
                ),
            },
        ),
        url: None,
        natives: Some(vec![("linux".to_string(), "natives-linux".to_string())]),
        rules: None,
        extract: Some(Extract { exclude: vec!["META-INF/".to_string()] }),
    };
    let plan = resolve_libraries(&vec![lib], "linux", "x64", "libs", "njars", &Vec::new());
    assert_eq!(plan.extractions.len(), 1);
    assert_eq!(plan.extractions[0].0, "njars/org/lwjgl/lwjgl-natives-linux.jar");
    assert_eq!(plan.extractions[0].1, vec!["META-INF/".to_string()]);
    // The native jar and the plain artifact are both fetched and classpathed.
    assert_eq!(plan.downloads.len(), 2);
    assert_eq!(plan.classpath.len(), 2);
    // On another OS the classifier does not match: plain artifact only.
    let lib2 = match &plan.actions[0] {
        LibraryAction::Native { .. } => (),
        other => panic!("unexpected action: {:?}", other),
    };
    let _ = lib2;
}

#[test]
fn missing_artifact_path_abandons_library() {
    let lib = Library {
        name: "g:a:1.0".to_string(),
        downloads: Some(
            LibraryDownloads {
                artifact: Some(
                    DownloadInfo {
                        sha1: String::new(),
                        size: 0,
                        url: "https://host/a.jar".to_string(),
                        path: None,
                    },
                ),
                classifiers: None,
            },
        ),
        url: None,
        natives: None,
        rules: None,
        extract: None,
    };
    let plan = resolve_libraries(&vec![lib], "linux", "x64", "libs", "njars", &Vec::new());
    assert!(matches!(plan.actions[0], LibraryAction::MissingPath));
    assert_eq!(plan.downloads.len(), 0);
    assert_eq!(plan.classpath.len(), 0);
}

#[test]
fn maven_style_entry_is_conditional_on_presence() {
    let mut lib = plain_lib("net.fabricmc:loader:0.15");
    lib.url = Some("https://maven.fabricmc.net/".to_string());
    let plan = resolve_libraries(&vec![lib], "linux", "x64", "libs", "njars", &Vec::new());
    assert_eq!(plan.downloads.len(), 1);
    assert_eq!(
        plan.downloads[0].0,
        "https://maven.fabricmc.net/net/fabricmc/loader/0.15/loader-0.15.jar"
    );
    match &plan.classpath[0] {
        ClasspathEntry::IfPresent(p) => {
            assert_eq!(p, "libs/net/fabricmc/loader/0.15/loader-0.15.jar")
        },
        other => panic!("unexpected entry: {:?}", other),
    }
}

#[test]
fn excluded_library_contributes_nothing() {
    let mut lib = artifact_lib("g:a:1.0", "https://host/a.jar", "g/a/1.0/a-1.0.jar");
    lib.rules = Some(
        vec![
            Rule {
                action: "allow".to_string(),
                os: Some(OsRule { name: Some("windows".to_string()), arch: None }),
                features: None,
            },
        ],
    );
    let plan = resolve_libraries(&vec![lib], "linux", "x64", "libs", "njars", &Vec::new());
    assert!(matches!(plan.actions[0], LibraryAction::Excluded));
    assert_eq!(plan.downloads.len(), 0);
    assert_eq!(plan.classpath.len(), 0);
}

#[test]
fn library_manager_keeps_its_directory() {
    let m = LibraryManager::new("libs".to_string());
    assert_eq!(m.libraries_dir, "libs");
}
