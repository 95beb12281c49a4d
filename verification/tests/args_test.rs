//! Argument templating, the substitution table and command assembly.
use launchcore::args::{join_classpath, replace_variables, expand_arguments,
    append_microsoft_args};
use launchcore::details::{ArgumentItem, ArgumentValue, Arguments, ConditionalArgument,
    NewArguments, OsRule, Rule};
use launchcore::launch::{FallbackInputs, SubstitutionInputs, build_game_args, build_jvm_args,
    build_command_args, build_substitutions, select_java};
use launchcore::errors::LaunchError;
use launchcore::details::{AssetIndex, DownloadInfo, Downloads, VersionDetails};

fn subs(pairs: &[(&str, &str)]) -> Vec<(String, String)> {
    pairs.iter().map(|(k, v)| (k.to_string(), v.to_string())).collect()
}

#[test]
fn template_substitution() {
    let s = subs(&[("${name}", "Steve")]);
    assert_eq!(replace_variables("--user ${name}", &s), "--user Steve");
}

#[test]
fn substitution_replaces_every_occurrence() {
    let s = subs(&[("${v}", "1")]);
    assert_eq!(replace_variables("${v}x${v}", &s), "1x1");
}

#[test]
fn expansion_emits_literals_and_allowed_conditionals() {
    let items = vec![
        ArgumentItem::Simple("--user".to_string()),
        ArgumentItem::Simple("${name}".to_string()),
        ArgumentItem::Conditional(
            ConditionalArgument {
                rules: vec![
                    Rule {
                        action: "allow".to_string(),
                        os: Some(OsRule { name: Some("linux".to_string()), arch: None }),
                        features: None,
                    },
                ],
                value: ArgumentValue::Multiple(
                    vec!["-Da=1".to_string(), "-Db=2".to_string()],
                ),
            },
        ),
    ];
    let s = subs(&[("${name}", "Steve")]);
    let out = expand_arguments(&items, &s, "linux", "x64");
    assert_eq!(out, vec!["--user", "Steve", "-Da=1", "-Db=2"]);
}

#[test]
fn feature_conditional_argument_never_emitted() {
    let items = vec![
        ArgumentItem::Conditional(
            ConditionalArgument {
                rules: vec![
                    Rule {
                        action: "allow".to_string(),
                        os: None,
                        features: Some(vec![("is_demo_user".to_string(), true)]),
                    },
                ],
                value: ArgumentValue::Single("--demo".to_string()),
            },
        ),
    ];
    let out = expand_arguments(&items, &Vec::new(), "linux", "x64");
    assert!(out.is_empty());
}

#[test]
fn classpath_joined_with_separator() {
    let entries = vec!["a.jar".to_string(), "b.jar".to_string(), "c.jar".to_string()];
    assert_eq!(join_classpath(&entries, ':'), "a.jar:b.jar:c.jar");
    assert_eq!(join_classpath(&entries, ';'), "a.jar;b.jar;c.jar");
    assert_eq!(join_classpath(&vec!["one".to_string()], ':'), "one");
    assert_eq!(join_classpath(&Vec::new(), ':'), "");
}

fn sub_inputs() -> SubstitutionInputs {
    SubstitutionInputs {
        natives_dir: "/mc/versions/1.20/natives".to_string(),
        classpath: "a.jar:b.jar".to_string(),
        libraries_dir: "/mc/libraries".to_string(),
        version: "1.20".to_string(),
        game_dir: "/mc".to_string(),
        assets_dir: "/mc/assets".to_string(),
        asset_index_id: "12".to_string(),
        username: "Steve".to_string(),
        uuid: "u-u-i-d".to_string(),
        access_token: "tok".to_string(),
        xuid: "123".to_string(),
        version_type: "release".to_string(),
        windows: false,
    }
}

#[test]
fn substitution_table_holds_launch_values() {
    let table = build_substitutions(&sub_inputs());
    assert_eq!(table.len(), 20);
    assert_eq!(table[0], ("${natives_directory}".to_string(), "/mc/versions/1.20/natives".to_string()));
    assert_eq!(table[5], ("${classpath_separator}".to_string(), ":".to_string()));
    assert_eq!(table[10], ("${auth_player_name}".to_string(), "Steve".to_string()));
    let windows_table = build_substitutions(&SubstitutionInputs { windows: true, ..sub_inputs() });
    assert_eq!(windows_table[5].1, ";");
}

#[test]
fn jvm_args_default_tail_without_structured_arguments() {
    let s = build_substitutions(&sub_inputs());
    let out = build_jvm_args(&None, &s, "/natives", "cp.jar", "1G", "2G", "linux", "x64");
    assert_eq!(out, vec!["-Xmx2G", "-Xms1G", "-Djava.library.path=/natives", "-cp", "cp.jar"]);
}

#[test]
fn jvm_args_use_structured_list_when_present() {
    let s = build_substitutions(&sub_inputs());
    let args = Some(
        Arguments::New(
            NewArguments {
                game: vec![],
                jvm: vec![
                    ArgumentItem::Simple("-Djava.library.path=${natives_directory}".to_string()),
                    ArgumentItem::Simple("-cp".to_string()),
                    ArgumentItem::Simple("${classpath}".to_string()),
                ],
            },
        ),
    );
    let out = build_jvm_args(&args, &s, "/n", "cp", "1G", "2G", "linux", "x64");
    assert_eq!(
        out,
        vec![
            "-Xmx2G",
            "-Xms1G",
            "-Djava.library.path=/mc/versions/1.20/natives",
            "-cp",
            "a.jar:b.jar",
        ]
    );
}

fn fallback() -> FallbackInputs {
    FallbackInputs {
        username: "Steve".to_string(),
        uuid: "u-u-i-d".to_string(),
        access_token: "tok".to_string(),
        xuid: "123".to_string(),
        version: "1.20".to_string(),
        game_dir: "/mc".to_string(),
        assets_dir: "/mc/assets".to_string(),
        asset_index_id: "12".to_string(),
        version_type: "release".to_string(),
    }
}

#[test]
fn legacy_arguments_substituted_and_split() {
    let s = subs(&[("${auth_player_name}", "Steve"), ("${version_name}", "1.7.10")]);
    let mc = Some("--username ${auth_player_name} --version ${version_name}".to_string());
    let out = build_game_args(&None, &mc, &s, &fallback(), "linux", "x64", false, "123");
    assert_eq!(out, vec!["--username", "Steve", "--version", "1.7.10"]);
}

#[test]
fn microsoft_tokens_appended_when_missing() {
    let s = subs(&[]);
    let mc = Some("--username Steve".to_string());
    let out = build_game_args(&None, &mc, &s, &fallback(), "linux", "x64", true, "123");
    assert_eq!(
        out,
        vec![
            "--username",
            "Steve",
            "--xuid",
            "123",
            "--clientId",
            "00000000-0000-0000-0000-000000000000",
            "--userProperties",
            "{}",
        ]
    );
}

#[test]
fn sentinel_xuid_not_appended() {
    let s = subs(&[]);
    let mc = Some("--username Steve".to_string());
    let out = build_game_args(&None, &mc, &s, &fallback(), "linux", "x64", true, "0");
    assert!(!out.iter().any(|a| a == "--xuid"));
    assert!(out.iter().any(|a| a == "--clientId"));
}

#[test]
fn tokens_already_present_not_duplicated() {
    let mut v = vec!["--xuid".to_string(), "9".to_string(), "--clientId".to_string(),
        "c".to_string(), "--userProperties".to_string(), "{}".to_string()];
    append_microsoft_args(&mut v, true, "9");
    assert_eq!(v.len(), 6);
}

#[test]
fn fallback_game_args_without_any_descriptor_arguments() {
    let s = subs(&[]);
    let out = build_game_args(&None, &None, &s, &fallback(), "linux", "x64", true, "123");
    // The fallback list already carries every authentication token, so the
    // Microsoft appendix adds nothing.
    assert_eq!(out.len(), 24);
    assert_eq!(out[0], "--username");
    assert_eq!(out[1], "Steve");
    assert_eq!(out[6], "--xuid");
    assert_eq!(out[23], "{}");
}

#[test]
fn full_command_line_order() {
    let details = VersionDetails {
        id: "1.7.10".to_string(),
        version_type: "release".to_string(),
        assets: "1.7.10".to_string(),
        asset_index: AssetIndex {
            id: "1.7.10".to_string(),
            sha1: String::new(),
            size: 0,
            url: String::new(),
            total_size: 0,
        },
        downloads: Downloads {
            client: DownloadInfo { sha1: String::new(), size: 0, url: String::new(), path: None },
            server: None,
        },
        libraries: vec![],
        main_class: "net.minecraft.client.main.Main".to_string(),
        minecraft_arguments: Some("--username ${auth_player_name}".to_string()),
        arguments: None,
    };
    let s = build_substitutions(&sub_inputs());
    let out = build_command_args(
        &details,
        &s,
        "/natives",
        "cp.jar",
        "1G",
        "2G",
        &fallback(),
        "linux",
        "x64",
        false,
        "123",
    );
    assert_eq!(
        out,
        vec![
            "-Xmx2G",
            "-Xms1G",
            "-Djava.library.path=/natives",
            "-cp",
            "cp.jar",
            "net.minecraft.client.main.Main",
            "--username",
            "Steve",
        ]
    );
}

#[test]
fn java_selection_prefers_custom_path() {
    assert_eq!(
        select_java(&Some("/opt/java".to_string()), &Some("java".to_string())),
        Ok("/opt/java".to_string())
    );
    assert_eq!(select_java(&None, &Some("java".to_string())), Ok("java".to_string()));
    match select_java(&None, &None) {
        Err(LaunchError::JavaNotFound) => (),
        other => panic!("unexpected: {:?}", other),
    }
}
