//! Rule evaluation on concrete rule lists.
use launchcore::details::{Library, OsRule, Rule, VersionDetails, check_rules};

fn lib_with_rules(rules: Option<Vec<Rule>>) -> Library {
    Library {
        name: "g:a:1.0".to_string(),
        downloads: None,
        url: None,
        natives: None,
        rules,
        extract: None,
    }
}

fn allow_os(os: &str) -> Rule {
    Rule {
        action: "allow".to_string(),
        os: Some(OsRule { name: Some(os.to_string()), arch: None }),
        features: None,
    }
}

fn disallow_os(os: &str) -> Rule {
    Rule {
        action: "disallow".to_string(),
        os: Some(OsRule { name: Some(os.to_string()), arch: None }),
        features: None,
    }
}

#[test]
fn no_rule_list_includes() {
    let lib = lib_with_rules(None);
    assert!(VersionDetails::should_use_library(&lib, "linux", "x64"));
}

#[test]
fn empty_rule_list_excludes() {
    let lib = lib_with_rules(Some(vec![]));
    assert!(!VersionDetails::should_use_library(&lib, "linux", "x64"));
}

#[test]
fn allow_on_current_os_includes() {
    let lib = lib_with_rules(Some(vec![allow_os("linux")]));
    assert!(VersionDetails::should_use_library(&lib, "linux", "x64"));
}

#[test]
fn allow_on_other_os_excludes() {
    let lib = lib_with_rules(Some(vec![allow_os("windows")]));
    assert!(!VersionDetails::should_use_library(&lib, "linux", "x64"));
}

#[test]
fn matching_disallow_short_circuits() {
    // The later allow would match too, but the first deciding rule wins.
    let lib = lib_with_rules(Some(vec![disallow_os("linux"), allow_os("linux")]));
    assert!(!VersionDetails::should_use_library(&lib, "linux", "x64"));
}

#[test]
fn unconditional_allow_with_os_disallow() {
    // The usual natives pattern: allow everywhere, disallow on one OS.
    let rules = vec![
        Rule { action: "allow".to_string(), os: None, features: None },
        disallow_os("osx"),
    ];
    let lib = lib_with_rules(Some(rules.clone()));
    assert!(VersionDetails::should_use_library(&lib, "linux", "x64"));
    assert!(VersionDetails::should_use_library(&lib, "osx", "x64"));
}

#[test]
fn arch_predicate_checked() {
    let rule = Rule {
        action: "allow".to_string(),
        os: Some(OsRule { name: Some("linux".to_string()), arch: Some("x86".to_string()) }),
        features: None,
    };
    let lib = lib_with_rules(Some(vec![rule]));
    assert!(!VersionDetails::should_use_library(&lib, "linux", "x64"));
    assert!(VersionDetails::should_use_library(&lib, "linux", "x86"));
}

#[test]
fn argument_rule_with_required_feature_never_matches() {
    let rule = Rule {
        action: "allow".to_string(),
        os: None,
        features: Some(vec![("has_custom_resolution".to_string(), true)]),
    };
    assert!(!check_rules(&vec![rule], "linux", "x64"));
}

#[test]
fn argument_rule_with_false_feature_matches() {
    let rule = Rule {
        action: "allow".to_string(),
        os: None,
        features: Some(vec![("demo_user".to_string(), false)]),
    };
    assert!(check_rules(&vec![rule], "linux", "x64"));
}

#[test]
fn argument_rules_empty_list_excludes() {
    assert!(!check_rules(&vec![], "linux", "x64"));
}
