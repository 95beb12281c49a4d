//! Typed model of a version descriptor: libraries, downloads, arguments,
//! and the platform-conditional inclusion rules, with their evaluation.
use vstd::prelude::*;
use crate::strutil::str_eq;

verus! {

/// A full version descriptor as the metadata service serves it.
#[derive(Debug, Clone, PartialEq)]
pub struct VersionDetails {
    pub id: String,
    pub version_type: String,
    pub assets: String,
    pub asset_index: AssetIndex,
    pub downloads: Downloads,
    pub libraries: Vec<Library>,
    pub main_class: String,
    pub minecraft_arguments: Option<String>,
    pub arguments: Option<Arguments>,
}

/// Reference to the asset index a version uses.
#[derive(Debug, Clone, PartialEq)]
pub struct AssetIndex {
    pub id: String,
    pub sha1: String,
    pub size: u64,
    pub url: String,
    pub total_size: u64,
}

/// The client and optional server artifacts of a version.
#[derive(Debug, Clone, PartialEq)]
pub struct Downloads {
    pub client: DownloadInfo,
    pub server: Option<DownloadInfo>,
}

/// One downloadable artifact.
#[derive(Debug, Clone, PartialEq)]
pub struct DownloadInfo {
    pub sha1: String,
    pub size: u64,
    pub url: String,
    pub path: Option<String>,
}

/// One library entry of a descriptor. Maps that the original JSON stores as
/// objects (native classifier names by OS, feature flags) are held as
/// key/value pair lists.
#[derive(Debug, Clone, PartialEq)]
pub struct Library {
    pub name: String,
    pub downloads: Option<LibraryDownloads>,
    pub url: Option<String>,
    pub natives: Option<Vec<(String, String)>>,
    pub rules: Option<Vec<Rule>>,
    pub extract: Option<Extract>,
}

/// Download metadata of a library: a plain artifact and/or classifier
/// artifacts keyed by classifier name.
#[derive(Debug, Clone, PartialEq)]
pub struct LibraryDownloads {
    pub artifact: Option<DownloadInfo>,
    pub classifiers: Option<Vec<(String, DownloadInfo)>>,
}

/// A platform-conditional inclusion rule.
#[derive(Debug, Clone, PartialEq)]
pub struct Rule {
    pub action: String,
    pub os: Option<OsRule>,
    pub features: Option<Vec<(String, bool)>>,
}

/// The OS predicate of a rule.
#[derive(Debug, Clone, PartialEq)]
pub struct OsRule {
    pub name: Option<String>,
    pub arch: Option<String>,
}

/// Exclusion list for native extraction.
#[derive(Debug, Clone, PartialEq)]
pub struct Extract {
    pub exclude: Vec<String>,
}

/// Argument lists of a descriptor: structured (modern) or one flat legacy
/// string.
#[derive(Debug, Clone, PartialEq)]
pub enum Arguments {
    New(NewArguments),
    Old(String),
}

/// Structured game and JVM argument lists.
#[derive(Debug, Clone, PartialEq)]
pub struct NewArguments {
    pub game: Vec<ArgumentItem>,
    pub jvm: Vec<ArgumentItem>,
}

/// One argument entry: a literal token or a rule-guarded value.
#[derive(Debug, Clone, PartialEq)]
pub enum ArgumentItem {
    Simple(String),
    Conditional(ConditionalArgument),
}

/// A rule-guarded argument with a single- or multi-token payload.
#[derive(Debug, Clone, PartialEq)]
pub struct ConditionalArgument {
    pub rules: Vec<Rule>,
    pub value: ArgumentValue,
}

/// Payload of a conditional argument.
#[derive(Debug, Clone, PartialEq)]
pub enum ArgumentValue {
    Single(String),
    Multiple(Vec<String>),
}

/// The OS/arch predicate of `r` holds on the given platform. An absent
/// predicate or an absent field matches everything.
pub open spec fn rule_pred_matches(r: Rule, os: Seq<char>, arch: Seq<char>) -> bool {
    match r.os {
        Some(o) => (match o.name {
            Some(n) => n@ == os,
            None => true,
        }) && (match o.arch {
            Some(a) => a@ == arch,
            None => true,
        }),
        None => true,
    }
}

/// No feature flag of `r` is required to be true. The engine supports no
/// optional features, so a rule demanding one can never match.
pub open spec fn rule_features_ok(r: Rule) -> bool {
    match r.features {
        Some(fs) => forall|i: int| 0 <= i < fs@.len() ==> (#[trigger] fs@[i]).1 == false,
        None => true,
    }
}

/// Library rule evaluation looks only at the OS/arch predicate; a rule whose
/// action is neither `allow` nor `disallow` never decides.
pub open spec fn rule_decides_lib(r: Rule, os: Seq<char>, arch: Seq<char>) -> bool {
    rule_pred_matches(r, os, arch) && (r.action@ == "allow"@ || r.action@ == "disallow"@)
}

/// First deciding rule wins; no deciding rule means exclusion.
pub open spec fn eval_lib_rules(rules: Seq<Rule>, os: Seq<char>, arch: Seq<char>) -> bool
    decreases rules.len(),
{
    if rules.len() == 0 {
        false
    } else if rule_decides_lib(rules[0], os, arch) {
        rules[0].action@ == "allow"@
    } else {
        eval_lib_rules(rules.subrange(1, rules.len() as int), os, arch)
    }
}

/// A library with no rule list at all is included; with a rule list, the
/// list decides.
pub open spec fn lib_included(l: Library, os: Seq<char>, arch: Seq<char>) -> bool {
    match l.rules {
        Some(rs) => eval_lib_rules(rs@, os, arch),
        None => true,
    }
}

/// Argument rule evaluation additionally requires that the rule demands no
/// feature flag.
pub open spec fn rule_decides_arg(r: Rule, os: Seq<char>, arch: Seq<char>) -> bool {
    rule_pred_matches(r, os, arch) && rule_features_ok(r) && (r.action@ == "allow"@ || r.action@
        == "disallow"@)
}

/// First deciding rule wins; no deciding rule means exclusion.
pub open spec fn eval_arg_rules(rules: Seq<Rule>, os: Seq<char>, arch: Seq<char>) -> bool
    decreases rules.len(),
{
    if rules.len() == 0 {
        false
    } else if rule_decides_arg(rules[0], os, arch) {
        rules[0].action@ == "allow"@
    } else {
        eval_arg_rules(rules.subrange(1, rules.len() as int), os, arch)
    }
}

impl VersionDetails {
    /// Whether a library is included on the given platform, by its rules.
    pub fn should_use_library(library: &Library, current_os: &str, current_arch: &str) -> (r: bool)
        ensures
            r == lib_included(*library, current_os@, current_arch@),
    {
        if library.rules.is_none() {
            true
        } else {
            {
                let rules = library.rules.as_ref().unwrap();
                let ghost os = current_os@;
                let ghost arch = current_arch@;
                proof {
                    assert(rules@.subrange(0, rules@.len() as int) =~= rules@);
                }
                let mut i: usize = 0;
                while i < rules.len()
                    invariant
                        0 <= i <= rules@.len(),
                        library.rules == Some(*rules),
                        eval_lib_rules(rules@, os, arch) == eval_lib_rules(
                            rules@.subrange(i as int, rules@.len() as int),
                            os,
                            arch,
                        ),
                        os == current_os@,
                        arch == current_arch@,
                    decreases rules@.len() - i,
                {
                    let ghost rem = rules@.subrange(i as int, rules@.len() as int);
                    proof {
                        assert(rem.subrange(1, rem.len() as int) =~= rules@.subrange(
                            i + 1,
                            rules@.len() as int,
                        ));
                    }
                    let rule = &rules[i];
                    let matches = rule_pred_matches_exec(rule, current_os, current_arch);
                    let is_allow = str_eq(rule.action.as_str(), "allow");
                    let is_disallow = str_eq(rule.action.as_str(), "disallow");
                    proof {
                        reveal_strlit("allow");
                        reveal_strlit("disallow");
                        assert(rem[0] == rules@[i as int]);
                        assert("allow"@.len() != "disallow"@.len());
                    }
                    if is_allow && matches {
                        proof {
                            assert(rule_decides_lib(rem[0], os, arch));
                            assert(eval_lib_rules(rem, os, arch) == true);
                            assert(eval_lib_rules(rules@, os, arch) == true);
                            assert(library.rules == Some(*rules));
                            assert(lib_included(*library, os, arch) == true);
                        }
                        return true;
                    }
                    if is_disallow && matches {
                        proof {
                            assert(rule_decides_lib(rem[0], os, arch));
                            assert(rem[0].action@ != "allow"@);
                            assert(eval_lib_rules(rem, os, arch) == false);
                            assert(eval_lib_rules(rules@, os, arch) == false);
                            assert(library.rules == Some(*rules));
                            assert(lib_included(*library, os, arch) == false);
                        }
                        return false;
                    }
                    proof {
                        assert(!rule_decides_lib(rem[0], os, arch));
                    }
                    i = i + 1;
                }
                proof {
                    assert(rules@.subrange(rules@.len() as int, rules@.len() as int)
                        =~= Seq::<Rule>::empty());
                }
                false
            }
        }
    }
}

/// Whether the OS/arch predicate of one rule holds on the given platform.
fn rule_pred_matches_exec(rule: &Rule, current_os: &str, current_arch: &str) -> (r: bool)
    ensures
        r == rule_pred_matches(*rule, current_os@, current_arch@),
{
    match &rule.os {
        None => true,
        Some(o) => {
            let mut os_match = true;
            let mut arch_match = true;
            if let Some(name) = &o.name {
                if !str_eq(name.as_str(), current_os) {
                    os_match = false;
                }
            }
            if let Some(arch) = &o.arch {
                if !str_eq(arch.as_str(), current_arch) {
                    arch_match = false;
                }
            }
            os_match && arch_match
        },
    }
}

/// Whether the rule demands no feature flag.
fn rule_features_ok_exec(rule: &Rule) -> (r: bool)
    ensures
        r == rule_features_ok(*rule),
{
    if rule.features.is_none() {
        true
    } else {
        {
            let fs = rule.features.as_ref().unwrap();
            let mut i: usize = 0;
            while i < fs.len()
                invariant
                    0 <= i <= fs@.len(),
                    rule.features == Some(*fs),
                    forall|j: int| 0 <= j < i ==> (#[trigger] fs@[j]).1 == false,
                decreases fs@.len() - i,
            {
                if fs[i].1 {
                    proof {
                        assert((fs@[i as int]).1 == true);
                        assert(rule.features == Some(*fs));
                        assert(((rule.features->Some_0)@[i as int]).1 == true);
                        assert(!rule_features_ok(*rule));
                    }
                    return false;
                }
                i = i + 1;
            }
            true
        }
    }
}

/// Evaluates an argument rule list: first deciding rule wins, feature-flag
/// demands are never satisfiable, and no deciding rule means exclusion.
pub fn check_rules(rules: &Vec<Rule>, current_os: &str, current_arch: &str) -> (r: bool)
    ensures
        r == eval_arg_rules(rules@, current_os@, current_arch@),
{
    let ghost os = current_os@;
    let ghost arch = current_arch@;
    proof {
        assert(rules@.subrange(0, rules@.len() as int) =~= rules@);
    }
    let mut i: usize = 0;
    while i < rules.len()
        invariant
            0 <= i <= rules@.len(),
            eval_arg_rules(rules@, os, arch) == eval_arg_rules(
                rules@.subrange(i as int, rules@.len() as int),
                os,
                arch,
            ),
            os == current_os@,
            arch == current_arch@,
        decreases rules@.len() - i,
    {
        let ghost rem = rules@.subrange(i as int, rules@.len() as int);
        proof {
            assert(rem.subrange(1, rem.len() as int) =~= rules@.subrange(
                i + 1,
                rules@.len() as int,
            ));
        }
        let rule = &rules[i];
        let matches = rule_pred_matches_exec(rule, current_os, current_arch);
        let features_ok = rule_features_ok_exec(rule);
        let is_allow = str_eq(rule.action.as_str(), "allow");
        let is_disallow = str_eq(rule.action.as_str(), "disallow");
        proof {
            reveal_strlit("allow");
            reveal_strlit("disallow");
            assert(rem[0] == rules@[i as int]);
            assert("allow"@.len() != "disallow"@.len());
        }
        if is_allow && matches && features_ok {
            proof {
                assert(rule_decides_arg(rem[0], os, arch));
            }
            return true;
        }
        if is_disallow && matches && features_ok {
            proof {
                assert(rule_decides_arg(rem[0], os, arch));
                assert(rem[0].action@ != "allow"@);
            }
            return false;
        }
        proof {
            assert(!rule_decides_arg(rem[0], os, arch));
        }
        i = i + 1;
    }
    proof {
        assert(rules@.subrange(rules@.len() as int, rules@.len() as int) =~= Seq::<Rule>::empty());
    }
    false
}

/// A `disallow` rule that matches the platform excludes, whatever rules
/// follow it, as long as no earlier rule decided.
pub proof fn lemma_disallow_short_circuit(
    rules: Seq<Rule>,
    i: int,
    os: Seq<char>,
    arch: Seq<char>,
)
    requires
        0 <= i < rules.len(),
        rules[i].action@ == "disallow"@,
        rule_pred_matches(rules[i], os, arch),
        forall|j: int| 0 <= j < i ==> !rule_decides_lib(#[trigger] rules[j], os, arch),
    ensures
        eval_lib_rules(rules, os, arch) == false,
    decreases i,
{
    reveal_strlit("allow");
    reveal_strlit("disallow");
    assert(rules[i].action@ != "allow"@) by {
        assert("allow"@.len() != "disallow"@.len());
    }
    if i == 0 {
        assert(rule_decides_lib(rules[0], os, arch));
    } else {
        let rest = rules.subrange(1, rules.len() as int);
        assert(rest[i - 1] == rules[i]);
        assert(forall|j: int| 0 <= j < i - 1 ==> !rule_decides_lib(#[trigger] rest[j], os, arch));
        lemma_disallow_short_circuit(rest, i - 1, os, arch);
    }
}

/// A rule that demands some feature flag can never decide, so a rule list
/// in which every rule demands one always evaluates to exclusion.
pub proof fn lemma_feature_rules_never_allow(rules: Seq<Rule>, os: Seq<char>, arch: Seq<char>)
    requires
        forall|i: int|
            0 <= i < rules.len() ==> !rule_features_ok(#[trigger] rules[i]),
    ensures
        eval_arg_rules(rules, os, arch) == false,
    decreases rules.len(),
{
    if rules.len() > 0 {
        assert(!rule_features_ok(rules[0]));
        let rest = rules.subrange(1, rules.len() as int);
        assert(forall|i: int| 0 <= i < rest.len() ==> !rule_features_ok(#[trigger] rest[i]));
        lemma_feature_rules_never_allow(rest, os, arch);
    }
}

} // verus!
