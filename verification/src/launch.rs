//! Launch assembly: merging a loader profile onto the base descriptor,
//! the placeholder substitution table, the full child-process argument
//! list, Java selection, and the launch progress milestones.
use vstd::prelude::*;
use vstd::string::StringExecFns;
use crate::details::{VersionDetails, Arguments, NewArguments, Library};
use crate::args::{subs_wf, apply_subs_seq, expand_items_seq, expand_arguments, replace_variables,
    microsoft_extra_args, append_microsoft_args};
use crate::librarian::{merge_libs_seq, merge_libraries};
use crate::strutil::{word_runs, split_words};
use crate::errors::LaunchError;
use crate::auth::AuthData;
use crate::assets::{ProgressEvent, band_permille, scaled_permille};

verus! {

/// What a launch is asked to do.
#[derive(Debug, Clone, PartialEq)]
pub struct LaunchOptions {
    pub version: String,
    pub mod_loader: Option<String>,
    pub mod_loader_version: Option<String>,
    pub auth: AuthData,
    pub memory_min: String,
    pub memory_max: String,
    pub java_path: Option<String>,
    pub minecraft_dir: Option<String>,
}

/// What a launch reports back once the child process is off.
#[derive(Debug, Clone, PartialEq)]
pub struct LaunchResult {
    pub success: bool,
    pub message: String,
    pub process_id: Option<u32>,
}

/// The overlay a mod loader contributes: a replacing main class, extra
/// libraries, extra arguments.
#[derive(Debug, Clone, PartialEq)]
pub struct LoaderProfile {
    pub id: String,
    pub inherits_from: String,
    pub main_class: String,
    pub libraries: Vec<Library>,
    pub arguments: Option<Arguments>,
}

/// How a profile's arguments merge onto the base descriptor's: structured
/// arguments are appended to structured lists (replacing nothing), a
/// legacy flat string is space-appended to a legacy string, and nothing
/// else changes.
pub open spec fn merged_arguments(
    old_args: Option<Arguments>,
    old_mc: Option<String>,
    profile_args: Option<Arguments>,
    new_args: Option<Arguments>,
    new_mc: Option<String>,
) -> bool {
    match profile_args {
        None => new_args == old_args && new_mc == old_mc,
        Some(Arguments::Old(s)) => new_args == old_args && (match old_mc {
            Some(e) => (new_mc matches Some(nm) && nm@ == e@ + " "@ + s@),
            None => new_mc == old_mc,
        }),
        Some(Arguments::New(na)) => new_mc == old_mc && (match old_args {
            Some(Arguments::New(ea)) => (new_args matches Some(x) && (x matches Arguments::New(fa)
                && fa.game@ == ea.game@ + na.game@ && fa.jvm@ == ea.jvm@ + na.jvm@)),
            Some(Arguments::Old(o)) => (new_args matches Some(x) && x == Arguments::Old(o)),
            None => new_args == Some(Arguments::New(na)),
        }),
    }
}

/// Applies a loader profile onto the base descriptor: the profile's main
/// class replaces the base one; its libraries merge by `group:artifact`
/// key, replacing or appending; its arguments are appended, never
/// replacing; every other field is untouched.
pub fn apply_loader_profile(details: &mut VersionDetails, profile: LoaderProfile)
    ensures
        final(details).id == old(details).id,
        final(details).version_type == old(details).version_type,
        final(details).assets == old(details).assets,
        final(details).asset_index == old(details).asset_index,
        final(details).downloads == old(details).downloads,
        final(details).main_class == profile.main_class,
        final(details).libraries@ == merge_libs_seq(
            old(details).libraries@,
            profile.libraries@,
            old(details).libraries@.len() as int,
        ),
        merged_arguments(
            old(details).arguments,
            old(details).minecraft_arguments,
            profile.arguments,
            final(details).arguments,
            final(details).minecraft_arguments,
        ),
{
    details.main_class = profile.main_class;
    merge_libraries(&mut details.libraries, profile.libraries);
    match profile.arguments {
        None => {
        },
        Some(Arguments::Old(s)) => {
            let old_mc = details.minecraft_arguments.take();
            match old_mc {
                Some(e) => {
                    let mut merged = e;
                    merged.append(" ");
                    merged.append(s.as_str());
                    details.minecraft_arguments = Some(merged);
                },
                None => {
                    details.minecraft_arguments = None;
                },
            }
        },
        Some(Arguments::New(na)) => {
            let old_args = details.arguments.take();
            match old_args {
                Some(Arguments::New(ea)) => {
                    let mut game = ea.game;
                    let mut new_game = na.game;
                    game.append(&mut new_game);
                    let mut jvm = ea.jvm;
                    let mut new_jvm = na.jvm;
                    jvm.append(&mut new_jvm);
                    details.arguments = Some(Arguments::New(NewArguments { game, jvm }));
                },
                Some(Arguments::Old(o)) => {
                    details.arguments = Some(Arguments::Old(o));
                },
                None => {
                    details.arguments = Some(Arguments::New(na));
                },
            }
        },
    }
}

/// Everything the substitution table is built from.
#[derive(Debug, Clone, PartialEq)]
pub struct SubstitutionInputs {
    pub natives_dir: String,
    pub classpath: String,
    pub libraries_dir: String,
    pub version: String,
    pub game_dir: String,
    pub assets_dir: String,
    pub asset_index_id: String,
    pub username: String,
    pub uuid: String,
    pub access_token: String,
    pub xuid: String,
    pub version_type: String,
    pub windows: bool,
}

/// The classpath separator of the platform.
pub open spec fn sep_model(windows: bool) -> Seq<char> {
    if windows {
        ";"@
    } else {
        ":"@
    }
}

/// The whole substitution table, in its fixed order: every `${...}`
/// placeholder the argument lists may carry, mapped to this launch's
/// values.
pub open spec fn substitutions_model(p: SubstitutionInputs) -> Seq<(Seq<char>, Seq<char>)> {
    seq![
        ("${natives_directory}"@, p.natives_dir@),
        ("${launcher_name}"@, "PorcosLauncher"@),
        ("${launcher_version}"@, "0.1.1"@),
        ("${classpath}"@, p.classpath@),
        ("${library_directory}"@, p.libraries_dir@),
        ("${classpath_separator}"@, sep_model(p.windows)),
        ("${version_name}"@, p.version@),
        ("${game_directory}"@, p.game_dir@),
        ("${assets_root}"@, p.assets_dir@),
        ("${assets_index_name}"@, p.asset_index_id@),
        ("${auth_player_name}"@, p.username@),
        ("${auth_uuid}"@, p.uuid@),
        ("${auth_access_token}"@, p.access_token@),
        ("${auth_xuid}"@, p.xuid@),
        ("${clientid}"@, "00000000-0000-0000-0000-000000000000"@),
        ("${user_type}"@, "msa"@),
        ("${user_properties}"@, "{}"@),
        ("${version_type}"@, p.version_type@),
        ("${resolution_width}"@, "854"@),
        ("${resolution_height}"@, "480"@),
    ]
}

/// Builds the substitution table.
pub fn build_substitutions(p: &SubstitutionInputs) -> (r: Vec<(String, String)>)
    ensures
        r@.map_values(|q: (String, String)| (q.0@, q.1@)) == substitutions_model(*p),
        subs_wf(r@),
{
    let mut v: Vec<(String, String)> = Vec::new();
    v.push((String::from_str("${natives_directory}"), p.natives_dir.clone()));
    v.push((String::from_str("${launcher_name}"), String::from_str("PorcosLauncher")));
    v.push((String::from_str("${launcher_version}"), String::from_str("0.1.1")));
    v.push((String::from_str("${classpath}"), p.classpath.clone()));
    v.push((String::from_str("${library_directory}"), p.libraries_dir.clone()));
    let sep = if p.windows {
        String::from_str(";")
    } else {
        String::from_str(":")
    };
    v.push((String::from_str("${classpath_separator}"), sep));
    v.push((String::from_str("${version_name}"), p.version.clone()));
    v.push((String::from_str("${game_directory}"), p.game_dir.clone()));
    v.push((String::from_str("${assets_root}"), p.assets_dir.clone()));
    v.push((String::from_str("${assets_index_name}"), p.asset_index_id.clone()));
    v.push((String::from_str("${auth_player_name}"), p.username.clone()));
    v.push((String::from_str("${auth_uuid}"), p.uuid.clone()));
    v.push((String::from_str("${auth_access_token}"), p.access_token.clone()));
    v.push((String::from_str("${auth_xuid}"), p.xuid.clone()));
    v.push(
        (
            String::from_str("${clientid}"),
            String::from_str("00000000-0000-0000-0000-000000000000"),
        ),
    );
    v.push((String::from_str("${user_type}"), String::from_str("msa")));
    v.push((String::from_str("${user_properties}"), String::from_str("{}")));
    v.push((String::from_str("${version_type}"), p.version_type.clone()));
    v.push((String::from_str("${resolution_width}"), String::from_str("854")));
    v.push((String::from_str("${resolution_height}"), String::from_str("480")));
    proof {
        assert(v@.map_values(|q: (String, String)| (q.0@, q.1@)) =~= substitutions_model(*p));
        reveal_strlit("${natives_directory}");
        reveal_strlit("${launcher_name}");
        reveal_strlit("${launcher_version}");
        reveal_strlit("${classpath}");
        reveal_strlit("${library_directory}");
        reveal_strlit("${classpath_separator}");
        reveal_strlit("${version_name}");
        reveal_strlit("${game_directory}");
        reveal_strlit("${assets_root}");
        reveal_strlit("${assets_index_name}");
        reveal_strlit("${auth_player_name}");
        reveal_strlit("${auth_uuid}");
        reveal_strlit("${auth_access_token}");
        reveal_strlit("${auth_xuid}");
        reveal_strlit("${clientid}");
        reveal_strlit("${user_type}");
        reveal_strlit("${user_properties}");
        reveal_strlit("${version_type}");
        reveal_strlit("${resolution_width}");
        reveal_strlit("${resolution_height}");
        assert forall|i: int| 0 <= i < v@.len() implies (#[trigger] v@[i]).0@.len() > 0 by {
            assert(v@[i].0@ == substitutions_model(*p)[i].0);
        }
    }
    v
}

/// The JVM arguments when the descriptor offers no structured ones: the
/// natives path property and the classpath.
pub open spec fn default_jvm_tail(natives_dir: Seq<char>, classpath: Seq<char>) -> Seq<Seq<char>> {
    seq!["-Djava.library.path="@ + natives_dir, "-cp"@, classpath]
}

/// The JVM argument list: the memory bounds always lead; then the
/// descriptor's structured JVM arguments, expanded, when it has any, and
/// the default natives/classpath pair otherwise.
pub open spec fn jvm_args_model(
    arguments: Option<Arguments>,
    subs: Seq<(String, String)>,
    natives_dir: Seq<char>,
    classpath: Seq<char>,
    memory_min: Seq<char>,
    memory_max: Seq<char>,
    os: Seq<char>,
    arch: Seq<char>,
) -> Seq<Seq<char>> {
    seq!["-Xmx"@ + memory_max, "-Xms"@ + memory_min] + (match arguments {
        Some(Arguments::New(na)) => if na.jvm@.len() > 0 {
            expand_items_seq(na.jvm@, subs, os, arch)
        } else {
            default_jvm_tail(natives_dir, classpath)
        },
        _ => default_jvm_tail(natives_dir, classpath),
    })
}

/// Builds the JVM argument list.
pub fn build_jvm_args(
    arguments: &Option<Arguments>,
    subs: &Vec<(String, String)>,
    natives_dir: &str,
    classpath: &str,
    memory_min: &str,
    memory_max: &str,
    current_os: &str,
    current_arch: &str,
) -> (r: Vec<String>)
    requires
        subs_wf(subs@),
    ensures
        r@.map_values(|x: String| x@) == jvm_args_model(
            *arguments,
            subs@,
            natives_dir@,
            classpath@,
            memory_min@,
            memory_max@,
            current_os@,
            current_arch@,
        ),
{
    let mut out: Vec<String> = Vec::new();
    let mut xmx = String::from_str("-Xmx");
    xmx.append(memory_max);
    out.push(xmx);
    let mut xms = String::from_str("-Xms");
    xms.append(memory_min);
    out.push(xms);
    let mut used_structured: bool = false;
    if let Some(Arguments::New(na)) = arguments {
        if na.jvm.len() > 0 {
            let mut expanded = expand_arguments(&na.jvm, subs, current_os, current_arch);
            let ghost before = out@;
            let ghost expm = expanded@;
            out.append(&mut expanded);
            used_structured = true;
            proof {
                assert(out@.map_values(|x: String| x@) =~= before.map_values(|x: String| x@)
                    + expm.map_values(|x: String| x@));
            }
        }
    }
    if !used_structured {
        let mut prop = String::from_str("-Djava.library.path=");
        prop.append(natives_dir);
        out.push(prop);
        out.push(String::from_str("-cp"));
        out.push(classpath.to_owned());
    }
    proof {
        assert(out@.map_values(|x: String| x@) =~= jvm_args_model(
            *arguments,
            subs@,
            natives_dir@,
            classpath@,
            memory_min@,
            memory_max@,
            current_os@,
            current_arch@,
        ));
    }
    out
}

/// The values the hand-built fallback game argument list carries.
#[derive(Debug, Clone, PartialEq)]
pub struct FallbackInputs {
    pub username: String,
    pub uuid: String,
    pub access_token: String,
    pub xuid: String,
    pub version: String,
    pub game_dir: String,
    pub assets_dir: String,
    pub asset_index_id: String,
    pub version_type: String,
}

/// The fallback game argument list, used when a descriptor carries neither
/// structured nor legacy arguments.
pub open spec fn fallback_args(f: FallbackInputs) -> Seq<Seq<char>> {
    seq![
        "--username"@,
        f.username@,
        "--uuid"@,
        f.uuid@,
        "--accessToken"@,
        f.access_token@,
        "--xuid"@,
        f.xuid@,
        "--clientId"@,
        "00000000-0000-0000-0000-000000000000"@,
        "--version"@,
        f.version@,
        "--gameDir"@,
        f.game_dir@,
        "--assetsDir"@,
        f.assets_dir@,
        "--assetIndex"@,
        f.asset_index_id@,
        "--userType"@,
        "msa"@,
        "--versionType"@,
        f.version_type@,
        "--userProperties"@,
        "{}"@,
    ]
}

/// The game arguments before the authentication appendix: the structured
/// list expanded when it has entries; else the legacy string substituted
/// and split on whitespace; else the fallback list.
pub open spec fn game_args_base(
    arguments: Option<Arguments>,
    minecraft_arguments: Option<String>,
    subs: Seq<(String, String)>,
    f: FallbackInputs,
    os: Seq<char>,
    arch: Seq<char>,
) -> Seq<Seq<char>> {
    match arguments {
        Some(Arguments::New(na)) => if na.game@.len() > 0 {
            expand_items_seq(na.game@, subs, os, arch)
        } else {
            game_args_legacy(minecraft_arguments, subs, f)
        },
        _ => game_args_legacy(minecraft_arguments, subs, f),
    }
}

pub open spec fn game_args_legacy(
    minecraft_arguments: Option<String>,
    subs: Seq<(String, String)>,
    f: FallbackInputs,
) -> Seq<Seq<char>> {
    match minecraft_arguments {
        Some(mc) => word_runs(apply_subs_seq(mc@, subs)),
        None => fallback_args(f),
    }
}

/// The full game argument list: the base list plus, for a Microsoft
/// account, the authentication tokens it is still missing.
pub open spec fn game_args_model(
    arguments: Option<Arguments>,
    minecraft_arguments: Option<String>,
    subs: Seq<(String, String)>,
    f: FallbackInputs,
    os: Seq<char>,
    arch: Seq<char>,
    is_microsoft: bool,
    xuid: Seq<char>,
) -> Seq<Seq<char>> {
    let base = game_args_base(arguments, minecraft_arguments, subs, f, os, arch);
    base + (if is_microsoft {
        microsoft_extra_args(base, xuid)
    } else {
        Seq::<Seq<char>>::empty()
    })
}

/// Builds the game argument list, with the Microsoft authentication
/// appendix where it is owed.
pub fn build_game_args(
    arguments: &Option<Arguments>,
    minecraft_arguments: &Option<String>,
    subs: &Vec<(String, String)>,
    f: &FallbackInputs,
    current_os: &str,
    current_arch: &str,
    is_microsoft: bool,
    xuid: &str,
) -> (r: Vec<String>)
    requires
        subs_wf(subs@),
    ensures
        r@.map_values(|x: String| x@) == game_args_model(
            *arguments,
            *minecraft_arguments,
            subs@,
            *f,
            current_os@,
            current_arch@,
            is_microsoft,
            xuid@,
        ),
{
    let mut out: Vec<String> = Vec::new();
    let mut used_structured: bool = false;
    if let Some(Arguments::New(na)) = arguments {
        if na.game.len() > 0 {
            let mut expanded = expand_arguments(&na.game, subs, current_os, current_arch);
            let ghost expm = expanded@;
            out.append(&mut expanded);
            used_structured = true;
            proof {
                assert(out@.map_values(|x: String| x@) =~= expm.map_values(|x: String| x@));
            }
        }
    }
    if !used_structured {
        match minecraft_arguments {
            Some(mc) => {
                let replaced = replace_variables(mc.as_str(), subs);
                let mut words = split_words(replaced.as_str());
                let ghost wm = words@;
                out.append(&mut words);
                proof {
                    assert(out@.map_values(|x: String| x@) =~= wm.map_values(|x: String| x@));
                }
            },
            None => {
                out.push(String::from_str("--username"));
                out.push(f.username.clone());
                out.push(String::from_str("--uuid"));
                out.push(f.uuid.clone());
                out.push(String::from_str("--accessToken"));
                out.push(f.access_token.clone());
                out.push(String::from_str("--xuid"));
                out.push(f.xuid.clone());
                out.push(String::from_str("--clientId"));
                out.push(String::from_str("00000000-0000-0000-0000-000000000000"));
                out.push(String::from_str("--version"));
                out.push(f.version.clone());
                out.push(String::from_str("--gameDir"));
                out.push(f.game_dir.clone());
                out.push(String::from_str("--assetsDir"));
                out.push(f.assets_dir.clone());
                out.push(String::from_str("--assetIndex"));
                out.push(f.asset_index_id.clone());
                out.push(String::from_str("--userType"));
                out.push(String::from_str("msa"));
                out.push(String::from_str("--versionType"));
                out.push(f.version_type.clone());
                out.push(String::from_str("--userProperties"));
                out.push(String::from_str("{}"));
                proof {
                    assert(out@.map_values(|x: String| x@) =~= fallback_args(*f));
                }
            },
        }
    }
    proof {
        assert(out@.map_values(|x: String| x@) =~= game_args_base(
            *arguments,
            *minecraft_arguments,
            subs@,
            *f,
            current_os@,
            current_arch@,
        ));
    }
    append_microsoft_args(&mut out, is_microsoft, xuid);
    out
}

/// The whole child-process argument list of a launch: the JVM arguments,
/// the main class, and the game arguments.
pub fn build_command_args(
    details: &VersionDetails,
    subs: &Vec<(String, String)>,
    natives_dir: &str,
    classpath: &str,
    memory_min: &str,
    memory_max: &str,
    f: &FallbackInputs,
    current_os: &str,
    current_arch: &str,
    is_microsoft: bool,
    xuid: &str,
) -> (r: Vec<String>)
    requires
        subs_wf(subs@),
    ensures
        r@.map_values(|x: String| x@) == jvm_args_model(
            details.arguments,
            subs@,
            natives_dir@,
            classpath@,
            memory_min@,
            memory_max@,
            current_os@,
            current_arch@,
        ) + seq![details.main_class@] + game_args_model(
            details.arguments,
            details.minecraft_arguments,
            subs@,
            *f,
            current_os@,
            current_arch@,
            is_microsoft,
            xuid@,
        ),
{
    let mut out = build_jvm_args(
        &details.arguments,
        subs,
        natives_dir,
        classpath,
        memory_min,
        memory_max,
        current_os,
        current_arch,
    );
    let ghost jvm = out@;
    out.push(details.main_class.clone());
    let mut game = build_game_args(
        &details.arguments,
        &details.minecraft_arguments,
        subs,
        f,
        current_os,
        current_arch,
        is_microsoft,
        xuid,
    );
    let ghost gm = game@;
    out.append(&mut game);
    proof {
        assert(out@.map_values(|x: String| x@) =~= jvm.map_values(|x: String| x@)
            + seq![details.main_class@] + gm.map_values(|x: String| x@));
    }
    out
}

/// Selects the Java runtime: an explicitly configured path wins, else the
/// detected one, and neither is the no-Java failure.
pub fn select_java(custom: &Option<String>, detected: &Option<String>) -> (r: Result<
    String,
    LaunchError,
>)
    ensures
        custom is Some ==> r == Ok::<String, LaunchError>(custom->0),
        custom is None && detected is Some ==> r == Ok::<String, LaunchError>(detected->0),
        custom is None && detected is None ==> (r matches Err(e) && e is JavaNotFound),
{
    match custom {
        Some(c) => Ok(c.clone()),
        None => match detected {
            Some(d) => Ok(d.clone()),
            None => Err(LaunchError::JavaNotFound),
        },
    }
}

/// Launch progress milestones, in permille of the whole bar: start,
/// catalog fetch, descriptor fetch, loader preparation, client jar, the
/// library band, Java discovery, spawn, ready.
pub const PROGRESS_START_PERMILLE: u64 = 0;

pub const PROGRESS_MANIFEST_PERMILLE: u64 = 10;

pub const PROGRESS_DETAILS_PERMILLE: u64 = 20;

pub const PROGRESS_LOADER_PERMILLE: u64 = 50;

pub const PROGRESS_CLIENT_JAR_PERMILLE: u64 = 200;

pub const PROGRESS_LIBRARIES_START_PERMILLE: u64 = 220;

pub const PROGRESS_JAVA_PERMILLE: u64 = 920;

pub const PROGRESS_SPAWN_PERMILLE: u64 = 950;

pub const PROGRESS_READY_PERMILLE: u64 = 1000;

/// Library progress is reported after every fifth processed library.
pub fn should_report_library_progress(processed: u64) -> (r: bool)
    ensures
        r == (processed % 5 == 0),
{
    processed % 5 == 0
}

/// The progress event after `processed` of `total` libraries: the count
/// scaled into the library band of the bar.
pub fn library_progress_event(processed: u64, total: u64) -> (r: ProgressEvent)
    requires
        processed <= total,
    ensures
        r.current == processed,
        r.total == total,
        r.permille == band_permille(200, 900, processed as int, total as int),
{
    let p = scaled_permille(200, 900, processed, total);
    ProgressEvent { current: processed, total, permille: p }
}

} // verus!
