//! Mod archive metadata: the key/value scan of a loader metadata file and
//! the icon path rules.
use vstd::prelude::*;
use vstd::string::StrSliceExecFns;
use vstd::string::StringExecFns;
use crate::strutil::{split_seq, split_char, trim_seq, trim_char_seq, trim_str, trim_char_str,
    starts_with_str};

verus! {

/// One directory listing entry.
#[derive(Debug, Clone, PartialEq)]
pub struct FileEntry {
    pub name: String,
    pub is_dir: bool,
}

/// The identity a mod archive declares.
#[derive(Debug, Clone, PartialEq)]
pub struct ModMetadata {
    pub id: Option<String>,
    pub name: Option<String>,
    pub version: Option<String>,
}

/// The value of one `key = value` line: the text between the first and
/// second `=`, trimmed, with quotes stripped; a line without `=` has none.
pub open spec fn toml_value_of(line: Seq<char>) -> Option<Seq<char>> {
    let parts = split_seq(line, '=');
    if parts.len() >= 2 {
        Some(trim_char_seq(trim_char_seq(trim_seq(parts[1]), '"'), '\''))
    } else {
        None
    }
}

/// Extracts the value of one `key = value` line.
pub fn extract_toml_value(line: &str) -> (r: Option<String>)
    ensures
        match r {
            Some(v) => toml_value_of(line@) == Some(v@),
            None => toml_value_of(line@) is None,
        },
{
    let parts = split_char(line, '=');
    let ghost sparts = split_seq(line@, '=');
    proof {
        assert(parts@.map_values(|x: String| x@).len() == sparts.len());
    }
    if parts.len() >= 2 {
        proof {
            assert(parts@.map_values(|x: String| x@)[1] == sparts[1]);
        }
        let trimmed = trim_str(parts[1].as_str());
        let unquoted = trim_char_str(trimmed, '"');
        let val = trim_char_str(unquoted, '\'');
        Some(val.to_owned())
    } else {
        None
    }
}

/// The metadata a scan holds after one more line: the first `modId`,
/// `displayName` and `version` values win.
pub open spec fn mods_toml_step(
    acc: (Option<Seq<char>>, Option<Seq<char>>, Option<Seq<char>>),
    line: Seq<char>,
) -> (Option<Seq<char>>, Option<Seq<char>>, Option<Seq<char>>) {
    let t = trim_seq(line);
    if "modId"@.is_prefix_of(t) {
        match toml_value_of(t) {
            Some(v) => if acc.0 is None {
                (Some(v), acc.1, acc.2)
            } else {
                acc
            },
            None => acc,
        }
    } else if "displayName"@.is_prefix_of(t) {
        match toml_value_of(t) {
            Some(v) => if acc.1 is None {
                (acc.0, Some(v), acc.2)
            } else {
                acc
            },
            None => acc,
        }
    } else if "version"@.is_prefix_of(t) {
        match toml_value_of(t) {
            Some(v) => if acc.2 is None {
                (acc.0, acc.1, Some(v))
            } else {
                acc
            },
            None => acc,
        }
    } else {
        acc
    }
}

/// The metadata a scan of the first `upto` lines holds.
pub open spec fn mods_toml_fold(lines: Seq<Seq<char>>, upto: int) -> (
    Option<Seq<char>>,
    Option<Seq<char>>,
    Option<Seq<char>>,
)
    decreases upto,
{
    if upto <= 0 {
        (None::<Seq<char>>, None::<Seq<char>>, None::<Seq<char>>)
    } else {
        mods_toml_step(mods_toml_fold(lines, upto - 1), lines[upto - 1])
    }
}

/// The view of an optional string.
pub open spec fn opt_model(o: Option<String>) -> Option<Seq<char>> {
    match o {
        Some(s) => Some(s@),
        None => None,
    }
}

/// Scans a loader metadata file for the mod's id, display name and
/// version: first value of each key wins, and a file that names no mod id
/// yields empty metadata.
pub fn parse_mods_toml(content: &str) -> (r: ModMetadata)
    ensures
        ({
            let lines = split_seq(content@, '\n');
            let m = mods_toml_fold(lines, lines.len() as int);
            if m.0 is Some {
                opt_model(r.id) == m.0 && opt_model(r.name) == m.1 && opt_model(r.version) == m.2
            } else {
                r.id is None && r.name is None && r.version is None
            }
        }),
{
    let lines = split_char(content, '\n');
    let ghost lm = split_seq(content@, '\n');
    proof {
        assert(lines@.map_values(|x: String| x@).len() == lm.len());
    }
    let mut id: Option<String> = None;
    let mut name: Option<String> = None;
    let mut version: Option<String> = None;
    let mut i: usize = 0;
    while i < lines.len()
        invariant
            0 <= i <= lines@.len(),
            lines@.map_values(|x: String| x@) == lm,
            (opt_model(id), opt_model(name), opt_model(version)) == mods_toml_fold(lm, i as int),
        decreases lines@.len() - i,
    {
        proof {
            assert(lines@.map_values(|x: String| x@)[i as int] == lm[i as int]);
        }
        let line = trim_str(lines[i].as_str());
        if starts_with_str(line, "modId") {
            if let Some(val) = extract_toml_value(line) {
                if id.is_none() {
                    id = Some(val);
                }
            }
        } else if starts_with_str(line, "displayName") {
            if let Some(val) = extract_toml_value(line) {
                if name.is_none() {
                    name = Some(val);
                }
            }
        } else if starts_with_str(line, "version") {
            if let Some(val) = extract_toml_value(line) {
                if version.is_none() {
                    version = Some(val);
                }
            }
        }
        proof {
            assert((opt_model(id), opt_model(name), opt_model(version)) == mods_toml_step(
                mods_toml_fold(lm, i as int),
                lm[i as int],
            ));
        }
        i = i + 1;
    }
    if id.is_some() {
        ModMetadata { id, name, version }
    } else {
        ModMetadata { id: None, name: None, version: None }
    }
}

/// An icon path of the form `./<rest>` names `<rest>`; any other path
/// names itself.
pub fn normalize_icon_path<'a>(icon: &'a str) -> (r: &'a str)
    ensures
        "./"@.is_prefix_of(icon@) ==> r@ == icon@.subrange(2, icon@.len() as int),
        !"./"@.is_prefix_of(icon@) ==> r@ == icon@,
{
    if starts_with_str(icon, "./") {
        let l = icon.unicode_len();
        proof {
            reveal_strlit("./");
            assert(icon@.len() >= 2);
        }
        icon.substring_char(2, l)
    } else {
        icon
    }
}

/// The archive entry names probed for an icon when the metadata names
/// none, in probe order.
pub fn mod_icon_candidates() -> (r: Vec<String>)
    ensures
        r@.map_values(|x: String| x@) == seq![
            "icon.png"@,
            "logo.png"@,
            "mod_icon.png"@,
            "pack.png"@,
        ],
{
    let mut v: Vec<String> = Vec::new();
    v.push(String::from_str("icon.png"));
    v.push(String::from_str("logo.png"));
    v.push(String::from_str("mod_icon.png"));
    v.push(String::from_str("pack.png"));
    proof {
        assert(v@.map_values(|x: String| x@) =~= seq![
            "icon.png"@,
            "logo.png"@,
            "mod_icon.png"@,
            "pack.png"@,
        ]);
    }
    v
}

} // verus!
