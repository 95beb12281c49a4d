//! Library and classpath resolution: maven-coordinate paths, the
//! replace-or-append merge of loader overlay libraries, and the per-library
//! download/classpath/extraction plan against an on-disk cache.
use vstd::prelude::*;
use vstd::string::StrSliceExecFns;
use vstd::string::StringExecFns;
use crate::strutil::{split_seq, split_char, replace_seq, replace_all, str_eq};
use crate::details::{Library, LibraryDownloads, DownloadInfo, VersionDetails, lib_included};

verus! {

/// Owns the shared library cache directory; the downloads themselves are
/// planned by the resolver below.
#[derive(Debug, Clone, PartialEq)]
pub struct LibraryManager {
    pub libraries_dir: String,
}

impl LibraryManager {
    /// A manager over the given cache directory.
    pub fn new(libraries_dir: String) -> (r: LibraryManager)
        ensures
            r.libraries_dir == libraries_dir,
    {
        LibraryManager { libraries_dir }
    }
}

pub open spec fn jar_ext() -> Seq<char> {
    seq!['.', 'j', 'a', 'r']
}

pub open spec fn slash() -> Seq<char> {
    seq!['/']
}

/// The relative path of a maven coordinate `group:artifact:version`:
/// `group-with-dots-as-slashes/artifact/version/artifact-version.jar`.
/// A name with fewer than three segments maps to `<name>.jar`.
pub open spec fn maven_rel_path(name: Seq<char>) -> Seq<char> {
    let parts = split_seq(name, ':');
    if parts.len() >= 3 {
        replace_seq(parts[0], seq!['.'], seq!['/']) + slash() + parts[1] + slash() + parts[2]
            + slash() + parts[1] + seq!['-'] + parts[2] + jar_ext()
    } else {
        name + jar_ext()
    }
}

/// The relative jar path a library's maven coordinate determines.
pub fn library_relative_path(name: &str) -> (r: String)
    ensures
        r@ == maven_rel_path(name@),
{
    let parts = split_char(name, ':');
    let ghost sparts = split_seq(name@, ':');
    proof {
        assert(parts@.map_values(|x: String| x@).len() == sparts.len());
    }
    if parts.len() >= 3 {
        proof {
            reveal_strlit(".");
            reveal_strlit("/");
            reveal_strlit("-");
            reveal_strlit(".jar");
            assert("."@ =~= seq!['.']);
            assert("/"@ =~= seq!['/']);
            assert("-"@ =~= seq!['-']);
            assert(".jar"@ =~= jar_ext());
            assert(parts@.map_values(|x: String| x@)[0] == sparts[0]);
            assert(parts@.map_values(|x: String| x@)[1] == sparts[1]);
            assert(parts@.map_values(|x: String| x@)[2] == sparts[2]);
        }
        let mut out = replace_all(parts[0].as_str(), ".", "/");
        out.append("/");
        out.append(parts[1].as_str());
        out.append("/");
        out.append(parts[2].as_str());
        out.append("/");
        out.append(parts[1].as_str());
        out.append("-");
        out.append(parts[2].as_str());
        out.append(".jar");
        out
    } else {
        proof {
            reveal_strlit(".jar");
            assert(".jar"@ =~= jar_ext());
        }
        let mut out = name.to_owned();
        out.append(".jar");
        out
    }
}

/// The `group:artifact` merge key of a library name, absent when the name
/// has fewer than two segments.
pub open spec fn merge_key(name: Seq<char>) -> Option<Seq<char>> {
    let parts = split_seq(name, ':');
    if parts.len() >= 2 {
        Some(parts[0] + seq![':'] + parts[1])
    } else {
        None
    }
}

/// The merge key of a library name, computed.
pub fn merge_key_exec(name: &str) -> (r: Option<String>)
    ensures
        match r {
            Some(k) => merge_key(name@) == Some(k@),
            None => merge_key(name@) is None,
        },
{
    let parts = split_char(name, ':');
    let ghost sparts = split_seq(name@, ':');
    proof {
        assert(parts@.map_values(|x: String| x@).len() == sparts.len());
    }
    if parts.len() >= 2 {
        proof {
            reveal_strlit(":");
            assert(":"@ =~= seq![':']);
            assert(parts@.map_values(|x: String| x@)[0] == sparts[0]);
            assert(parts@.map_values(|x: String| x@)[1] == sparts[1]);
        }
        let mut k = parts[0].clone();
        k.append(":");
        k.append(parts[1].as_str());
        Some(k)
    } else {
        None
    }
}

/// The first index in `base`, below `limit`, whose library has merge key
/// `k`; `-1` when there is none.
pub open spec fn find_key_from(base: Seq<Library>, k: Seq<char>, i: int, limit: int) -> int
    decreases limit - i,
{
    if i < 0 || i >= limit || i >= base.len() {
        -1
    } else if merge_key(base[i].name@) == Some(k) {
        i
    } else {
        find_key_from(base, k, i + 1, limit)
    }
}

/// One step of the overlay merge: a keyed overlay library replaces the
/// first base entry (among the original ones) with the same key, else it is
/// appended; an unkeyed one is always appended.
pub open spec fn merge_one(base: Seq<Library>, l: Library, limit: int) -> Seq<Library> {
    match merge_key(l.name@) {
        Some(k) => {
            let i = find_key_from(base, k, 0, limit);
            if i >= 0 {
                base.update(i, l)
            } else {
                base.push(l)
            }
        },
        None => base.push(l),
    }
}

/// The overlay merge of a whole extension list, left to right. `limit` is
/// the length of the original base list: replacement looks only at those
/// entries, appended overlay libraries are never replaced in turn.
pub open spec fn merge_libs_seq(base: Seq<Library>, ext: Seq<Library>, limit: int) -> Seq<Library>
    decreases ext.len(),
{
    if ext.len() == 0 {
        base
    } else {
        merge_libs_seq(merge_one(base, ext[0], limit), ext.subrange(1, ext.len() as int), limit)
    }
}

/// Merges a loader overlay's libraries into the base list: an overlay
/// library replaces the first base library sharing its `group:artifact`
/// key and is appended otherwise; base order is preserved.
pub fn merge_libraries(base: &mut Vec<Library>, extension: Vec<Library>)
    ensures
        final(base)@ == merge_libs_seq(old(base)@, extension@, old(base)@.len() as int),
{
    let limit = base.len();
    let ghost base0 = base@;
    let ghost ext = extension@;
    let mut rest = extension;
    while rest.len() > 0
        invariant
            limit == base0.len(),
            limit <= base@.len(),
            merge_libs_seq(base0, ext, limit as int) == merge_libs_seq(
                base@,
                rest@,
                limit as int,
            ),
        decreases rest@.len(),
    {
        let ghost rem = rest@;
        let ghost prevbase = base@;
        let l = rest.remove(0);
        proof {
            assert(l == rem[0]);
            assert(rest@ =~= rem.subrange(1, rem.len() as int));
        }
        let key = merge_key_exec(l.name.as_str());
        match key {
            Some(k) => {
                let mut i: usize = 0;
                let mut found: bool = false;
                while i < limit && !found
                    invariant
                        0 <= i <= limit,
                        limit <= base@.len(),
                        merge_key(l.name@) == Some(k@),
                        !found ==> forall|m: int|
                            0 <= m < i ==> merge_key(#[trigger] base@[m].name@) != Some(k@),
                        found ==> i < limit && merge_key(base@[i as int].name@) == Some(k@)
                            && forall|m: int|
                            0 <= m < i ==> merge_key(#[trigger] base@[m].name@) != Some(k@),
                    decreases limit - i + (if found { 0int } else { 1int }),
                {
                    let lib_key = merge_key_exec(base[i].name.as_str());
                    let mut hit: bool = false;
                    match &lib_key {
                        Some(bk) => {
                            if str_eq(bk.as_str(), k.as_str()) {
                                hit = true;
                            }
                        },
                        None => {
                        },
                    }
                    if hit {
                        found = true;
                    } else {
                        proof {
                            assert(merge_key(base@[i as int].name@) != Some(k@));
                        }
                        i = i + 1;
                    }
                }
                proof {
                    if found {
                        lemma_find_key_first(base@, k@, i as int, limit as int);
                    } else {
                        lemma_find_key_none(base@, k@, limit as int);
                    }
                }
                if found {
                    base.set(i, l);
                } else {
                    base.push(l);
                }
            },
            None => {
                base.push(l);
            },
        }
        proof {
            assert(base@ == merge_one(prevbase, rem[0], limit as int));
            assert(merge_libs_seq(prevbase, rem, limit as int) == merge_libs_seq(
                merge_one(prevbase, rem[0], limit as int),
                rem.subrange(1, rem.len() as int),
                limit as int,
            ));
        }
    }
    proof {
        assert(rest@ =~= Seq::<Library>::empty());
    }
}

/// When index `i` holds the key and no earlier one does, the find returns
/// `i`.
proof fn lemma_find_key_first(base: Seq<Library>, k: Seq<char>, i: int, limit: int)
    requires
        0 <= i < limit,
        i < base.len(),
        merge_key(base[i].name@) == Some(k),
        forall|m: int| 0 <= m < i ==> merge_key(#[trigger] base[m].name@) != Some(k),
    ensures
        find_key_from(base, k, 0, limit) == i,
{
    lemma_find_key_from(base, k, 0, i, limit);
}

proof fn lemma_find_key_from(base: Seq<Library>, k: Seq<char>, j: int, i: int, limit: int)
    requires
        0 <= j <= i < limit,
        i < base.len(),
        merge_key(base[i].name@) == Some(k),
        forall|m: int| j <= m < i ==> merge_key(#[trigger] base[m].name@) != Some(k),
    ensures
        find_key_from(base, k, j, limit) == i,
    decreases i - j,
{
    if j < i {
        lemma_find_key_from(base, k, j + 1, i, limit);
    }
}

/// When no entry below `limit` holds the key, the find fails.
proof fn lemma_find_key_none(base: Seq<Library>, k: Seq<char>, limit: int)
    requires
        limit <= base.len(),
        forall|m: int| 0 <= m < limit ==> merge_key(#[trigger] base[m].name@) != Some(k),
    ensures
        find_key_from(base, k, 0, limit) == -1,
{
    lemma_find_key_none_from(base, k, 0, limit);
}

proof fn lemma_find_key_none_from(base: Seq<Library>, k: Seq<char>, j: int, limit: int)
    requires
        limit <= base.len(),
        0 <= j,
        forall|m: int| j <= m < limit ==> merge_key(#[trigger] base[m].name@) != Some(k),
    ensures
        find_key_from(base, k, j, limit) == -1,
    decreases limit - j,
{
    if j < limit {
        lemma_find_key_none_from(base, k, j + 1, limit);
    }
}

/// A keyed overlay library whose key first matches base entry `i` replaces
/// exactly that entry and nothing else.
pub proof fn lemma_merge_replaces(base: Seq<Library>, l: Library, i: int)
    requires
        0 <= i < base.len(),
        merge_key(l.name@) is Some,
        merge_key(base[i].name@) == merge_key(l.name@),
        forall|m: int|
            0 <= m < i ==> merge_key(#[trigger] base[m].name@) != merge_key(l.name@),
    ensures
        merge_libs_seq(base, seq![l], base.len() as int) == base.update(i, l),
{
    let k = merge_key(l.name@)->0;
    lemma_find_key_first(base, k, i, base.len() as int);
    assert(merge_one(base, l, base.len() as int) == base.update(i, l));
    let ext = seq![l];
    assert(ext.subrange(1, 1) =~= Seq::<Library>::empty());
    assert(merge_libs_seq(base, ext, base.len() as int) == merge_libs_seq(
        base.update(i, l),
        ext.subrange(1, 1),
        base.len() as int,
    ));
}

/// An overlay library whose key matches no base entry is appended, and the
/// base entries keep their places.
pub proof fn lemma_merge_appends(base: Seq<Library>, l: Library)
    requires
        forall|m: int|
            0 <= m < base.len() ==> merge_key(#[trigger] base[m].name@) != merge_key(l.name@)
                || merge_key(l.name@) is None,
    ensures
        merge_libs_seq(base, seq![l], base.len() as int) == base.push(l),
{
    let ext = seq![l];
    assert(ext.subrange(1, 1) =~= Seq::<Library>::empty());
    match merge_key(l.name@) {
        Some(k) => {
            lemma_find_key_none(base, k, base.len() as int);
            assert(merge_one(base, l, base.len() as int) == base.push(l));
        },
        None => {
            assert(merge_one(base, l, base.len() as int) == base.push(l));
        },
    }
    assert(merge_libs_seq(base, ext, base.len() as int) == merge_libs_seq(
        base.push(l),
        ext.subrange(1, 1),
        base.len() as int,
    ));
}

/// Cloning a vector of strings keeps its contents.
pub fn clone_string_vec(v: &Vec<String>) -> (r: Vec<String>)
    ensures
        r@ == v@,
{
    let r = v.clone();
    proof {
        assert forall|i: int| 0 <= i < v@.len() implies r@[i] == v@[i] by {
            assert(vstd::pervasive::cloned::<String>(v@[i], r@[i]));
        }
        assert(v@ =~= r@);
    }
    r
}

/// First value bound to key `k` in an association list of strings.
pub open spec fn assoc_str(pairs: Seq<(String, String)>, k: Seq<char>) -> Option<Seq<char>>
    decreases pairs.len(),
{
    if pairs.len() == 0 {
        None
    } else if pairs[0].0@ == k {
        Some(pairs[0].1@)
    } else {
        assoc_str(pairs.subrange(1, pairs.len() as int), k)
    }
}

/// First artifact bound to key `k` in a classifier list.
pub open spec fn assoc_dl(pairs: Seq<(String, DownloadInfo)>, k: Seq<char>) -> Option<DownloadInfo>
    decreases pairs.len(),
{
    if pairs.len() == 0 {
        None
    } else if pairs[0].0@ == k {
        Some(pairs[0].1)
    } else {
        assoc_dl(pairs.subrange(1, pairs.len() as int), k)
    }
}

/// The native classifier name a library declares for the given OS.
pub open spec fn native_key_of(l: Library, os: Seq<char>) -> Option<Seq<char>> {
    match l.natives {
        Some(ps) => assoc_str(ps@, os),
        None => None,
    }
}

/// The classifier artifact of the given name, if any.
pub open spec fn classifier_of(d: LibraryDownloads, k: Seq<char>) -> Option<DownloadInfo> {
    match d.classifiers {
        Some(cs) => assoc_dl(cs@, k),
        None => None,
    }
}

/// The native-extraction exclusion patterns of a library.
pub open spec fn excludes_of(l: Library) -> Seq<Seq<char>> {
    match l.extract {
        Some(e) => e.exclude@.map_values(|x: String| x@),
        None => Seq::<Seq<char>>::empty(),
    }
}

/// What the resolver decides to do for one library.
#[derive(Debug, PartialEq)]
pub enum LibraryAction {
    /// Excluded by its rules: contributes nothing.
    Excluded,
    /// Included, but its download metadata offers nothing to fetch.
    Inert,
    /// A native classifier jar to cache, put on the classpath and extract,
    /// with the plain artifact, if one is declared, fetched as well.
    Native {
        jar_url: String,
        jar_dest: String,
        excludes: Vec<String>,
        artifact: Option<(String, String)>,
    },
    /// A plain artifact to cache and put on the classpath.
    Artifact { url: String, dest: String },
    /// A maven-style entry: the download may fail, and the path joins the
    /// classpath only if it is present afterwards.
    Maven { url: String, dest: String },
    /// A needed relative path field is absent: the library is abandoned.
    MissingPath,
}

/// The action the resolver owes for one native classifier artifact.
pub open spec fn native_action_for(
    a: LibraryAction,
    ninfo: DownloadInfo,
    p: Seq<char>,
    l: Library,
    natdir: Seq<char>,
    art: Option<(Seq<char>, Seq<char>)>,
) -> bool {
    &&& a matches LibraryAction::Native { jar_url, jar_dest, excludes, artifact } && ({
        &&& jar_url@ == ninfo.url@
        &&& jar_dest@ == natdir + slash() + p
        &&& excludes@.map_values(|x: String| x@) == excludes_of(l)
        &&& match (artifact, art) {
            (Some(pair), Some(m)) => pair.0@ == m.0 && pair.1@ == m.1,
            (None, None) => true,
            _ => false,
        }
    })
}

/// The action the resolver owes for one library on the given platform,
/// against the given library and natives-jar cache directories.
pub open spec fn action_for(
    a: LibraryAction,
    l: Library,
    os: Seq<char>,
    arch: Seq<char>,
    libdir: Seq<char>,
    natdir: Seq<char>,
) -> bool {
    if !lib_included(l, os, arch) {
        a is Excluded
    } else {
        match l.downloads {
            Some(d) => {
                let nk = native_key_of(l, os);
                let cls = if nk is Some {
                    classifier_of(d, nk->0)
                } else {
                    None::<DownloadInfo>
                };
                if cls is Some {
                    match cls->0.path {
                        Some(p) => match d.artifact {
                            Some(art) => match art.path {
                                Some(ap) => native_action_for(
                                    a,
                                    cls->0,
                                    p@,
                                    l,
                                    natdir,
                                    Some((art.url@, libdir + slash() + ap@)),
                                ),
                                None => a is MissingPath,
                            },
                            None => native_action_for(a, cls->0, p@, l, natdir, None),
                        },
                        None => a is MissingPath,
                    }
                } else {
                    match d.artifact {
                        Some(art) => match art.path {
                            Some(ap) => a matches LibraryAction::Artifact { url, dest } && url@
                                == art.url@ && dest@ == libdir + slash() + ap@,
                            None => a is MissingPath,
                        },
                        None => a is Inert,
                    }
                }
            },
            None => {
                let base = match l.url {
                    Some(u) => u@,
                    None => "https://libraries.minecraft.net/"@,
                };
                a matches LibraryAction::Maven { url, dest } && url@ == base + maven_rel_path(
                    l.name@,
                ) && dest@ == libdir + slash() + maven_rel_path(l.name@)
            },
        }
    }
}

/// Index of the first pair bound to `k`, with the association-list value it
/// determines.
pub(crate) fn lookup_str(pairs: &Vec<(String, String)>, k: &str) -> (r: Option<usize>)
    ensures
        match r {
            Some(i) => i < pairs@.len() && assoc_str(pairs@, k@) == Some(pairs@[i as int].1@),
            None => assoc_str(pairs@, k@) is None,
        },
{
    proof {
        assert(pairs@.subrange(0, pairs@.len() as int) =~= pairs@);
    }
    let mut i: usize = 0;
    while i < pairs.len()
        invariant
            0 <= i <= pairs@.len(),
            assoc_str(pairs@, k@) == assoc_str(
                pairs@.subrange(i as int, pairs@.len() as int),
                k@,
            ),
        decreases pairs@.len() - i,
    {
        let ghost rem = pairs@.subrange(i as int, pairs@.len() as int);
        proof {
            assert(rem[0] == pairs@[i as int]);
            assert(rem.subrange(1, rem.len() as int) =~= pairs@.subrange(
                i + 1,
                pairs@.len() as int,
            ));
        }
        if str_eq(pairs[i].0.as_str(), k) {
            return Some(i);
        }
        i = i + 1;
    }
    proof {
        assert(pairs@.subrange(pairs@.len() as int, pairs@.len() as int) =~= Seq::<
            (String, String),
        >::empty());
    }
    None
}

/// Index of the first classifier bound to `k`, with the value it
/// determines.
fn lookup_dl(pairs: &Vec<(String, DownloadInfo)>, k: &str) -> (r: Option<usize>)
    ensures
        match r {
            Some(i) => i < pairs@.len() && assoc_dl(pairs@, k@) == Some(pairs@[i as int].1),
            None => assoc_dl(pairs@, k@) is None,
        },
{
    proof {
        assert(pairs@.subrange(0, pairs@.len() as int) =~= pairs@);
    }
    let mut i: usize = 0;
    while i < pairs.len()
        invariant
            0 <= i <= pairs@.len(),
            assoc_dl(pairs@, k@) == assoc_dl(pairs@.subrange(i as int, pairs@.len() as int), k@),
        decreases pairs@.len() - i,
    {
        let ghost rem = pairs@.subrange(i as int, pairs@.len() as int);
        proof {
            assert(rem[0] == pairs@[i as int]);
            assert(rem.subrange(1, rem.len() as int) =~= pairs@.subrange(
                i + 1,
                pairs@.len() as int,
            ));
        }
        if str_eq(pairs[i].0.as_str(), k) {
            return Some(i);
        }
        i = i + 1;
    }
    proof {
        assert(pairs@.subrange(pairs@.len() as int, pairs@.len() as int) =~= Seq::<
            (String, DownloadInfo),
        >::empty());
    }
    None
}

/// Joins a directory and a relative path with a slash.
fn join_dir(dir: &str, rel: &str) -> (r: String)
    ensures
        r@ == dir@ + slash() + rel@,
{
    proof {
        reveal_strlit("/");
        assert("/"@ =~= slash());
    }
    let mut out = dir.to_owned();
    out.append("/");
    out.append(rel);
    out
}

/// Decides what to do for one library: nothing when its rules exclude it;
/// its native classifier jar (cached, classpathed and extracted) plus its
/// plain artifact when a classifier matches the platform; the plain
/// artifact alone otherwise; a maven-style derivation when it carries no
/// download metadata at all. A needed path field that is absent abandons
/// the library.
pub fn plan_library(
    l: &Library,
    current_os: &str,
    current_arch: &str,
    libraries_dir: &str,
    natives_jars_dir: &str,
) -> (a: LibraryAction)
    ensures
        action_for(a, *l, current_os@, current_arch@, libraries_dir@, natives_jars_dir@),
{
    if !VersionDetails::should_use_library(l, current_os, current_arch) {
        return LibraryAction::Excluded;
    }
    if l.downloads.is_none() {
        let rel = library_relative_path(l.name.as_str());
        let base: &str = match &l.url {
            Some(u) => u.as_str(),
            None => "https://libraries.minecraft.net/",
        };
        let mut url = base.to_owned();
        url.append(rel.as_str());
        let dest = join_dir(libraries_dir, rel.as_str());
        return LibraryAction::Maven { url, dest };
    }
    let d = l.downloads.as_ref().unwrap();
    let mut native_idx: Option<usize> = None;
    if let Some(natives) = &l.natives {
        if let Some(ni) = lookup_str(natives, current_os) {
            if let Some(classifiers) = &d.classifiers {
                native_idx = lookup_dl(classifiers, natives[ni].1.as_str());
            }
        }
    }
    proof {
        let nk = native_key_of(*l, current_os@);
        let cls = if nk is Some {
            classifier_of(*d, nk->0)
        } else {
            None::<DownloadInfo>
        };
        assert(match native_idx {
            Some(ci) => cls is Some && ci < d.classifiers->0@.len() && cls
                == Some(d.classifiers->0@[ci as int].1),
            None => cls is None,
        });
    }
    match native_idx {
        Some(ci) => {
            let ninfo = &d.classifiers.as_ref().unwrap()[ci].1;
            if ninfo.path.is_none() {
                return LibraryAction::MissingPath;
            }
            let p = ninfo.path.as_ref().unwrap();
            let jar_dest = join_dir(natives_jars_dir, p.as_str());
            let jar_url = ninfo.url.clone();
            let excludes: Vec<String> = match &l.extract {
                Some(e) => clone_string_vec(&e.exclude),
                None => Vec::new(),
            };
            proof {
                assert(excludes@.map_values(|x: String| x@) =~= excludes_of(*l));
            }
            match &d.artifact {
                Some(art) => {
                    if art.path.is_none() {
                        return LibraryAction::MissingPath;
                    }
                    let ap = art.path.as_ref().unwrap();
                    let adest = join_dir(libraries_dir, ap.as_str());
                    LibraryAction::Native {
                        jar_url,
                        jar_dest,
                        excludes,
                        artifact: Some((art.url.clone(), adest)),
                    }
                },
                None => LibraryAction::Native { jar_url, jar_dest, excludes, artifact: None },
            }
        },
        None => {
            match &d.artifact {
                Some(art) => {
                    if art.path.is_none() {
                        return LibraryAction::MissingPath;
                    }
                    let ap = art.path.as_ref().unwrap();
                    let adest = join_dir(libraries_dir, ap.as_str());
                    LibraryAction::Artifact { url: art.url.clone(), dest: adest }
                },
                None => LibraryAction::Inert,
            }
        },
    }
}

/// The download one cached artifact needs: none when its destination is
/// already present.
pub open spec fn dl_if_missing(url: Seq<char>, dest: Seq<char>, present: Seq<Seq<char>>) -> Seq<
    (Seq<char>, Seq<char>),
> {
    if present.contains(dest) {
        Seq::<(Seq<char>, Seq<char>)>::empty()
    } else {
        seq![(url, dest)]
    }
}

/// The downloads one action needs against the given cache contents.
pub open spec fn action_downloads(a: LibraryAction, present: Seq<Seq<char>>) -> Seq<
    (Seq<char>, Seq<char>),
> {
    match a {
        LibraryAction::Native { jar_url, jar_dest, excludes, artifact } => dl_if_missing(
            jar_url@,
            jar_dest@,
            present,
        ) + (match artifact {
            Some(p) => dl_if_missing(p.0@, p.1@, present),
            None => Seq::<(Seq<char>, Seq<char>)>::empty(),
        }),
        LibraryAction::Artifact { url, dest } => dl_if_missing(url@, dest@, present),
        LibraryAction::Maven { url, dest } => dl_if_missing(url@, dest@, present),
        _ => Seq::<(Seq<char>, Seq<char>)>::empty(),
    }
}

/// The downloads a whole action list needs, in order.
pub open spec fn downloads_of(actions: Seq<LibraryAction>, present: Seq<Seq<char>>) -> Seq<
    (Seq<char>, Seq<char>),
>
    decreases actions.len(),
{
    if actions.len() == 0 {
        Seq::<(Seq<char>, Seq<char>)>::empty()
    } else {
        action_downloads(actions[0], present) + downloads_of(
            actions.subrange(1, actions.len() as int),
            present,
        )
    }
}

/// The classpath contribution of one action: paths marked `true` join the
/// classpath unconditionally, paths marked `false` only if present after
/// the download attempt.
pub open spec fn action_classpath(a: LibraryAction) -> Seq<(bool, Seq<char>)> {
    match a {
        LibraryAction::Native { jar_url, jar_dest, excludes, artifact } => seq![(true, jar_dest@)]
            + (match artifact {
            Some(p) => seq![(true, p.1@)],
            None => Seq::<(bool, Seq<char>)>::empty(),
        }),
        LibraryAction::Artifact { url, dest } => seq![(true, dest@)],
        LibraryAction::Maven { url, dest } => seq![(false, dest@)],
        _ => Seq::<(bool, Seq<char>)>::empty(),
    }
}

/// The classpath contributions of a whole action list, in order.
pub open spec fn classpath_of(actions: Seq<LibraryAction>) -> Seq<(bool, Seq<char>)>
    decreases actions.len(),
{
    if actions.len() == 0 {
        Seq::<(bool, Seq<char>)>::empty()
    } else {
        action_classpath(actions[0]) + classpath_of(actions.subrange(1, actions.len() as int))
    }
}

/// The native jars one action has extracted, with their exclusion lists.
pub open spec fn action_extractions(a: LibraryAction) -> Seq<(Seq<char>, Seq<Seq<char>>)> {
    match a {
        LibraryAction::Native { jar_url, jar_dest, excludes, artifact } => seq![
            (jar_dest@, excludes@.map_values(|x: String| x@)),
        ],
        _ => Seq::<(Seq<char>, Seq<Seq<char>>)>::empty(),
    }
}

/// The extractions of a whole action list, in order.
pub open spec fn extractions_of(actions: Seq<LibraryAction>) -> Seq<(Seq<char>, Seq<Seq<char>>)>
    decreases actions.len(),
{
    if actions.len() == 0 {
        Seq::<(Seq<char>, Seq<Seq<char>>)>::empty()
    } else {
        action_extractions(actions[0]) + extractions_of(
            actions.subrange(1, actions.len() as int),
        )
    }
}

/// One classpath entry: unconditional, or only if present after the
/// download attempt (maven-style fallback entries).
#[derive(Debug, PartialEq)]
pub enum ClasspathEntry {
    Definite(String),
    IfPresent(String),
}

/// The (definite?, path) model of a classpath entry.
pub open spec fn entry_model(e: ClasspathEntry) -> (bool, Seq<char>) {
    match e {
        ClasspathEntry::Definite(p) => (true, p@),
        ClasspathEntry::IfPresent(p) => (false, p@),
    }
}

pub open spec fn dl_model(p: (String, String)) -> (Seq<char>, Seq<char>) {
    (p.0@, p.1@)
}

pub open spec fn extraction_model(p: (String, Vec<String>)) -> (Seq<char>, Seq<Seq<char>>) {
    (p.0@, p.1@.map_values(|x: String| x@))
}

/// The whole resolution plan: one action per library, and the download,
/// classpath and extraction lists they determine.
#[derive(Debug, PartialEq)]
pub struct LibraryPlan {
    pub actions: Vec<LibraryAction>,
    pub downloads: Vec<(String, String)>,
    pub classpath: Vec<ClasspathEntry>,
    pub extractions: Vec<(String, Vec<String>)>,
}

/// Whether some cached path equals `s`.
pub fn vec_contains_str(v: &Vec<String>, s: &str) -> (r: bool)
    ensures
        r == v@.map_values(|x: String| x@).contains(s@),
{
    let ghost model = v@.map_values(|x: String| x@);
    let mut i: usize = 0;
    while i < v.len()
        invariant
            0 <= i <= v@.len(),
            model == v@.map_values(|x: String| x@),
            forall|j: int| 0 <= j < i ==> v@[j]@ != s@,
        decreases v@.len() - i,
    {
        if str_eq(v[i].as_str(), s) {
            assert(model[i as int] == s@);
            return true;
        }
        i = i + 1;
    }
    assert(forall|j: int| 0 <= j < model.len() ==> model[j] != s@);
    false
}

proof fn lemma_downloads_snoc(actions: Seq<LibraryAction>, a: LibraryAction, present: Seq<Seq<char>>)
    ensures
        downloads_of(actions.push(a), present) == downloads_of(actions, present)
            + action_downloads(a, present),
    decreases actions.len(),
{
    let whole = actions.push(a);
    if actions.len() == 0 {
        assert(whole[0] == a);
        assert(whole.subrange(1, whole.len() as int) =~= Seq::<LibraryAction>::empty());
        assert(downloads_of(Seq::<LibraryAction>::empty(), present) == Seq::<
            (Seq<char>, Seq<char>),
        >::empty());
        assert(downloads_of(whole, present) =~= downloads_of(actions, present)
            + action_downloads(a, present));
    } else {
        let tail = actions.subrange(1, actions.len() as int);
        lemma_downloads_snoc(tail, a, present);
        assert(whole.subrange(1, whole.len() as int) =~= tail.push(a));
        assert(whole[0] == actions[0]);
        assert(downloads_of(whole, present) =~= downloads_of(actions, present)
            + action_downloads(a, present));
    }
}

proof fn lemma_classpath_snoc(actions: Seq<LibraryAction>, a: LibraryAction)
    ensures
        classpath_of(actions.push(a)) == classpath_of(actions) + action_classpath(a),
    decreases actions.len(),
{
    let whole = actions.push(a);
    if actions.len() == 0 {
        assert(whole[0] == a);
        assert(whole.subrange(1, whole.len() as int) =~= Seq::<LibraryAction>::empty());
        assert(classpath_of(Seq::<LibraryAction>::empty()) == Seq::<(bool, Seq<char>)>::empty());
        assert(classpath_of(whole) =~= classpath_of(actions) + action_classpath(a));
    } else {
        let tail = actions.subrange(1, actions.len() as int);
        lemma_classpath_snoc(tail, a);
        assert(whole.subrange(1, whole.len() as int) =~= tail.push(a));
        assert(whole[0] == actions[0]);
        assert(classpath_of(whole) =~= classpath_of(actions) + action_classpath(a));
    }
}

proof fn lemma_extractions_snoc(actions: Seq<LibraryAction>, a: LibraryAction)
    ensures
        extractions_of(actions.push(a)) == extractions_of(actions) + action_extractions(a),
    decreases actions.len(),
{
    let whole = actions.push(a);
    if actions.len() == 0 {
        assert(whole[0] == a);
        assert(whole.subrange(1, whole.len() as int) =~= Seq::<LibraryAction>::empty());
        assert(extractions_of(Seq::<LibraryAction>::empty()) == Seq::<
            (Seq<char>, Seq<Seq<char>>),
        >::empty());
        assert(extractions_of(whole) =~= extractions_of(actions) + action_extractions(a));
    } else {
        let tail = actions.subrange(1, actions.len() as int);
        lemma_extractions_snoc(tail, a);
        assert(whole.subrange(1, whole.len() as int) =~= tail.push(a));
        assert(whole[0] == actions[0]);
        assert(extractions_of(whole) =~= extractions_of(actions) + action_extractions(a));
    }
}

/// Appends one action's downloads, classpath entries and extractions.
fn append_action(
    downloads: &mut Vec<(String, String)>,
    classpath: &mut Vec<ClasspathEntry>,
    extractions: &mut Vec<(String, Vec<String>)>,
    a: &LibraryAction,
    present: &Vec<String>,
)
    ensures
        final(downloads)@.map_values(|p: (String, String)| dl_model(p)) == old(
            downloads,
        )@.map_values(|p: (String, String)| dl_model(p)) + action_downloads(
            *a,
            present@.map_values(|x: String| x@),
        ),
        final(classpath)@.map_values(|e: ClasspathEntry| entry_model(e)) == old(
            classpath,
        )@.map_values(|e: ClasspathEntry| entry_model(e)) + action_classpath(*a),
        final(extractions)@.map_values(|p: (String, Vec<String>)| extraction_model(p)) == old(
            extractions,
        )@.map_values(|p: (String, Vec<String>)| extraction_model(p)) + action_extractions(*a),
{
    let ghost presentm = present@.map_values(|x: String| x@);
    let ghost d0 = downloads@.map_values(|p: (String, String)| dl_model(p));
    let ghost c0 = classpath@.map_values(|e: ClasspathEntry| entry_model(e));
    let ghost e0 = extractions@.map_values(|p: (String, Vec<String>)| extraction_model(p));
    match a {
        LibraryAction::Native { jar_url, jar_dest, excludes, artifact } => {
            if !vec_contains_str(present, jar_dest.as_str()) {
                downloads.push((jar_url.clone(), jar_dest.clone()));
            }
            classpath.push(ClasspathEntry::Definite(jar_dest.clone()));
            extractions.push((jar_dest.clone(), clone_string_vec(excludes)));
            match artifact {
                Some(pair) => {
                    if !vec_contains_str(present, pair.1.as_str()) {
                        downloads.push((pair.0.clone(), pair.1.clone()));
                    }
                    classpath.push(ClasspathEntry::Definite(pair.1.clone()));
                },
                None => {
                },
            }
            proof {
                assert(downloads@.map_values(|p: (String, String)| dl_model(p)) =~= d0
                    + action_downloads(*a, presentm));
                assert(classpath@.map_values(|e: ClasspathEntry| entry_model(e)) =~= c0
                    + action_classpath(*a));
                assert(extractions@.map_values(|p: (String, Vec<String>)| extraction_model(p))
                    =~= e0 + action_extractions(*a));
            }
        },
        LibraryAction::Artifact { url, dest } => {
            if !vec_contains_str(present, dest.as_str()) {
                downloads.push((url.clone(), dest.clone()));
            }
            classpath.push(ClasspathEntry::Definite(dest.clone()));
            proof {
                assert(downloads@.map_values(|p: (String, String)| dl_model(p)) =~= d0
                    + action_downloads(*a, presentm));
                assert(classpath@.map_values(|e: ClasspathEntry| entry_model(e)) =~= c0
                    + action_classpath(*a));
                assert(extractions@.map_values(|p: (String, Vec<String>)| extraction_model(p))
                    =~= e0 + action_extractions(*a));
            }
        },
        LibraryAction::Maven { url, dest } => {
            if !vec_contains_str(present, dest.as_str()) {
                downloads.push((url.clone(), dest.clone()));
            }
            classpath.push(ClasspathEntry::IfPresent(dest.clone()));
            proof {
                assert(downloads@.map_values(|p: (String, String)| dl_model(p)) =~= d0
                    + action_downloads(*a, presentm));
                assert(classpath@.map_values(|e: ClasspathEntry| entry_model(e)) =~= c0
                    + action_classpath(*a));
                assert(extractions@.map_values(|p: (String, Vec<String>)| extraction_model(p))
                    =~= e0 + action_extractions(*a));
            }
        },
        _ => {
            proof {
                assert(downloads@.map_values(|p: (String, String)| dl_model(p)) =~= d0
                    + action_downloads(*a, presentm));
                assert(classpath@.map_values(|e: ClasspathEntry| entry_model(e)) =~= c0
                    + action_classpath(*a));
                assert(extractions@.map_values(|p: (String, Vec<String>)| extraction_model(p))
                    =~= e0 + action_extractions(*a));
            }
        },
    }
}

/// Resolves the merged library list against the cache: decides one action
/// per library, in order, and assembles the downloads still needed, the
/// classpath contributions and the native extractions they determine.
pub fn resolve_libraries(
    libs: &Vec<Library>,
    current_os: &str,
    current_arch: &str,
    libraries_dir: &str,
    natives_jars_dir: &str,
    present: &Vec<String>,
) -> (p: LibraryPlan)
    ensures
        p.actions@.len() == libs@.len(),
        forall|i: int|
            0 <= i < libs@.len() ==> action_for(
                #[trigger] p.actions@[i],
                libs@[i],
                current_os@,
                current_arch@,
                libraries_dir@,
                natives_jars_dir@,
            ),
        p.downloads@.map_values(|q: (String, String)| dl_model(q)) == downloads_of(
            p.actions@,
            present@.map_values(|x: String| x@),
        ),
        p.classpath@.map_values(|e: ClasspathEntry| entry_model(e)) == classpath_of(p.actions@),
        p.extractions@.map_values(|q: (String, Vec<String>)| extraction_model(q))
            == extractions_of(p.actions@),
{
    let ghost presentm = present@.map_values(|x: String| x@);
    let mut actions: Vec<LibraryAction> = Vec::new();
    let mut downloads: Vec<(String, String)> = Vec::new();
    let mut classpath: Vec<ClasspathEntry> = Vec::new();
    let mut extractions: Vec<(String, Vec<String>)> = Vec::new();
    proof {
        assert(downloads@.map_values(|q: (String, String)| dl_model(q)) =~= downloads_of(
            actions@,
            presentm,
        ));
        assert(classpath@.map_values(|e: ClasspathEntry| entry_model(e)) =~= classpath_of(
            actions@,
        ));
        assert(extractions@.map_values(|q: (String, Vec<String>)| extraction_model(q))
            =~= extractions_of(actions@));
    }
    let mut i: usize = 0;
    while i < libs.len()
        invariant
            0 <= i <= libs@.len(),
            actions@.len() == i,
            presentm == present@.map_values(|x: String| x@),
            forall|j: int|
                0 <= j < i ==> action_for(
                    #[trigger] actions@[j],
                    libs@[j],
                    current_os@,
                    current_arch@,
                    libraries_dir@,
                    natives_jars_dir@,
                ),
            downloads@.map_values(|q: (String, String)| dl_model(q)) == downloads_of(
                actions@,
                presentm,
            ),
            classpath@.map_values(|e: ClasspathEntry| entry_model(e)) == classpath_of(actions@),
            extractions@.map_values(|q: (String, Vec<String>)| extraction_model(q))
                == extractions_of(actions@),
        decreases libs@.len() - i,
    {
        let a = plan_library(&libs[i], current_os, current_arch, libraries_dir, natives_jars_dir);
        append_action(&mut downloads, &mut classpath, &mut extractions, &a, present);
        proof {
            lemma_downloads_snoc(actions@, a, presentm);
            lemma_classpath_snoc(actions@, a);
            lemma_extractions_snoc(actions@, a);
        }
        actions.push(a);
        i = i + 1;
    }
    LibraryPlan { actions, downloads, classpath, extractions }
}

/// Resolving again with every destination of a first run's downloads now
/// present — an unchanged, populated cache — plans no download at all.
pub proof fn lemma_second_run_no_downloads(
    actions: Seq<LibraryAction>,
    present1: Seq<Seq<char>>,
    present2: Seq<Seq<char>>,
)
    requires
        forall|p: Seq<char>| present1.contains(p) ==> present2.contains(p),
        forall|q: (Seq<char>, Seq<char>)|
            downloads_of(actions, present1).contains(q) ==> present2.contains(q.1),
    ensures
        downloads_of(actions, present2) == Seq::<(Seq<char>, Seq<char>)>::empty(),
    decreases actions.len(),
{
    if actions.len() == 0 {
    } else {
        let a = actions[0];
        let tail = actions.subrange(1, actions.len() as int);
        let head_dls = action_downloads(a, present1);
        let tail_dls = downloads_of(tail, present1);
        let all = downloads_of(actions, present1);
        assert(all == head_dls + tail_dls);
        assert forall|q: (Seq<char>, Seq<char>)| tail_dls.contains(q) implies present2.contains(
            q.1,
        ) by {
            let k = choose|k: int| 0 <= k < tail_dls.len() && tail_dls[k] == q;
            assert(all[head_dls.len() + k] == q);
            assert(all.contains(q));
        }
        lemma_second_run_no_downloads(tail, present1, present2);
        assert(forall|k: int| 0 <= k < head_dls.len() ==> all[k] == head_dls[k]);
        // Each destination the head action might need is in present2: either
        // it was already present, or its download is in the first run's list.
        assert(action_downloads(a, present2) =~= Seq::<(Seq<char>, Seq<char>)>::empty()) by {
            match a {
                LibraryAction::Native { jar_url, jar_dest, excludes, artifact } => {
                    lemma_head_dest_present(head_dls, all, present1, present2, jar_url@, jar_dest@, 0);
                    match artifact {
                        Some(pair) => {
                            let off = dl_if_missing(jar_url@, jar_dest@, present1).len() as int;
                            lemma_head_dest_present(
                                head_dls,
                                all,
                                present1,
                                present2,
                                pair.0@,
                                pair.1@,
                                off,
                            );
                        },
                        None => {
                        },
                    }
                },
                LibraryAction::Artifact { url, dest } => {
                    lemma_head_dest_present(head_dls, all, present1, present2, url@, dest@, 0);
                },
                LibraryAction::Maven { url, dest } => {
                    lemma_head_dest_present(head_dls, all, present1, present2, url@, dest@, 0);
                },
                _ => {
                },
            }
        }
        assert(downloads_of(actions, present2) =~= Seq::<(Seq<char>, Seq<char>)>::empty());
    }
}

/// If a head action's download of `(url, dest)` stands at offset `off` of
/// its download list when `dest` is missing, then `dest` ends up present in
/// the second run's cache.
proof fn lemma_head_dest_present(
    head_dls: Seq<(Seq<char>, Seq<char>)>,
    all: Seq<(Seq<char>, Seq<char>)>,
    present1: Seq<Seq<char>>,
    present2: Seq<Seq<char>>,
    url: Seq<char>,
    dest: Seq<char>,
    off: int,
)
    requires
        forall|p: Seq<char>| present1.contains(p) ==> present2.contains(p),
        forall|q: (Seq<char>, Seq<char>)| all.contains(q) ==> present2.contains(q.1),
        !present1.contains(dest) ==> 0 <= off && off < head_dls.len() && head_dls[off] == (
            url,
            dest,
        ),
        forall|k: int| 0 <= k < head_dls.len() ==> all[k] == head_dls[k],
        head_dls.len() <= all.len(),
    ensures
        present2.contains(dest),
{
    if present1.contains(dest) {
    } else {
        assert(all[off] == (url, dest));
        assert(all.contains((url, dest)));
    }
}

} // verus!
