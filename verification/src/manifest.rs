//! The version catalog: its typed model, the release filter, and the
//! lookup of a version's descriptor URL.
use vstd::prelude::*;
use crate::strutil::str_eq;
use crate::errors::LaunchError;

verus! {

/// One catalog entry.
#[derive(Debug, Clone, PartialEq)]
pub struct MinecraftVersion {
    pub id: String,
    pub version_type: String,
    pub url: String,
    pub time: String,
    pub release_time: String,
}

/// The newest release and snapshot ids.
#[derive(Debug, Clone, PartialEq)]
pub struct LatestVersions {
    pub release: String,
    pub snapshot: String,
}

/// The whole version catalog.
#[derive(Debug, Clone, PartialEq)]
pub struct VersionManifest {
    pub latest: LatestVersions,
    pub versions: Vec<MinecraftVersion>,
}

/// Fetches and caches version metadata; the transport lives outside the
/// library.
#[derive(Debug, Clone, PartialEq)]
pub struct VersionManager {
    pub cache_dir: String,
}

impl VersionManager {
    /// A manager caching under the given directory.
    pub fn new(cache_dir: String) -> (r: VersionManager)
        ensures
            r.cache_dir == cache_dir,
    {
        VersionManager { cache_dir }
    }
}

/// The (id, type, url) model of a catalog entry.
pub open spec fn mv_model(v: MinecraftVersion) -> (Seq<char>, Seq<char>, Seq<char>) {
    (v.id@, v.version_type@, v.url@)
}

/// The release entries of a catalog, in catalog order.
pub open spec fn releases_of(versions: Seq<MinecraftVersion>) -> Seq<(Seq<char>, Seq<char>, Seq<char>)>
    decreases versions.len(),
{
    if versions.len() == 0 {
        Seq::<(Seq<char>, Seq<char>, Seq<char>)>::empty()
    } else {
        (if versions[0].version_type@ == "release"@ {
            seq![mv_model(versions[0])]
        } else {
            Seq::<(Seq<char>, Seq<char>, Seq<char>)>::empty()
        }) + releases_of(versions.subrange(1, versions.len() as int))
    }
}

proof fn lemma_releases_snoc(versions: Seq<MinecraftVersion>, v: MinecraftVersion)
    ensures
        releases_of(versions.push(v)) == releases_of(versions) + (if v.version_type@ == "release"@ {
            seq![mv_model(v)]
        } else {
            Seq::<(Seq<char>, Seq<char>, Seq<char>)>::empty()
        }),
    decreases versions.len(),
{
    let whole = versions.push(v);
    let extra = if v.version_type@ == "release"@ {
        seq![mv_model(v)]
    } else {
        Seq::<(Seq<char>, Seq<char>, Seq<char>)>::empty()
    };
    if versions.len() == 0 {
        assert(whole[0] == v);
        assert(whole.subrange(1, whole.len() as int) =~= Seq::<MinecraftVersion>::empty());
        assert(releases_of(Seq::<MinecraftVersion>::empty()) == Seq::<
            (Seq<char>, Seq<char>, Seq<char>),
        >::empty());
        assert(releases_of(whole) == extra + Seq::<(Seq<char>, Seq<char>, Seq<char>)>::empty());
        assert(releases_of(whole) =~= releases_of(versions) + extra);
    } else {
        let tail = versions.subrange(1, versions.len() as int);
        lemma_releases_snoc(tail, v);
        assert(whole.subrange(1, whole.len() as int) =~= tail.push(v));
        assert(whole[0] == versions[0]);
        let h = if versions[0].version_type@ == "release"@ {
            seq![mv_model(versions[0])]
        } else {
            Seq::<(Seq<char>, Seq<char>, Seq<char>)>::empty()
        };
        assert(releases_of(whole) == h + releases_of(tail.push(v)));
        assert(releases_of(versions) == h + releases_of(tail));
        assert(h + (releases_of(tail) + extra) =~= (h + releases_of(tail)) + extra);
        assert(releases_of(whole) == releases_of(versions) + extra);
    }
}

/// Keeps exactly the catalog entries of type `release`, in order.
pub fn release_versions(versions: &Vec<MinecraftVersion>) -> (r: Vec<MinecraftVersion>)
    ensures
        r@.map_values(|v: MinecraftVersion| mv_model(v)) == releases_of(versions@),
{
    let mut out: Vec<MinecraftVersion> = Vec::new();
    proof {
        assert(out@.map_values(|v: MinecraftVersion| mv_model(v)) =~= releases_of(
            versions@.subrange(0, 0),
        ));
    }
    let mut i: usize = 0;
    while i < versions.len()
        invariant
            0 <= i <= versions@.len(),
            out@.map_values(|v: MinecraftVersion| mv_model(v)) == releases_of(
                versions@.subrange(0, i as int),
            ),
        decreases versions@.len() - i,
    {
        proof {
            lemma_releases_snoc(versions@.subrange(0, i as int), versions@[i as int]);
            assert(versions@.subrange(0, i as int).push(versions@[i as int]) =~= versions@.subrange(
                0,
                i + 1,
            ));
        }
        if str_eq(versions[i].version_type.as_str(), "release") {
            let ghost prev = out@;
            let v = &versions[i];
            out.push(
                MinecraftVersion {
                    id: v.id.clone(),
                    version_type: v.version_type.clone(),
                    url: v.url.clone(),
                    time: v.time.clone(),
                    release_time: v.release_time.clone(),
                },
            );
            proof {
                assert(mv_model(out@[out@.len() - 1]) == mv_model(versions@[i as int]));
                assert(out@.map_values(|v: MinecraftVersion| mv_model(v)) =~= prev.map_values(
                    |v: MinecraftVersion| mv_model(v),
                ).push(mv_model(versions@[i as int])));
                assert(out@.map_values(|v: MinecraftVersion| mv_model(v)) =~= releases_of(
                    versions@.subrange(0, i + 1),
                ));
            }
        } else {
            proof {
                assert(out@.map_values(|v: MinecraftVersion| mv_model(v)) =~= releases_of(
                    versions@.subrange(0, i + 1),
                ));
            }
        }
        i = i + 1;
    }
    proof {
        assert(versions@.subrange(0, versions@.len() as int) =~= versions@);
    }
    out
}

/// The descriptor URL of the first catalog entry with the given id.
pub open spec fn version_url_of(versions: Seq<MinecraftVersion>, id: Seq<char>) -> Option<
    Seq<char>,
>
    decreases versions.len(),
{
    if versions.len() == 0 {
        None
    } else if versions[0].id@ == id {
        Some(versions[0].url@)
    } else {
        version_url_of(versions.subrange(1, versions.len() as int), id)
    }
}

/// Looks a version id up in the catalog: its descriptor URL, or the
/// version-not-found failure when the catalog has no such id.
pub fn find_version_url(versions: &Vec<MinecraftVersion>, id: &str) -> (r: Result<
    String,
    LaunchError,
>)
    ensures
        match r {
            Ok(u) => version_url_of(versions@, id@) == Some(u@),
            Err(e) => version_url_of(versions@, id@) is None && (e matches
                LaunchError::VersionNotFound(v) && v@ == id@),
        },
{
    proof {
        assert(versions@.subrange(0, versions@.len() as int) =~= versions@);
    }
    let mut i: usize = 0;
    while i < versions.len()
        invariant
            0 <= i <= versions@.len(),
            version_url_of(versions@, id@) == version_url_of(
                versions@.subrange(i as int, versions@.len() as int),
                id@,
            ),
        decreases versions@.len() - i,
    {
        let ghost rem = versions@.subrange(i as int, versions@.len() as int);
        proof {
            assert(rem[0] == versions@[i as int]);
            assert(rem.subrange(1, rem.len() as int) =~= versions@.subrange(
                i + 1,
                versions@.len() as int,
            ));
        }
        if str_eq(versions[i].id.as_str(), id) {
            return Ok(versions[i].url.clone());
        }
        i = i + 1;
    }
    proof {
        assert(versions@.subrange(versions@.len() as int, versions@.len() as int) =~= Seq::<
            MinecraftVersion,
        >::empty());
    }
    Err(LaunchError::VersionNotFound(id.to_owned()))
}

} // verus!
