//! Instance records: construction, field updates and the display order.
use vstd::prelude::*;
use vstd::multiset::Multiset;

verus! {

/// One saved game instance.
#[derive(Debug, Clone, PartialEq)]
pub struct Instance {
    pub id: String,
    pub name: String,
    pub version: String,
    pub versions: Option<Vec<String>>,
    pub mod_loader: Option<String>,
    pub mod_loader_version: Option<String>,
    pub icon: Option<String>,
    pub background_image: Option<String>,
    pub created: u64,
}

/// A fresh instance record: its version list starts with its one version,
/// and it carries no icon.
pub fn make_instance(
    id: String,
    name: String,
    version: String,
    mod_loader: Option<String>,
    mod_loader_version: Option<String>,
    background_image: Option<String>,
    created: u64,
) -> (r: Instance)
    ensures
        r.id == id,
        r.name == name,
        r.version == version,
        r.versions matches Some(vs) && vs@ == seq![version],
        r.mod_loader == mod_loader,
        r.mod_loader_version == mod_loader_version,
        r.icon is None,
        r.background_image == background_image,
        r.created == created,
{
    let mut vs: Vec<String> = Vec::new();
    vs.push(version.clone());
    proof {
        assert(vs@ =~= seq![version]);
    }
    Instance {
        id,
        name,
        version,
        versions: Some(vs),
        mod_loader,
        mod_loader_version,
        icon: None,
        background_image,
        created,
    }
}

/// Applies a partial update: every field given replaces the stored one,
/// every field not given is kept.
pub fn apply_instance_update(
    instance: Instance,
    name: Option<String>,
    version: Option<String>,
    versions: Option<Vec<String>>,
    mod_loader: Option<String>,
    mod_loader_version: Option<String>,
    icon: Option<String>,
    background_image: Option<String>,
) -> (r: Instance)
    ensures
        r.id == instance.id,
        r.created == instance.created,
        r.name == (if name is Some {
            name->0
        } else {
            instance.name
        }),
        r.version == (if version is Some {
            version->0
        } else {
            instance.version
        }),
        r.versions == (if versions is Some {
            Some(versions->0)
        } else {
            instance.versions
        }),
        r.mod_loader == (if mod_loader is Some {
            mod_loader
        } else {
            instance.mod_loader
        }),
        r.mod_loader_version == (if mod_loader_version is Some {
            mod_loader_version
        } else {
            instance.mod_loader_version
        }),
        r.icon == (if icon is Some {
            icon
        } else {
            instance.icon
        }),
        r.background_image == (if background_image is Some {
            background_image
        } else {
            instance.background_image
        }),
{
    let mut r = instance;
    if let Some(n) = name {
        r.name = n;
    }
    if let Some(v) = version {
        r.version = v;
    }
    if let Some(vs) = versions {
        r.versions = Some(vs);
    }
    if let Some(ml) = mod_loader {
        r.mod_loader = Some(ml);
    }
    if let Some(mlv) = mod_loader_version {
        r.mod_loader_version = Some(mlv);
    }
    if let Some(ic) = icon {
        r.icon = Some(ic);
    }
    if let Some(bg) = background_image {
        r.background_image = Some(bg);
    }
    r
}

/// The view of an instance for ordering purposes: its id and creation
/// time.
pub open spec fn instance_model(i: Instance) -> (Seq<char>, u64) {
    (i.id@, i.created)
}

/// Orders instances for display: most recently created first. The result
/// holds exactly the given records, compared by id and creation time.
pub fn sort_instances_by_created(v: Vec<Instance>) -> (r: Vec<Instance>)
    ensures
        r@.map_values(|i: Instance| instance_model(i)).to_multiset() == v@.map_values(
            |i: Instance| instance_model(i),
        ).to_multiset(),
        forall|i: int, j: int|
            0 <= i < j < r@.len() ==> (#[trigger] r@[i]).created >= (#[trigger] r@[j]).created,
{
    let ghost vm = v@.map_values(|i: Instance| instance_model(i));
    let mut rest = v;
    let mut out: Vec<Instance> = Vec::new();
    proof {
        broadcast use vstd::multiset::group_multiset_axioms;
        broadcast use vstd::seq_lib::group_to_multiset_ensures;

        assert(out@.map_values(|i: Instance| instance_model(i)) =~= Seq::<
            (Seq<char>, u64),
        >::empty());
        assert(out@.map_values(|i: Instance| instance_model(i)).to_multiset().len() == 0);
        assert(out@.map_values(|i: Instance| instance_model(i)).to_multiset().add(
            rest@.map_values(|i: Instance| instance_model(i)).to_multiset(),
        ) =~= vm.to_multiset());
    }
    while rest.len() > 0
        invariant
            out@.map_values(|i: Instance| instance_model(i)).to_multiset().add(
                rest@.map_values(|i: Instance| instance_model(i)).to_multiset(),
            ) == vm.to_multiset(),
            forall|i: int, j: int|
                0 <= i < j < out@.len() ==> (#[trigger] out@[i]).created >= (
                #[trigger] out@[j]).created,
            forall|i: int, j: int|
                0 <= i < out@.len() && 0 <= j < rest@.len() ==> (#[trigger] out@[i]).created >= (
                #[trigger] rest@[j]).created,
        decreases rest@.len(),
    {
        let mut m: usize = 0;
        let mut k: usize = 1;
        while k < rest.len()
            invariant
                0 <= m < k <= rest@.len(),
                rest@.len() > 0,
                forall|j: int|
                    0 <= j < k ==> rest@[m as int].created >= (#[trigger] rest@[j]).created,
            decreases rest@.len() - k,
        {
            if rest[k].created > rest[m].created {
                m = k;
            }
            k = k + 1;
        }
        let ghost prevrest = rest@;
        let ghost prevout = out@;
        let x = rest.remove(m);
        proof {
            assert(x == prevrest[m as int]);
            assert(rest@ =~= prevrest.remove(m as int));
            assert(rest@.map_values(|i: Instance| instance_model(i)) =~= prevrest.map_values(
                |i: Instance| instance_model(i),
            ).remove(m as int));
        }
        out.push(x);
        proof {
            broadcast use vstd::seq_lib::group_to_multiset_ensures;
            broadcast use vstd::multiset::group_multiset_axioms;

            assert(out@.map_values(|i: Instance| instance_model(i)) =~= prevout.map_values(
                |i: Instance| instance_model(i),
            ).push(instance_model(x)));
            let pm = prevrest.map_values(|i: Instance| instance_model(i));
            assert(pm[m as int] == instance_model(x));
            assert(pm.contains(instance_model(x)));
            assert(pm.to_multiset().count(instance_model(x)) > 0);
            assert(rest@.map_values(|i: Instance| instance_model(i)).to_multiset() == pm.remove(
                m as int,
            ).to_multiset());
            assert(pm.remove(m as int).to_multiset() == pm.to_multiset().remove(
                instance_model(x),
            ));
            assert(out@.map_values(|i: Instance| instance_model(i)).to_multiset()
                == prevout.map_values(|i: Instance| instance_model(i)).push(
                instance_model(x),
            ).to_multiset());
            assert(out@.map_values(|i: Instance| instance_model(i)).to_multiset().add(
                rest@.map_values(|i: Instance| instance_model(i)).to_multiset(),
            ) =~= vm.to_multiset());
            assert forall|i: int, j: int|
                0 <= i < out@.len() && 0 <= j < rest@.len() implies (#[trigger] out@[i]).created
                >= (#[trigger] rest@[j]).created by {
                let jj = if j < m {
                    j
                } else {
                    j + 1
                };
                assert(rest@[j] == prevrest[jj]);
                if i < out@.len() - 1 {
                    assert(out@[i] == prevout[i]);
                } else {
                    assert(out@[i] == x);
                }
            }
        }
    }
    proof {
        broadcast use vstd::seq_lib::group_to_multiset_ensures;

        assert(rest@.map_values(|i: Instance| instance_model(i)).to_multiset() =~= Multiset::<
            (Seq<char>, u64),
        >::empty());
        assert(out@.map_values(|i: Instance| instance_model(i)).to_multiset() =~= vm.to_multiset());
    }
    out
}

} // verus!
