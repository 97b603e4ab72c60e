//! The deployment plan of an instance: which artifact lands at which path.

use vstd::prelude::*;
use vstd::string::*;
use crate::inst::Inst;
use crate::pack::{install_views, merged_all, Install, InstallView};
use crate::storage::{Artifact, ArtifactView};
use crate::text::{decimal, join, joined, push_decimal, texts};

verus! {

/// One artifact and the path at which it is deployed.
#[derive(Debug, PartialEq, Eq)]
pub struct Deployment {
    pub path: String,
    pub artifact: Artifact,
}

/// What a [`Deployment`] stands for.
pub struct DeploymentView {
    pub path: Seq<char>,
    pub artifact: ArtifactView,
}

impl View for Deployment {
    type V = DeploymentView;

    open spec fn view(&self) -> DeploymentView {
        DeploymentView { path: self.path@, artifact: self.artifact@ }
    }
}

impl Clone for Deployment {
    fn clone(&self) -> (copy: Self)
        ensures
            copy@ == self@,
    {
        Deployment { path: self.path.clone(), artifact: self.artifact.clone() }
    }
}

impl Deployment {
    /// The deployment of `artifact` at `path`.
    pub fn from(value: (String, Artifact)) -> (d: Self)
        ensures
            d@ == (DeploymentView { path: value.0@, artifact: value.1@ }),
    {
        let (path, artifact) = value;
        Deployment { path, artifact }
    }
}

/// What a list of deployments holds, deployment by deployment.
pub open spec fn deployment_views(v: Seq<Deployment>) -> Seq<DeploymentView> {
    Seq::new(v.len(), |i: int| v[i]@)
}

/// The finished plan of an instance.
#[derive(Debug, PartialEq, Eq)]
pub struct Lock {
    pub cfg: Inst,
    pub java_main_class: String,
    pub java_flag: Vec<String>,
    pub mc_flag: Vec<String>,
    pub deploy: Vec<Deployment>,
}

/// Why no plan can be built from an install record.
#[derive(Clone, Copy, Debug, PartialEq, Eq, Structural)]
pub enum LockError {
    /// The record names no game jar.
    MissingJar,
    /// The record names no asset index.
    MissingAssetIndex,
    /// The record names no Java main class.
    MissingMainClass,
}

/// The artifacts of a list deployed under `dir`, each at its index.
pub open spec fn numbered(dir: Seq<char>, arts: Seq<ArtifactView>) -> Seq<DeploymentView> {
    Seq::new(
        arts.len(),
        |i: int| DeploymentView { path: joined(dir, decimal(i as nat)), artifact: arts[i] },
    )
}

/// The natives of a map, each at its declared path.
pub open spec fn declared(native: Seq<(Seq<char>, ArtifactView)>) -> Seq<DeploymentView> {
    Seq::new(native.len(), |i: int| DeploymentView { path: native[i].0, artifact: native[i].1 })
}

/// Where an asset index with digest `blake3` is deployed under the assets
/// directory `assets`: `<assets>/indexes/<digest>.json`.
pub open spec fn asset_index_path(assets: Seq<char>, blake3: Seq<char>) -> Seq<char> {
    joined(joined(assets, "indexes"@), blake3 + ".json"@)
}

/// The deployment list of an install record that names a game jar and an
/// asset index: libraries, natives, the game jar, mods, the asset index.
pub open spec fn deployment_plan(install: InstallView, assets: Seq<char>) -> Seq<DeploymentView> {
    numbered("libraries"@, install.java_lib) + declared(install.native) + seq![
        DeploymentView { path: "minecraft.jar"@, artifact: install.mc_jar->Some_0 },
    ] + numbered("mods"@, install.mc_mod) + seq![
        DeploymentView {
            path: asset_index_path(assets, install.mc_asset_index->Some_0.blake3),
            artifact: install.mc_asset_index->Some_0,
        },
    ]
}

/// The game flags of a plan: those of the record, then the asset index by
/// its digest.
pub open spec fn plan_mc_flags(install: InstallView) -> Seq<Seq<char>> {
    install.mc_flag + seq!["--assetIndex"@, install.mc_asset_index->Some_0.blake3]
}

/// The first thing an install record lacks for a plan, if any.
pub open spec fn plan_error(install: InstallView) -> Option<LockError> {
    if install.mc_jar is None {
        Some(LockError::MissingJar)
    } else if install.mc_asset_index is None {
        Some(LockError::MissingAssetIndex)
    } else if install.java_main_class is None {
        Some(LockError::MissingMainClass)
    } else {
        None
    }
}

/// Collects install records for one instance and builds its plan.
pub struct LockBuilder {
    cfg: Inst,
    install: Install,
}

impl LockBuilder {
    /// The install record collected so far.
    pub closed spec fn install(&self) -> InstallView {
        self.install@
    }

    /// The instance the plan is for.
    pub closed spec fn cfg(&self) -> Inst {
        self.cfg
    }

    /// A builder for the instance `cfg` that has collected nothing.
    pub fn new(cfg: Inst) -> (builder: Self)
        ensures
            builder.cfg() == cfg,
            builder.install() == crate::pack::empty_install(),
    {
        LockBuilder { cfg, install: Install::new() }
    }

    /// Merges every record of `iter` into the collected one, in order.
    pub fn extend(&mut self, iter: Vec<Install>)
        ensures
            final(self).cfg() == old(self).cfg(),
            final(self).install() == merged_all(old(self).install(), install_views(iter@)),
    {
        self.install.extend(iter);
    }

    /// Builds the plan. The artifacts are deployed in a fixed order:
    /// `libraries/<i>` for the `i`-th library, each native at its declared
    /// path, the game jar at `minecraft.jar`, `mods/<i>` for the `i`-th mod,
    /// and the asset index under `assets`. The game flags gain the asset
    /// index. A record without game jar, asset index or main class gives the
    /// first of these that is missing.
    pub fn build(self, assets: &str) -> (built: Result<Lock, LockError>)
        ensures
            match plan_error(self.install()) {
                Some(e) => built == Err::<Lock, LockError>(e),
                None => {
                    &&& built is Ok
                    &&& built->Ok_0.cfg == self.cfg()
                    &&& built->Ok_0.java_main_class@ == self.install().java_main_class->Some_0
                    &&& texts(built->Ok_0.java_flag@) == self.install().java_flag
                    &&& texts(built->Ok_0.mc_flag@) == plan_mc_flags(self.install())
                    &&& deployment_views(built->Ok_0.deploy@) == deployment_plan(
                        self.install(),
                        assets@,
                    )
                },
            },
    {
        let ghost plan = self.install@;
        let LockBuilder { cfg, install } = self;
        let Install {
            java_lib,
            java_main_class,
            native,
            java_flag,
            mc_jar,
            mc_flag,
            mc_asset_index,
            mc_mod,
        } = install;
        let mc_jar = match mc_jar {
            Some(jar) => jar,
            None => {
                return Err(LockError::MissingJar);
            },
        };
        let mc_asset_index = match mc_asset_index {
            Some(index) => index,
            None => {
                return Err(LockError::MissingAssetIndex);
            },
        };
        let java_main_class = match java_main_class {
            Some(class) => class,
            None => {
                return Err(LockError::MissingMainClass);
            },
        };
        let mut deploy: Vec<Deployment> = Vec::new();
        push_numbered(&mut deploy, "libraries", &java_lib);
        let ghost libraries = deployment_views(deploy@);
        let mut i: usize = 0;
        let n = native.len();
        while i < n
            invariant
                n == native@.len(),
                i <= n,
                deployment_views(deploy@) == libraries + declared(native@).take(i as int),
            decreases n - i,
        {
            let ghost before = deployment_views(deploy@);
            deploy.push(
                Deployment::from((native.path_at(i).clone(), native.artifact_at(i).clone())),
            );
            proof {
                assert(deployment_views(deploy@) =~= before.push(declared(native@)[i as int]));
                assert(deployment_views(deploy@) =~= libraries + declared(native@).take(i + 1));
            }
            i += 1;
        }
        proof {
            assert(declared(native@).take(n as int) =~= declared(native@));
        }
        let ghost natives = deployment_views(deploy@);
        deploy.push(Deployment::from(("minecraft.jar".to_owned(), mc_jar)));
        let ghost with_jar = deployment_views(deploy@);
        proof {
            assert(with_jar =~= natives.push(
                DeploymentView { path: "minecraft.jar"@, artifact: mc_jar@ },
            ));
        }
        push_numbered(&mut deploy, "mods", &mc_mod);
        let ghost with_mods = deployment_views(deploy@);
        let mut mc_flag = mc_flag;
        let ghost flags = texts(mc_flag@);
        mc_flag.push("--assetIndex".to_owned());
        mc_flag.push(mc_asset_index.blake3.clone());
        proof {
            assert(texts(mc_flag@) =~= flags + seq!["--assetIndex"@, mc_asset_index.blake3@]);
        }
        let mut file = mc_asset_index.blake3.clone();
        file.append(".json");
        let indexes = join(assets, "indexes");
        let path = join(indexes.as_str(), file.as_str());
        deploy.push(Deployment::from((path, mc_asset_index)));
        proof {
            assert(deployment_views(deploy@) =~= with_mods.push(
                DeploymentView {
                    path: asset_index_path(assets@, mc_asset_index.blake3@),
                    artifact: mc_asset_index@,
                },
            ));
            assert(deployment_views(deploy@) =~= deployment_plan(plan, assets@));
        }
        Ok(Lock { cfg, java_main_class, java_flag, mc_flag, deploy })
    }
}

/// Appends the artifacts of `arts` to `deploy`, the `i`-th under `<dir>/<i>`.
fn push_numbered(deploy: &mut Vec<Deployment>, dir: &str, arts: &Vec<Artifact>)
    ensures
        deployment_views(final(deploy)@) == deployment_views(old(deploy)@) + numbered(
            dir@,
            crate::storage::artifact_views(arts@),
        ),
{
    let ghost start = deployment_views(deploy@);
    let ghost all = numbered(dir@, crate::storage::artifact_views(arts@));
    let mut i: usize = 0;
    while i < arts.len()
        invariant
            i <= arts@.len(),
            all == numbered(dir@, crate::storage::artifact_views(arts@)),
            deployment_views(deploy@) == start + all.take(i as int),
        decreases arts@.len() - i,
    {
        let ghost before = deployment_views(deploy@);
        let mut path = dir.to_owned();
        path.push('/');
        push_decimal(&mut path, i as u64);
        deploy.push(Deployment::from((path, arts[i].clone())));
        proof {
            assert(path@ =~= joined(dir@, decimal(i as nat)));
            assert(deployment_views(deploy@) =~= before.push(all[i as int]));
            assert(deployment_views(deploy@) =~= start + all.take(i + 1));
        }
        i += 1;
    }
    proof {
        assert(all.take(arts@.len() as int) =~= all);
    }
}

} // verus!
