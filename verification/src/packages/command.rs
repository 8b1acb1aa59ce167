//! What the setup command does with each package.

use crate::packages::package::Package;
use crate::packages::package::PackageRegistry;
use crate::packages::package::SourceInfo;
use crate::packages::package::SourceType;
use vstd::prelude::*;

verus! {

/// What is to be done for one package.
#[derive(Clone, Debug, PartialEq, Eq)]
pub enum PackageStep {
    /// The target directory is there already: nothing is fetched.
    Skip,
    /// Make the target directory and clone the repository into it.
    Clone { source: String, target_dir: String },
    /// Download the archive and unpack it into the target directory.
    Download { source: String, target_dir: String },
}

/// The step that fetches from `info` into `target_dir`.
pub open spec fn fetch_step(info: SourceInfo, target_dir: String) -> PackageStep {
    match info.source_type {
        SourceType::Git => PackageStep::Clone { source: info.source, target_dir },
        SourceType::Http => PackageStep::Download { source: info.source, target_dir },
    }
}

/// The step for a package on a platform: nothing where its target is
/// there already, else the fetch from its source for that platform.
pub open spec fn step_for(package: Package, platform: Seq<char>, target_exists: bool) -> PackageStep {
    if target_exists {
        PackageStep::Skip
    } else {
        fetch_step(package.platform@[platform], package.target_dir)
    }
}

/// Decides what is to be done for a package. A package that is to be
/// fetched must name a source for the platform.
pub fn plan_package(package: &Package, platform: &str, target_exists: bool) -> (step: PackageStep)
    requires
        package.platform.wf(),
        target_exists || package.platform@.contains_key(platform@),
    ensures
        step == step_for(*package, platform@, target_exists),
{
    if target_exists {
        return PackageStep::Skip;
    }
    match package.platform.get(platform) {
        Some(info) => match info.source_type {
            SourceType::Git => PackageStep::Clone {
                source: info.source.clone(),
                target_dir: package.target_dir.clone(),
            },
            SourceType::Http => PackageStep::Download {
                source: info.source.clone(),
                target_dir: package.target_dir.clone(),
            },
        },
        None => PackageStep::Skip,
    }
}

/// Decides what is to be done for a package, or `None` where it is to be
/// fetched and names no source for the platform.
pub fn try_plan_package(package: &Package, platform: &str, target_exists: bool) -> (step: Option<
    PackageStep,
>)
    requires
        package.platform.wf(),
    ensures
        step == if target_exists || package.platform@.contains_key(platform@) {
            Some(step_for(*package, platform@, target_exists))
        } else {
            None
        },
{
    if target_exists || package.platform.contains_key(platform) {
        Some(plan_package(package, platform, target_exists))
    } else {
        None
    }
}

/// Whether every package of a registry has a plan: it is there already or
/// names a source for the platform.
pub open spec fn all_planned(packages: Seq<Package>, platform: Seq<char>, present: Seq<bool>) -> bool {
    forall|i: int|
        0 <= i < packages.len() ==> present[i] || (#[trigger] packages[i]).platform@.contains_key(
            platform,
        )
}

/// Plans the setup command: the step for every package of the registry, in
/// the order of the registry. `present[i]` says whether the target
/// directory of the package at index `i` is there already. There is no plan
/// where `present` does not answer for every package, or where a package
/// that is to be fetched names no source for the platform.
pub fn setup(registry: &PackageRegistry, platform: &str, present: &Vec<bool>) -> (steps: Option<
    Vec<PackageStep>,
>)
    requires
        registry.packages.wf(),
        forall|i: int|
            0 <= i < registry.packages.values().len() ==> (
            #[trigger] registry.packages.values()[i]).platform.wf(),
    ensures
        steps is Some <==> present.len() == registry.packages.values().len() && all_planned(
            registry.packages.values(),
            platform@,
            present@,
        ),
        steps matches Some(planned) ==> planned.len() == present.len() && forall|i: int|
            0 <= i < planned.len() ==> #[trigger] planned[i] == step_for(
                registry.packages.values()[i],
                platform@,
                present[i],
            ),
{
    proof {
        registry.packages.lemma_entries();
    }
    if present.len() != registry.packages.len() {
        return None;
    }
    let mut planned: Vec<PackageStep> = Vec::new();
    let mut index: usize = 0;
    while index < present.len()
        invariant
            index <= present.len(),
            present.len() == registry.packages.values().len(),
            present.len() == registry.packages.keys().len(),
            registry.packages.wf(),
            forall|i: int|
                0 <= i < registry.packages.values().len() ==> (
                #[trigger] registry.packages.values()[i]).platform.wf(),
            planned.len() == index,
            forall|i: int|
                0 <= i < index ==> present[i] || (
                #[trigger] registry.packages.values()[i]).platform@.contains_key(platform@),
            forall|i: int|
                0 <= i < index ==> #[trigger] planned[i] == step_for(
                    registry.packages.values()[i],
                    platform@,
                    present[i],
                ),
        decreases present.len() - index,
    {
        let package = registry.packages.value_at(index);
        match try_plan_package(package, platform, present[index]) {
            Some(step) => {
                planned.push(step);
            },
            None => {
                return None;
            },
        }
        index = index + 1;
    }
    Some(planned)
}

} // verus!
