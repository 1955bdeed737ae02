//! The database of target features and CPUs of the `target-features` crate,
//! and its targets, which collect features.
use vstd::prelude::*;
use crate::text::views;
use target_features::Target as FeatureTarget;

verus! {

/// A target of the `target-features` crate: an architecture with the set of
/// features it holds.
#[verifier::external_type_specification]
#[verifier::external_body]
pub struct ExFeatureTarget(FeatureTarget);

/// The names of the features that a `target_features::Target` holds.
pub uninterp spec fn held_features(t: FeatureTarget) -> Set<Seq<char>>;

/// The architecture family of a `target_features::Target`: `arch_family` of
/// the name it was made for.
pub uninterp spec fn made_for(t: FeatureTarget) -> Seq<char>;

/// The architecture that `Architecture::from_str` gives for a name, written as
/// the family's first name: the 32- and 64-bit names of one family share their
/// database entries, and every name it does not know gives the empty name
/// (`Architecture::Unsupported`).
pub open spec fn arch_family(name: Seq<char>) -> Seq<char> {
    if name == "arm"@ || name == "aarch64"@ || name == "bpf"@ || name == "hexagon"@ {
        name
    } else if name == "mips"@ || name == "mips64"@ {
        "mips"@
    } else if name == "powerpc"@ || name == "powerpc64"@ {
        "powerpc"@
    } else if name == "riscv32"@ || name == "riscv64"@ {
        "riscv32"@
    } else if name == "wasm32"@ || name == "wasm64"@ {
        "wasm32"@
    } else if name == "x86"@ || name == "x86_64"@ {
        "x86"@
    } else {
        Seq::empty()
    }
}

/// Every name of `names` is a non-empty name without a plus sign that the
/// database knows for `arch`, whose entry lists it first and names only
/// members of `names`: a set of features closed under implication.
pub open spec fn closed_in(arch: Seq<char>, names: Set<Seq<char>>) -> bool {
    forall|g: Seq<char>|
        #[trigger] names.contains(g) ==> g.len() > 0 && !g.contains('+') && match feature_implications(arch, g) {
            None => false,
            Some(w) => w.len() > 0 && w[0] == g && w.to_set().subset_of(names),
        }
}

/// What `target_features::Target::from_cpu` yields for an architecture name and
/// a CPU name: the names of the features of the target it makes, or `None`
/// where the database knows no such CPU for the architecture.
pub uninterp spec fn cpu_feature_names(arch: Seq<char>, cpu: Seq<char>) -> Option<Seq<Seq<char>>>;

/// What `target_features::Feature::new` yields for an architecture name and a
/// feature name: the feature's own name followed by the names of the features
/// it implies, or `None` where the database knows no such feature.
pub uninterp spec fn feature_implications(arch: Seq<char>, feature: Seq<char>) -> Option<
    Seq<Seq<char>>,
>;

/// `target_features::Target::new` on the architecture that
/// `Architecture::from_str` gives for `arch`: a target that holds no feature.
#[verifier::external_body]
pub fn empty_target(arch: &str) -> (r: FeatureTarget)
    ensures
        held_features(r) == Set::<Seq<char>>::empty(),
        made_for(r) == arch_family(arch@),
{
    FeatureTarget::new(target_features::Architecture::from_str(arch))
}

/// `target_features::Target::from_cpu` on the architecture that
/// `Architecture::from_str` gives for `arch`: the CPU's target, which holds
/// the features that `cpu_feature_names` names, or `None` for an unknown CPU.
/// Which names those are is only named; that the set is closed under
/// implication holds of the crate's generated tables, where each CPU row and
/// each `implies` list names features of the row's own architecture, every
/// name once per architecture, and `implies` lists are transitively closed.
#[verifier::external_body]
pub fn cpu_target(arch: &str, cpu: &str) -> (r: Option<FeatureTarget>)
    ensures
        match r {
            Some(t) => {
                &&& cpu_feature_names(arch@, cpu@) is Some
                &&& held_features(t) == cpu_feature_names(arch@, cpu@)->Some_0.to_set()
                &&& made_for(t) == arch_family(arch@)
                &&& closed_in(arch@, held_features(t))
            },
            None => cpu_feature_names(arch@, cpu@) is None,
        },
{
    FeatureTarget::from_cpu(target_features::Architecture::from_str(arch), cpu).ok()
}

/// `target_features::Target::with_feature_str`: the target with the named
/// feature and every feature it implies added. `arch` is a name of the
/// target's family, by which the feature is looked up as `with_feature_str`
/// looks it up in the target's own architecture; the call does not read it.
/// It panics on a feature that the architecture does not know, which
/// `requires` leaves out.
#[verifier::external_body]
pub fn add_feature(t: FeatureTarget, arch: &str, feature: &str) -> (r: FeatureTarget)
    requires
        arch_family(arch@) == made_for(t),
        feature_implications(arch@, feature@) is Some,
    ensures
        made_for(r) == made_for(t),
        held_features(r) == held_features(t) + feature_implications(arch@, feature@)->Some_0.to_set(),
{
    let _ = arch;
    t.with_feature_str(feature)
}

/// `target_features::Target::features`, each feature by its name: the names
/// of the features the target holds. The crate lists them in the order of its
/// database, which is left unsaid.
#[verifier::external_body]
pub fn feature_names(t: &FeatureTarget) -> (r: Vec<String>)
    ensures
        views(r@).to_set() == held_features(*t),
{
    t.features().map(|f| f.name().to_string()).collect()
}

/// Looks a feature up with `target_features::Feature::new` and lists its name
/// followed by the names in its `implies()` list. The source of `Feature::new`
/// returns only a feature whose name equals the name asked for, which the
/// contract states; the rest of the result is only named, but for what the
/// crate's generated tables show of every entry: its names are non-empty
/// without a plus sign, and each implied feature's own entry names only
/// features of this list (the `implies` lists are transitively closed).
#[verifier::external_body]
pub fn feature_closure(arch: &str, feature: &str) -> (r: Option<Vec<String>>)
    ensures
        match r {
            Some(v) => {
                &&& feature_implications(arch@, feature@) == Some(views(v@))
                &&& v@.len() >= 1
                &&& v@[0]@ == feature@
                &&& closed_in(arch@, views(v@).to_set())
            },
            None => feature_implications(arch@, feature@) is None,
        },
{
    match target_features::Feature::new(target_features::Architecture::from_str(arch), feature) {
        Ok(f) => {
            let mut names = vec![f.name().to_string()];
            names.extend(f.implies().iter().map(|g| g.name().to_string()));
            Some(names)
        },
        Err(_) => None,
    }
}

} // verus!
