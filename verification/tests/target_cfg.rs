use multiversion::options::OptionsError;
use multiversion::simd::{simd_targets, Toolchain};
use multiversion::target::{Target, TargetError};
use multiversion::target_cfg::{replace_target_cfg, target_cfg_value, TargetCfgError, TargetPred};

fn target(s: &str) -> TargetPred {
    TargetPred::Target(Some(s.to_string()))
}

fn list(name: &str, args: Vec<TargetPred>) -> TargetPred {
    TargetPred::List { name: Some(name.to_string()), args }
}

#[test]
fn target_predicates() {
    let avx = Target::parse("x86_64+avx").unwrap();
    let sel = Some(&avx);
    assert!(target_cfg_value(&target("x86_64+avx"), sel).unwrap());
    // The same feature set written differently names the same target.
    assert!(target_cfg_value(&target("x86_64+sse+avx"), sel).unwrap());
    assert!(!target_cfg_value(&target("x86_64+avx2"), sel).unwrap());
    assert!(!target_cfg_value(&target("x86+avx"), sel).unwrap());
    assert!(!target_cfg_value(&target("x86_64+avx"), None).unwrap());
    assert!(target_cfg_value(&list("not", vec![target("x86_64+avx2")]), sel).unwrap());
    assert!(target_cfg_value(&list("any", vec![target("x86_64+avx2"), target("x86_64+avx")]), sel).unwrap());
    assert!(!target_cfg_value(&list("all", vec![target("x86_64+avx2"), target("x86_64+avx")]), sel).unwrap());
    assert!(target_cfg_value(&list("all", vec![]), sel).unwrap());
    assert!(!target_cfg_value(&list("any", vec![]), sel).unwrap());
}

#[test]
fn target_predicate_errors() {
    let avx = Target::parse("x86_64+avx").unwrap();
    let sel = Some(&avx);
    assert!(matches!(target_cfg_value(&TargetPred::Path, sel), Err(TargetCfgError::UnexpectedPath)));
    assert!(matches!(target_cfg_value(&TargetPred::Lit, sel), Err(TargetCfgError::UnexpectedLiteral)));
    assert!(matches!(target_cfg_value(&TargetPred::OtherKey, sel), Err(TargetCfgError::UnknownKey)));
    assert!(matches!(target_cfg_value(&TargetPred::Target(None), sel), Err(TargetCfgError::ExpectedStringLiteral)));
    assert!(matches!(
        target_cfg_value(&target("x86_64+bogus"), sel),
        Err(TargetCfgError::BadTarget(TargetError::UnknownFeature(_)))
    ));
    assert!(matches!(
        target_cfg_value(&list("not", vec![]), sel),
        Err(TargetCfgError::ExpectedSinglePredicate)
    ));
    assert!(matches!(target_cfg_value(&list("maybe", vec![]), sel), Err(TargetCfgError::ExpectedNotAnyAll)));
    let unnamed = TargetPred::List { name: None, args: vec![] };
    assert!(matches!(target_cfg_value(&unnamed, sel), Err(TargetCfgError::ExpectedNotAnyAll)));
    // `any` stops at the first predicate that holds: what follows is not read.
    assert!(target_cfg_value(&list("any", vec![target("x86_64+avx"), TargetPred::Path]), sel).unwrap());
    assert!(matches!(
        target_cfg_value(&list("any", vec![target("x86_64+avx2"), TargetPred::Path]), sel),
        Err(TargetCfgError::UnexpectedPath)
    ));
    assert!(!target_cfg_value(&list("all", vec![target("x86_64+avx2"), TargetPred::Lit]), sel).unwrap());
}

#[test]
fn target_cfg_attribute_replacement() {
    let avx = Target::parse("x86_64+avx").unwrap();
    assert_eq!(replace_target_cfg(&vec![target("x86_64+avx")], Some(&avx)).unwrap(), "#[cfg(not(any()))]");
    assert_eq!(replace_target_cfg(&vec![target("x86_64+avx")], None).unwrap(), "#[cfg(any())]");
    assert!(matches!(replace_target_cfg(&vec![], None), Err(TargetCfgError::ExpectedSinglePredicate)));
    assert!(matches!(
        replace_target_cfg(&vec![target("x86_64"), target("x86")], None),
        Err(TargetCfgError::ExpectedSinglePredicate)
    ));
}

#[test]
fn simd_levels_for_a_stable_toolchain() {
    let old = Toolchain { since_1_89: false, since_1_93: false, nightly: false };
    let targets = simd_targets(old).unwrap();
    let arches: Vec<&str> = targets.iter().map(|t| t.arch()).collect();
    assert_eq!(arches, vec!["x86_64", "x86_64", "x86", "x86", "x86", "aarch64", "aarch64"]);
    assert!(targets[0].features().iter().any(|f| f == "avx2"));
    assert!(!targets[1].features().iter().any(|f| f == "avx"));
    assert!(targets[5].features().iter().any(|f| f == "sve2"));
}

#[test]
fn simd_levels_with_unknown_features_are_refused() {
    let new = Toolchain { since_1_89: true, since_1_93: false, nightly: false };
    match simd_targets(new) {
        Err(OptionsError::BadTarget(TargetError::UnknownFeature(f))) => assert_eq!(f, "lasx"),
        other => panic!("unexpected {:?}", other.map(|v| v.len())),
    }
}
