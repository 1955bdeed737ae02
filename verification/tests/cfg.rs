// Inside each version of a function multiversioned over the "simd" targets,
// `target_cfg` predicates are rewritten so that the version's features
// count as enabled, and `match_target!` picks the first arm that holds. The
// predicates are evaluated here the way the compiler evaluates `cfg` for a
// model x86-64 build with the baseline features.

use multiversion::cfg::{transform, CfgError, CfgMeta, CfgValue};
use multiversion::match_target::{parse_arms, select_arm, Arm, ArmPattern, MatchError, MatchOutcome, OrCase};
use multiversion::options::simd_preset;
use multiversion::target::Target;

const ARCH: &str = "x86_64";

fn enabled() -> Vec<String> {
    vec!["fxsr".to_string(), "sse".to_string(), "sse2".to_string()]
}

fn nv(path: &str, value: &str) -> CfgMeta {
    CfgMeta::NameValue { path: path.to_string(), value: CfgValue::Str(value.to_string()) }
}

fn list(path: &str, args: Vec<CfgMeta>) -> CfgMeta {
    CfgMeta::List { path: path.to_string(), parsed: true, args }
}

/// `all(target_arch = "x86_64", target_feature = "avx")`.
fn x86_64_avx() -> CfgMeta {
    list("all", vec![nv("target_arch", "x86_64"), nv("target_feature", "avx")])
}

/// How the compiler evaluates a predicate for the model build.
fn eval(m: &CfgMeta) -> bool {
    match m {
        CfgMeta::Path(_) => false,
        CfgMeta::NameValue { path, value: CfgValue::Str(v) } => {
            if path == "target_arch" {
                v == ARCH
            } else if path == "target_feature" {
                enabled().contains(v)
            } else {
                false
            }
        }
        CfgMeta::NameValue { .. } => false,
        CfgMeta::List { path, args, .. } => match path.as_str() {
            "all" => args.iter().all(eval),
            "any" => args.iter().any(eval),
            "not" => !eval(&args[0]),
            _ => false,
        },
    }
}

/// The features argument that a version passes to the rewriting.
fn features_arg(t: Option<&Target>) -> CfgMeta {
    nv("features", &t.map(|t| t.features_list_string()).unwrap_or_default())
}

/// `target_cfg_f!(predicate)` inside the version for `t`.
fn target_cfg_f(t: Option<&Target>, predicate: &CfgMeta) -> bool {
    eval(&transform(&features_arg(t), predicate).unwrap())
}

/// Every version of a function multiversioned over "simd" that an x86-64
/// build compiles, and the default one.
fn versions() -> Vec<Option<Target>> {
    let mut v: Vec<Option<Target>> =
        simd_preset().unwrap().into_iter().filter(|t| t.arch() == ARCH).map(Some).collect();
    v.push(None);
    v
}

fn has_avx(t: Option<&Target>) -> bool {
    t.map_or(false, |t| t.arch() == "x86_64" && t.features().iter().any(|f| f == "avx"))
}

#[test]
fn cfg() {
    for t in versions() {
        let t = t.as_ref();
        let has_avx = target_cfg_f(t, &x86_64_avx());
        let with = target_cfg_f(t, &x86_64_avx());
        let without = target_cfg_f(t, &list("not", vec![x86_64_avx()]));
        // Exactly one of the two `test_avx` functions is compiled.
        assert!(with != without);
        if with {
            assert!(has_avx);
        }
        if without {
            assert!(!has_avx);
        }
        assert_eq!(has_avx, self::has_avx(t));
    }
}

#[test]
fn cfg_attr() {
    for t in versions() {
        let t = t.as_ref();
        let has_avx = target_cfg_f(t, &x86_64_avx());
        // The first `test_avx` keeps `cfg(all())` where the predicate holds,
        // the second where it does not.
        let first_kept = target_cfg_f(t, &x86_64_avx());
        let second_kept = target_cfg_f(t, &list("not", vec![x86_64_avx()]));
        assert!(first_kept != second_kept);
        if first_kept {
            assert!(has_avx);
        } else {
            assert!(!has_avx);
        }
    }
}

fn lit(s: &str) -> ArmPattern {
    ArmPattern::Lit(Some(s.to_string()))
}

fn arm(pattern: ArmPattern) -> Arm {
    Arm { has_attrs: false, has_guard: false, pattern }
}

/// `match_target!` inside the version for `t`: `Some(arm)` of the chosen arm.
fn match_target_in(t: Option<&Target>, arms: &Vec<Arm>) -> MatchOutcome {
    let parsed = parse_arms(arms).unwrap();
    let selected = t.map(|t| t.features_list_string()).unwrap_or_default();
    select_arm(&parsed, &selected, ARCH, &enabled())
}

#[test]
fn cfg_f() {
    let arms = vec![arm(lit("x86_64+avx")), arm(ArmPattern::Wild)];
    for t in versions() {
        let t = t.as_ref();
        let cfg_avx = target_cfg_f(t, &x86_64_avx());
        let match_avx = match match_target_in(t, &arms) {
            MatchOutcome::Arm(0) => true,
            MatchOutcome::Arm(_) => false,
            MatchOutcome::NoMatch => panic!("no matching target"),
        };
        assert_eq!(cfg_avx, match_avx);
        assert!(!cfg_avx || t.map_or(false, |t| t.features().iter().any(|f| f == "avx")));
    }
}

#[test]
fn match_target() {
    let arms = vec![
        arm(lit("x86_64+avx")),
        arm(ArmPattern::Or(vec![
            OrCase::Lit(Some("aarch64+neon".to_string())),
            OrCase::Lit(Some("x86_64+sse".to_string())),
        ])),
        arm(ArmPattern::Wild),
    ];
    for t in versions() {
        let t = t.as_ref();
        let match_avx = match match_target_in(t, &arms) {
            MatchOutcome::Arm(0) => true,
            MatchOutcome::Arm(1) => false,
            MatchOutcome::Arm(_) => false,
            MatchOutcome::NoMatch => panic!("no matching target"),
        };
        let has_avx = target_cfg_f(t, &x86_64_avx());
        assert_eq!(match_avx, has_avx);
    }
}

#[test]
fn match_target_takes_first_arm_that_holds() {
    let arms = vec![
        arm(lit("x86_64+avx")),
        arm(ArmPattern::Or(vec![
            OrCase::Lit(Some("aarch64+neon".to_string())),
            OrCase::Lit(Some("x86_64+sse".to_string())),
        ])),
    ];
    let sse2 = Target::parse("x86_64+sse2").unwrap();
    // The baseline build has SSE, so the second arm holds without a version.
    assert_eq!(match_target_in(None, &arms), MatchOutcome::Arm(1));
    assert_eq!(match_target_in(Some(&sse2), &arms), MatchOutcome::Arm(1));
    let avx = Target::parse("x86_64+avx").unwrap();
    assert_eq!(match_target_in(Some(&avx), &arms), MatchOutcome::Arm(0));
    let only_avx = vec![arm(lit("x86_64+avx"))];
    assert_eq!(match_target_in(None, &only_avx), MatchOutcome::NoMatch);
}

#[test]
fn match_target_errors() {
    let with_attr = vec![Arm { has_attrs: true, has_guard: false, pattern: ArmPattern::Wild }];
    assert!(matches!(parse_arms(&with_attr), Err(MatchError::UnexpectedAttribute)));
    let with_guard = vec![Arm { has_attrs: false, has_guard: true, pattern: ArmPattern::Wild }];
    assert!(matches!(parse_arms(&with_guard), Err(MatchError::UnexpectedGuard)));
    let after_wild = vec![arm(ArmPattern::Wild), arm(lit("x86_64+avx"))];
    assert!(matches!(parse_arms(&after_wild), Err(MatchError::UnreachableTargets)));
    let not_lit = vec![arm(ArmPattern::Other)];
    assert!(matches!(parse_arms(&not_lit), Err(MatchError::ExpectedStringLiteral)));
    let not_str = vec![arm(ArmPattern::Lit(None))];
    assert!(matches!(parse_arms(&not_str), Err(MatchError::ExpectedStringLiteral)));
    let or_not_lit = vec![arm(ArmPattern::Or(vec![OrCase::NotLit]))];
    assert!(matches!(parse_arms(&or_not_lit), Err(MatchError::ExpectedStringLiteral)));
    let bad = vec![arm(lit("x86_64+nonsense"))];
    assert!(matches!(parse_arms(&bad), Err(MatchError::BadTarget(_))));
}

#[test]
fn transform_replaces_selected_features() {
    let features = nv("features", "avx,sse");
    let predicate = list("any", vec![nv("target_feature", "avx"), nv("target_feature", "avx2"), nv("unix", "x")]);
    let out = transform(&features, &predicate).unwrap();
    match out {
        CfgMeta::List { path, args, .. } => {
            assert_eq!(path, "any");
            assert_eq!(args.len(), 3);
            assert!(matches!(&args[0], CfgMeta::List { path, args, .. } if path == "all" && args.is_empty()));
            assert!(matches!(&args[1], CfgMeta::NameValue { path, .. } if path == "target_feature"));
            assert!(matches!(&args[2], CfgMeta::NameValue { path, .. } if path == "unix"));
        }
        other => panic!("unexpected {:?}", other),
    }
}

#[test]
fn transform_errors() {
    let unparsed = CfgMeta::List { path: "all".to_string(), parsed: false, args: vec![] };
    assert_eq!(transform(&nv("features", "avx"), &unparsed).unwrap_err(), CfgError::UnparsedArguments);
    let nested = list("not", vec![unparsed]);
    assert_eq!(transform(&nv("features", "avx"), &nested).unwrap_err(), CfgError::UnparsedArguments);
    let path = CfgMeta::Path("features".to_string());
    assert_eq!(transform(&path, &x86_64_avx()).unwrap_err(), CfgError::ExpectedNameValue);
}
