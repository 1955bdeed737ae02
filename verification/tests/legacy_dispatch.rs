// The older interfaces: specializations given by `#[specialize(..)]`
// attributes or by `"target" => function` lists, and `target_clones` with
// bracketed target strings. A call runs the specialization that the library
// selects for a model x86-64 machine with AVX but without AVX2.

use multiversion::legacy::{
    default_version_cfg, defaulted_arches, parse_target_string, select_specialization, uses_fn_pointer, Architecture,
    Target,
};
use multiversion::dispatch::FnShape;
use multiversion::options::{parse_options, OptionsError};
use multiversion::specialize::{
    default_version_name, parse_fn_attrs, plan_specializations, resolve_specialized, read_static_dispatch, specialized_version, AttrItem, AttrLit, FnAttr,
    SpecError, SpecErrorKind, SpecVersion, Specialization, VersionBody,
};

fn detected() -> Vec<String> {
    ["sse", "sse2", "sse3", "ssse3", "sse4.1", "sse4.2", "avx", "xsave"].iter().map(|s| s.to_string()).collect()
}

fn nv(key: &str, value: AttrLit) -> AttrItem {
    AttrItem::NameValue { key: Some(key.to_string()), value }
}

fn s(v: &str) -> AttrLit {
    AttrLit::Str(v.to_string())
}

fn specialize_attr(items: Vec<AttrItem>) -> FnAttr {
    FnAttr::List { name: "specialize".to_string(), items }
}

/// Targets of the specializations, each expanded to its architectures, with
/// the index of the specialization each came from.
fn expand(target_strings: &[String]) -> (Vec<Target>, Vec<usize>) {
    let mut targets = Vec::new();
    let mut origin = Vec::new();
    for (i, t) in target_strings.iter().enumerate() {
        let parsed = parse_target_string(t).unwrap();
        for p in parsed {
            targets.push(p);
            origin.push(i);
        }
    }
    (targets, origin)
}

/// The versions that a bare `#[multiversion]` attribute with the given
/// `#[specialize(..)]` attributes plans for function `ident`.
fn plan(ident: &str, attrs: &Vec<FnAttr>) -> Vec<SpecVersion> {
    let config = parse_options(false, true, &vec![]).unwrap();
    assert!(config.targets.is_empty());
    let f = parse_fn_attrs(attrs).unwrap();
    plan_specializations(ident, &f.specializations).unwrap()
}

/// What a call of the planned function runs on the model machine: the name of
/// the function that the chosen version calls, or `None` for the function's
/// own body.
fn chosen_call(versions: &[SpecVersion]) -> Option<String> {
    match specialized_version(versions, Architecture::X86_64, &detected()) {
        None => None,
        Some(i) => match &versions[i].body {
            VersionBody::Call { func, .. } => Some(func.clone()),
            VersionBody::Clone => None,
        },
    }
}

/// Runs the function that the specialized function `ident` calls on the model
/// machine, or its own body.
fn call_specialized(
    ident: &str,
    attrs: &Vec<FnAttr>,
    functions: &[(&str, fn(i64) -> i64)],
    fallback: fn(i64) -> i64,
    a: i64,
) -> i64 {
    let versions = plan(ident, attrs);
    match chosen_call(&versions) {
        None => fallback(a),
        Some(name) => {
            let g = functions.iter().find(|(n, _)| *n == name).unwrap().1;
            g(a)
        }
    }
}

fn test_fn_unsafe(a: i64) -> i64 {
    println!("avx2");
    a
}

fn test_fn_safe(a: i64) -> i64 {
    println!("avx");
    a
}

fn fallback(a: i64) -> i64 {
    println!("fallback");
    a
}

fn attrs(with_unsafe: bool) -> Vec<FnAttr> {
    let mut first = vec![nv("target", s("x86_64+avx2")), nv("fn", s("test_fn_unsafe"))];
    if with_unsafe {
        first.push(nv("unsafe", AttrLit::Bool(true)));
    }
    vec![specialize_attr(first), specialize_attr(vec![nv("target", s("x86_64")), nv("fn", s("test_fn_safe"))])]
}

const FUNCTIONS: [(&str, fn(i64) -> i64); 2] = [("test_fn_unsafe", test_fn_unsafe), ("test_fn_safe", test_fn_safe)];

#[test]
fn specialize() {
    assert_eq!(call_specialized("pub_test_fn", &attrs(true), &FUNCTIONS, fallback, 123), 123);
    assert_eq!(call_specialized("priv_test_fn", &attrs(true), &FUNCTIONS, fallback, 123), 123);
    assert_eq!(call_specialized("pub_test_unsafe_fn", &attrs(false), &FUNCTIONS, fallback, 123), 123);
    assert_eq!(call_specialized("priv_test_unsafe_fn", &attrs(false), &FUNCTIONS, fallback, 123), 123);
}

struct Foo;

impl Foo {
    fn test_fn_unsafe(&self, a: i64) -> i64 {
        println!("avx2");
        a
    }

    fn test_fn_safe(&self, a: i64) -> i64 {
        println!("avx");
        a
    }

    fn fallback(&self, a: i64) -> i64 {
        println!("fallback");
        a
    }

    fn call(&self, ident: &str, attrs: &Vec<FnAttr>, a: i64) -> i64 {
        let versions = plan(ident, attrs);
        match chosen_call(&versions).as_deref() {
            None => self.fallback(a),
            Some("test_fn_unsafe") => self.test_fn_unsafe(a),
            Some("test_fn_safe") => self.test_fn_safe(a),
            Some(other) => panic!("unknown function {}", other),
        }
    }
}

#[test]
fn associated_specialize() {
    let foo = Foo;
    assert_eq!(foo.call("pub_test_fn", &attrs(true), 123), 123);
    assert_eq!(foo.call("priv_test_fn", &attrs(true), 123), 123);
    assert_eq!(foo.call("pub_test_unsafe_fn", &attrs(false), 123), 123);
    assert_eq!(foo.call("priv_test_unsafe_fn", &attrs(false), 123), 123);
}

#[test]
fn specialize_attributes_are_read_in_order() {
    let mut all = attrs(true);
    all.insert(0, FnAttr::Other);
    all.push(FnAttr::List { name: "inline".to_string(), items: vec![] });
    all.push(FnAttr::List {
        name: "clone".to_string(),
        items: vec![nv("target", s("[x86|x86_64]+avx")), nv("fn", s("foo_avx"))],
    });
    let f = parse_fn_attrs(&all).unwrap();
    assert_eq!(f.kept, vec![0, 3]);
    assert_eq!(f.specializations.len(), 3);
    match &f.specializations[0] {
        Specialization::Override { target, func, is_unsafe } => {
            assert_eq!(target, "x86_64+avx2");
            assert_eq!(func, "test_fn_unsafe");
            assert!(*is_unsafe);
        }
        other => panic!("unexpected {:?}", other),
    }
    match &f.specializations[1] {
        Specialization::Override { is_unsafe, .. } => assert!(!*is_unsafe),
        other => panic!("unexpected {:?}", other),
    }
    match &f.specializations[2] {
        Specialization::Clone { target, func } => {
            assert_eq!(target, "[x86|x86_64]+avx");
            assert_eq!(func.as_deref(), Some("foo_avx"));
        }
        other => panic!("unexpected {:?}", other),
    }
}

fn error_of(items: Vec<AttrItem>, name: &str) -> SpecError {
    let attrs = vec![FnAttr::Other, FnAttr::List { name: name.to_string(), items }];
    parse_fn_attrs(&attrs).unwrap_err()
}

#[test]
fn specialize_attribute_errors() {
    let e = error_of(vec![nv("fn", s("f"))], "specialize");
    assert_eq!(e, SpecError { attr: 1, kind: SpecErrorKind::ExpectedTargetKey });
    let e = error_of(vec![nv("target", s("x86_64"))], "specialize");
    assert_eq!(e.kind, SpecErrorKind::ExpectedFnKey);
    let e = error_of(vec![nv("target", s("x86_64")), nv("target", s("x86"))], "clone");
    assert_eq!(e.kind, SpecErrorKind::KeyAlreadyProvided);
    let e = error_of(vec![nv("target", s("x86_64")), nv("unsafe", AttrLit::Bool(true))], "clone");
    assert_eq!(e.kind, SpecErrorKind::UnexpectedKey);
    let e = error_of(vec![AttrItem::Lit], "clone");
    assert_eq!(e.kind, SpecErrorKind::UnexpectedLiteral);
    let e = error_of(vec![AttrItem::Other], "clone");
    assert_eq!(e.kind, SpecErrorKind::ExpectedNameValue);
    let e = error_of(vec![AttrItem::NameValue { key: None, value: s("x") }], "clone");
    assert_eq!(e.kind, SpecErrorKind::UnexpectedKey);
    let e = error_of(vec![nv("target", AttrLit::Other)], "clone");
    assert_eq!(e.kind, SpecErrorKind::ExpectedString);
    let e = error_of(vec![nv("target", s("x86_64")), nv("fn", AttrLit::Bool(false))], "specialize");
    assert_eq!(e.kind, SpecErrorKind::ExpectedString);
    let e = error_of(vec![nv("target", s("x86_64")), nv("fn", s("f")), nv("unsafe", s("yes"))], "specialize");
    assert_eq!(e.kind, SpecErrorKind::ExpectedBool);
}

/// `"target" => function` pairs, first match wins, else the fallback.
fn call_pairs(pairs: &[(&str, fn(i64) -> i64)], fallback: fn(i64) -> i64, a: i64) -> i64 {
    let strings: Vec<String> = pairs.iter().map(|(t, _)| t.to_string()).collect();
    let (targets, origin) = expand(&strings);
    match select_specialization(&targets, Architecture::X86_64, &detected()) {
        Some(i) => pairs[origin[i]].1(a),
        None => fallback(a),
    }
}

#[test]
fn call_test() {
    let pairs: [(&str, fn(i64) -> i64); 2] = [("x86_64+avx2", test_fn_unsafe), ("x86_64", test_fn_safe)];
    assert_eq!(call_pairs(&pairs, fallback, 123), 123);
    assert_eq!(call_pairs(&pairs, fallback, 123), 123);
    assert_eq!(call_pairs(&pairs, fallback, 123), 123);
    assert_eq!(call_pairs(&pairs, fallback, 123), 123);
}

fn add(a: &mut [f32], b: &[f32]) {
    a.iter_mut().zip(b.iter()).for_each(|(a, b)| *a = *a + b);
}

#[test]
fn target_clones_test_add() {
    let strings: Vec<String> =
        ["[x86|x86_64]+avx", "[x86|x86_64]+sse", "[arm|aarch64]+neon"].iter().map(|s| s.to_string()).collect();
    let (targets, origin) = expand(&strings);
    assert_eq!(targets.len(), 6);
    let selected = select_specialization(&targets, Architecture::X86_64, &detected());
    assert_eq!(selected.map(|i| origin[i]), Some(0));
    let mut a = vec![0f32, 2f32, 4f32];
    let b = vec![1f32, 1f32, 1f32];
    add(&mut a, &b);
    assert_eq!(a, vec![1f32, 3f32, 5f32]);
}

fn mul(x: f32, y: f32) -> f32 {
    x * y
}

#[test]
fn test_mul() {
    let strings: Vec<String> = ["[x86|x86_64]+avx", "x86+sse"].iter().map(|s| s.to_string()).collect();
    let (targets, _) = expand(&strings);
    // `square` and the `mul` it uses through static dispatch have the same
    // targets, so the version of `mul` is the one of the same index.
    let square_version = select_specialization(&targets, Architecture::X86_64, &detected());
    let mul_version = select_specialization(&targets, Architecture::X86_64, &detected());
    assert_eq!(square_version, mul_version);
    let mut x = vec![0f32, 1f32, 2f32, 3f32];
    for v in x.iter_mut() {
        *v = mul(*v, *v);
    }
    assert_eq!(x, vec![0f32, 1f32, 4f32, 9f32]);
}

#[test]
fn static_dispatch_attribute() {
    let (f, rename) = read_static_dispatch(&vec![nv("fn", s("foo::mul"))]).unwrap();
    assert_eq!(f, "foo::mul");
    assert_eq!(rename, None);
    let (f, rename) = read_static_dispatch(&vec![nv("rename", s("m")), nv("fn", s("mul"))]).unwrap();
    assert_eq!(f, "mul");
    assert_eq!(rename.as_deref(), Some("m"));
    assert_eq!(read_static_dispatch(&vec![nv("rename", s("m"))]).unwrap_err(), SpecErrorKind::ExpectedFnKey);
    assert_eq!(read_static_dispatch(&vec![nv("target", s("x86"))]).unwrap_err(), SpecErrorKind::UnexpectedKey);
    assert_eq!(
        read_static_dispatch(&vec![nv("fn", s("a")), nv("fn", s("b"))]).unwrap_err(),
        SpecErrorKind::KeyAlreadyProvided
    );
    assert_eq!(
        read_static_dispatch(&vec![nv("fn", s("a")), nv("rename", AttrLit::Bool(true))]).unwrap_err(),
        SpecErrorKind::ExpectedString
    );
}

#[test]
fn default_version_is_left_out_where_a_target_has_no_features() {
    let mut targets = parse_target_string("x86_64+avx2").unwrap();
    targets.extend(parse_target_string("[arm|x86_64]").unwrap());
    assert_eq!(defaulted_arches(&targets), vec![Architecture::Arm, Architecture::X86_64]);
    assert_eq!(
        default_version_cfg(&targets),
        "#[cfg(not(any(target_arch = \"arm\", target_arch = \"x86_64\")))]"
    );
    let featured = parse_target_string("x86+sse").unwrap();
    assert_eq!(default_version_cfg(&featured), "#[cfg(not(any()))]");
}

#[test]
fn specialized_versions_are_planned_by_name() {
    let versions = plan("pub_test_fn", &attrs(true));
    assert_eq!(versions.len(), 2);
    assert_eq!(versions[0].name, "__multiversion_pub_test_fn_feature_avx2");
    assert_eq!(versions[1].name, "__multiversion_pub_test_fn_default");
    assert!(matches!(&versions[0].body, VersionBody::Call { func, is_unsafe: true } if func == "test_fn_unsafe"));
    assert!(matches!(&versions[1].body, VersionBody::Call { func, is_unsafe: false } if func == "test_fn_safe"));
    // AVX2 is not detected on the model machine, so the plain x86-64 version runs.
    assert_eq!(specialized_version(&versions, Architecture::X86_64, &detected()), Some(1));
    let mut with_avx2 = detected();
    with_avx2.push("avx2".to_string());
    assert_eq!(specialized_version(&versions, Architecture::X86_64, &with_avx2), Some(0));
    // On another architecture the function's own body runs.
    assert_eq!(specialized_version(&versions, Architecture::Arm, &detected()), None);
    // A bare attribute without specializations still needs targets.
    assert!(matches!(parse_options(false, false, &vec![]), Err(OptionsError::ExpectedTargets)));
}

#[test]
fn specialized_raw_identifier_names() {
    let versions = plan("r#type", &attrs(true));
    assert_eq!(versions[0].name, "__multiversion_type_feature_avx2");
    assert_eq!(default_version_name("r#type"), "__multiversion_type_default");
    assert_eq!(default_version_name("pub_test_fn"), versions_default_name("pub_test_fn"));
    let clone_attr = vec![FnAttr::List {
        name: "clone".to_string(),
        items: vec![nv("target", s("[x86|x86_64]+avx"))],
    }];
    let versions = plan("add", &clone_attr);
    assert_eq!(versions.len(), 2);
    assert!(versions.iter().all(|v| matches!(v.body, VersionBody::Clone)));
    assert_eq!(chosen_call(&versions), None);
}

fn versions_default_name(ident: &str) -> String {
    plan(ident, &attrs(true))[1].name.clone()
}

fn double_f32(x: &mut [f32]) -> &mut f32 {
    assert!(!x.is_empty());
    for v in x.iter_mut() {
        *v += *v;
    }
    &mut x[0]
}

fn double_f64(x: &mut [f64]) -> &mut f64 {
    assert!(!x.is_empty());
    for v in x.iter_mut() {
        *v += *v;
    }
    &mut x[0]
}

#[test]
fn generics_generics() {
    // `target_clones("[x86|x86_64]+avx2+avx", "[x86|x86_64]+avx", "x86+sse")`
    // on a generic function: the clone for AVX runs on the model machine.
    let strings: Vec<String> =
        ["[x86|x86_64]+avx2+avx", "[x86|x86_64]+avx", "x86+sse"].iter().map(|s| s.to_string()).collect();
    let (targets, origin) = expand(&strings);
    assert_eq!(targets.len(), 5);
    let selected = select_specialization(&targets, Architecture::X86_64, &detected());
    assert_eq!(selected.map(|i| origin[i]), Some(1));
    let mut x = vec![0f32, 2f32, 4f32];
    let mut y = vec![0f64, 2f64, 4f64];
    *double_f32(&mut x) = 1.0;
    *double_f64(&mut y) = 2.0;
    assert_eq!(x, vec![1f32, 4f32, 8f32]);
    assert_eq!(y, vec![2f64, 4f64, 8f64]);
}

#[test]
fn specialized_choice_is_kept() {
    let versions = plan("pub_test_fn", &attrs(true));
    let (cache, first) = resolve_specialized(&versions, Architecture::X86_64, &detected());
    assert_eq!(first, Some(1));
    assert_eq!(cache, multiversion::cache::DispatchCache::Resolved(Some(1)));
    // A later call runs the kept version without detecting, though AVX2
    // would now be found.
    assert_eq!(multiversion::cache::call_step(cache), multiversion::cache::CallStep::Run(Some(1)));
    let mut with_avx2 = detected();
    with_avx2.push("avx2".to_string());
    assert_eq!(resolve_specialized(&versions, Architecture::X86_64, &with_avx2).1, Some(0));
    // Plain functions use the pointer path; generic and associated ones branch.
    let plain = FnShape { has_type_params: false, is_async: false, has_impl_trait: false };
    let generic = FnShape { has_type_params: true, ..plain };
    assert!(uses_fn_pointer(true, plain, false));
    assert!(!uses_fn_pointer(true, plain, true));
    assert!(!uses_fn_pointer(true, generic, false));
    assert!(!uses_fn_pointer(false, plain, false));
}
