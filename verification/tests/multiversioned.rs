// Each multiversioned function of these tests is run the way its generated
// dispatcher runs it: the library reads the attribute's options, chooses the
// dispatcher and the version that a model machine calls, and names that
// version; the test looks the version up by name among the function's
// versions (which all share the function's body) and calls it.

use multiversion::dispatch::{
    choose_dispatcher, dedup_targets, dispatch_elided, dispatched_version, feature_fn_name, featured_targets,
    first_target_per_arch, fn_shape, DispatchError, DispatchMethod, Dispatcher, FnShape, TypeModel,
};
use multiversion::cache::{call_step, record_choice, CallStep, DispatchCache};
use multiversion::dispatch::resolve_dispatch;
use multiversion::features::{SimdElement, TargetFeatures};
use multiversion::options::{parse_options, Lit, MetaArg, MultiversionConfig, Nested, OptionEntry, OptionsError};
use multiversion::target::Target;

const PLAIN: FnShape = FnShape { has_type_params: false, is_async: false, has_impl_trait: false };
const GENERIC: FnShape = FnShape { has_type_params: true, is_async: false, has_impl_trait: false };
const ASYNC: FnShape = FnShape { has_type_params: false, is_async: true, has_impl_trait: false };
const IMPL_TRAIT: FnShape = FnShape { has_type_params: false, is_async: false, has_impl_trait: true };

/// A model machine: the architecture and features of the build, and the
/// features that run-time detection finds.
struct Machine {
    arch: &'static str,
    enabled: Vec<String>,
    detected: Vec<String>,
}

fn strings(v: &[&str]) -> Vec<String> {
    v.iter().map(|s| s.to_string()).collect()
}

/// An x86-64 build with the baseline features, run on a CPU with AVX.
fn x86_64_avx() -> Machine {
    Machine {
        arch: "x86_64",
        enabled: strings(&["fxsr", "sse", "sse2"]),
        detected: strings(&["fxsr", "sse", "sse2", "sse3", "ssse3", "sse4.1", "sse4.2", "popcnt", "avx", "xsave"]),
    }
}

/// An x86-64 build with the baseline features, run on a CPU with AVX2 and FMA.
fn x86_64_avx2() -> Machine {
    let mut m = x86_64_avx();
    m.detected.extend(strings(&["avx2", "fma", "bmi1", "bmi2", "lzcnt"]));
    m
}

/// An AArch64 build, which always has NEON.
fn aarch64() -> Machine {
    Machine { arch: "aarch64", enabled: strings(&["neon", "fp"]), detected: strings(&["neon", "fp"]) }
}

fn targets_entry(specs: &[&str]) -> OptionEntry {
    OptionEntry::Meta {
        key: Some("targets".to_string()),
        arg: MetaArg::List(specs.iter().map(|s| Nested::Lit(Lit::Str(s.to_string()))).collect()),
    }
}

fn simd_entry() -> OptionEntry {
    OptionEntry::Meta { key: Some("targets".to_string()), arg: MetaArg::NameValue(Lit::Str("simd".to_string())) }
}

fn dispatcher_entry(name: &str) -> OptionEntry {
    OptionEntry::Meta { key: Some("dispatcher".to_string()), arg: MetaArg::NameValue(Lit::Str(name.to_string())) }
}

fn config(entries: Vec<OptionEntry>) -> MultiversionConfig {
    match parse_options(false, false, &entries) {
        Ok(c) => c,
        Err(e) => panic!("options refused: {:?}", e),
    }
}

/// A multiversioned function as its attribute and signature describe it.
struct Multiversioned {
    ident: &'static str,
    targets: Vec<Target>,
    dispatcher: Dispatcher,
}

impl Multiversioned {
    fn new(ident: &'static str, entries: Vec<OptionEntry>, shape: FnShape) -> Self {
        let c = config(entries);
        let dispatcher = match choose_dispatcher(c.dispatcher, true, shape) {
            Ok(d) => d,
            Err(e) => panic!("no dispatcher: {:?}", e),
        };
        Multiversioned { ident, targets: dedup_targets(&c.targets), dispatcher }
    }

    /// The names of all versions: one per target, then the default.
    fn version_names(&self) -> Vec<String> {
        let mut names: Vec<String> = self.targets.iter().map(|t| feature_fn_name(self.ident, Some(t))).collect();
        names.push(feature_fn_name(self.ident, None));
        names
    }

    /// The name of the version that a call runs on `m`.
    fn selected(&self, m: &Machine) -> String {
        match dispatched_version(&self.targets, self.dispatcher, m.arch, &m.enabled, &m.detected) {
            Some(i) => feature_fn_name(self.ident, Some(&self.targets[i])),
            None => feature_fn_name(self.ident, None),
        }
    }

    /// The features of the version that a call runs on `m`.
    fn selected_features(&self, m: &Machine) -> Vec<String> {
        match dispatched_version(&self.targets, self.dispatcher, m.arch, &m.enabled, &m.detected) {
            Some(i) => self.targets[i].features().to_vec(),
            None => Vec::new(),
        }
    }

    /// Looks the selected version up among the versions, each of which is
    /// `body`, and returns it.
    fn version<F: Copy>(&self, m: &Machine, body: F) -> F {
        let table: Vec<(String, F)> = self.version_names().into_iter().map(|n| (n, body)).collect();
        let name = self.selected(m);
        match table.iter().find(|(n, _)| *n == name) {
            Some((_, f)) => *f,
            None => panic!("no version named {}", name),
        }
    }
}

fn add(a: &mut [f32], b: &[f32]) {
    a.iter_mut().zip(b.iter()).for_each(|(a, b)| *a += b);
}

const CLONE_TARGETS: [&str; 4] = ["x86_64+avx", "x86+avx", "x86+sse", "aarch64+neon"];

#[test]
fn clones_test_add() {
    let m = x86_64_avx();
    let pub_add = Multiversioned::new("pub_add", vec![targets_entry(&CLONE_TARGETS)], PLAIN);
    let priv_add = Multiversioned::new("priv_add", vec![targets_entry(&CLONE_TARGETS)], PLAIN);
    let pub_unsafe_add = Multiversioned::new("pub_unsafe_add", vec![targets_entry(&CLONE_TARGETS)], PLAIN);
    let priv_unsafe_add = Multiversioned::new("priv_unsafe_add", vec![targets_entry(&CLONE_TARGETS)], PLAIN);
    let mut a = vec![0f32, 2f32, 4f32];
    let b = vec![1f32, 1f32, 1f32];
    pub_add.version(&m, add as fn(&mut [f32], &[f32]))(&mut a, &b);
    assert_eq!(a, vec![1f32, 3f32, 5f32]);
    priv_add.version(&m, add as fn(&mut [f32], &[f32]))(&mut a, &b);
    assert_eq!(a, vec![2f32, 4f32, 6f32]);
    pub_unsafe_add.version(&m, add as fn(&mut [f32], &[f32]))(&mut a, &b);
    assert_eq!(a, vec![3f32, 5f32, 7f32]);
    priv_unsafe_add.version(&m, add as fn(&mut [f32], &[f32]))(&mut a, &b);
    assert_eq!(a, vec![4f32, 6f32, 8f32]);
    assert_eq!(pub_add.selected(&m), feature_fn_name("pub_add", Some(&pub_add.targets[0])));
    assert!(pub_add.selected(&m).starts_with("pub_add_avx_"));
}

#[test]
fn async_fn() {
    let f = Multiversioned::new("async_add", vec![targets_entry(&["x86_64+avx", "x86_64+sse", "aarch64+neon"])], ASYNC);
    assert_eq!(f.dispatcher, Dispatcher::Direct);
    let mut a = vec![0f32, 2f32, 4f32];
    let b = vec![1f32, 1f32, 1f32];
    f.version(&x86_64_avx(), add as fn(&mut [f32], &[f32]))(&mut a, &b);
    assert_eq!(a, vec![1f32, 3f32, 5f32]);
}

#[test]
fn dispatchers() {
    let targets = ["x86_64+avx", "x86+avx", "x86+sse", "aarch64+neon"];
    let default_dispatch = Multiversioned::new("default_dispatch", vec![targets_entry(&targets), dispatcher_entry("default")], PLAIN);
    let static_dispatch = Multiversioned::new("static_dispatch", vec![targets_entry(&targets), dispatcher_entry("static")], PLAIN);
    let direct_dispatch = Multiversioned::new("direct_dispatch", vec![targets_entry(&targets), dispatcher_entry("direct")], PLAIN);
    let indirect_dispatch = Multiversioned::new("indirect_dispatch", vec![targets_entry(&targets), dispatcher_entry("indirect")], PLAIN);
    assert_eq!(default_dispatch.dispatcher, Dispatcher::IndirectUnlessRetpoline);
    assert_eq!(static_dispatch.dispatcher, Dispatcher::Static);
    assert_eq!(direct_dispatch.dispatcher, Dispatcher::Direct);
    assert_eq!(indirect_dispatch.dispatcher, Dispatcher::Indirect);
    let m = x86_64_avx();
    for f in [&default_dispatch, &direct_dispatch, &indirect_dispatch] {
        f.version(&m, || ())();
        assert!(f.selected(&m).contains("avx"));
    }
    // Static dispatch goes by the features of the build, which lack AVX.
    assert_eq!(static_dispatch.selected(&m), "static_dispatch_default_version");
    static_dispatch.version(&m, || ())();
    // x86_64 always has SSE and aarch64 always has NEON: no run-time dispatch.
    let skip = Multiversioned::new("skip_dispatch", vec![targets_entry(&["x86_64+sse"]), dispatcher_entry("default")], PLAIN);
    let skip_2 = Multiversioned::new("skip_dispatch_2", vec![targets_entry(&["aarch64+neon"]), dispatcher_entry("default")], PLAIN);
    assert!(dispatch_elided(&skip.targets, "x86_64", &x86_64_avx().enabled));
    assert!(dispatch_elided(&skip_2.targets, "aarch64", &aarch64().enabled));
    assert_eq!(skip.selected(&x86_64_avx()), "skip_dispatch_default_version");
    assert_eq!(skip_2.selected(&aarch64()), "skip_dispatch_2_default_version");
    skip.version(&x86_64_avx(), || ())();
    skip_2.version(&aarch64(), || ())();
}

#[test]
fn dispatcher_errors() {
    assert!(matches!(choose_dispatcher(DispatchMethod::Indirect, true, GENERIC), Err(DispatchError::IndirectGeneric)));
    assert!(matches!(choose_dispatcher(DispatchMethod::Indirect, true, ASYNC), Err(DispatchError::IndirectAsync)));
    assert!(matches!(choose_dispatcher(DispatchMethod::Indirect, true, IMPL_TRAIT), Err(DispatchError::IndirectImplTrait)));
    assert!(matches!(choose_dispatcher(DispatchMethod::Indirect, false, PLAIN), Err(DispatchError::IndirectWithoutStd)));
    assert!(matches!(choose_dispatcher(DispatchMethod::Direct, false, PLAIN), Err(DispatchError::DirectWithoutStd)));
    assert!(matches!(choose_dispatcher(DispatchMethod::Default, false, PLAIN), Ok(Dispatcher::Static)));
    assert!(matches!(choose_dispatcher(DispatchMethod::Default, true, GENERIC), Ok(Dispatcher::Direct)));
}

#[test]
fn crate_path() {
    let foo = Multiversioned::new("foo", vec![targets_entry(&["x86+avx", "x86_64+avx"])], PLAIN);
    foo.version(&x86_64_avx(), || ())()
}

struct Foo {
    x: i64,
    y: i64,
}

fn destructure_tuple_body((x, y): (i64, i64)) -> (i64, i64) {
    (x, y)
}

fn destructure_struct_body(Foo { x, y }: Foo) -> (i64, i64) {
    (x, y)
}

fn destructure_tuple_generic_body<T>((x, y): (T, T)) -> (T, T) {
    (x, y)
}

#[test]
fn destructure() {
    let m = x86_64_avx();
    let targets = ["x86_64+avx", "aarch64+neon"];
    let tuple = Multiversioned::new("destructure_tuple", vec![targets_entry(&targets)], PLAIN);
    let tuple_mv = Multiversioned::new("destructure_tuple_multiversion", vec![targets_entry(&targets)], PLAIN);
    let strukt = Multiversioned::new("destructure_struct", vec![targets_entry(&targets)], PLAIN);
    let strukt_mv = Multiversioned::new("destructure_struct_multiversion", vec![targets_entry(&targets)], PLAIN);
    let generic = Multiversioned::new("destructure_tuple_generic", vec![targets_entry(&targets)], GENERIC);
    assert_eq!(tuple.version(&m, destructure_tuple_body as fn((i64, i64)) -> (i64, i64))((1, 2)), (1, 2));
    assert_eq!(tuple_mv.version(&m, destructure_tuple_body as fn((i64, i64)) -> (i64, i64))((3, 4)), (3, 4));
    assert_eq!(strukt.version(&m, destructure_struct_body as fn(Foo) -> (i64, i64))(Foo { x: 1, y: 2 }), (1, 2));
    assert_eq!(strukt_mv.version(&m, destructure_struct_body as fn(Foo) -> (i64, i64))(Foo { x: 3, y: 4 }), (3, 4));
    assert_eq!(
        generic.version(&m, destructure_tuple_generic_body::<i64> as fn((i64, i64)) -> (i64, i64))((1i64, 2i64)),
        (1, 2)
    );
    assert_eq!(generic.dispatcher, Dispatcher::Direct);
}

#[test]
fn detect_x86() {
    let m = x86_64_avx();
    let features = TargetFeatures::with_features(&["fxsr", "sse", "sse2"], &["sse", "avx"]);
    let _: bool = features.supports("sse") && features.supports("avx");
    assert!(features.supports("sse") && features.supports("avx"));
    assert!(m.detected.iter().any(|f| f == "avx"));
}

fn double_u32<const N: usize>(x: &mut [u32; N]) -> &mut u32 {
    assert!(!x.is_empty());
    for v in x.iter_mut() {
        *v += *v;
    }
    &mut x[0]
}

fn double_u64<const N: usize>(x: &mut [u64; N]) -> &mut u64 {
    assert!(!x.is_empty());
    for v in x.iter_mut() {
        *v += *v;
    }
    &mut x[0]
}

#[test]
fn generics() {
    let m = x86_64_avx2();
    let double = Multiversioned::new("double", vec![simd_entry()], GENERIC);
    assert_eq!(double.dispatcher, Dispatcher::Direct);
    assert!(double.selected(&m).starts_with("double_avx_avx2_"));
    let mut x = [0u32, 2u32, 4u32];
    let mut y = [0u64, 2u64, 4u64];
    *double.version(&m, double_u32::<3> as fn(&mut [u32; 3]) -> &mut u32)(&mut x) = 1;
    *double.version(&m, double_u64::<3> as fn(&mut [u64; 3]) -> &mut u64)(&mut y) = 2;
    assert_eq!(x, [1u32, 4u32, 8u32]);
    assert_eq!(y, [2u64, 4u64, 8u64]);
}

fn pass(x: &i32) -> &i32 {
    x
}

fn static_lifetime() -> &'static [u8] {
    "hello".as_bytes()
}

fn placeholder_lifetime(value: &'_ [u8]) -> usize {
    value.len()
}

#[test]
fn lifetimes() {
    let m = x86_64_avx2();
    let pass_mv = Multiversioned::new("pass", vec![simd_entry()], PLAIN);
    let static_mv = Multiversioned::new("static_lifetime", vec![simd_entry()], PLAIN);
    let placeholder_mv = Multiversioned::new("placeholder_lifetime", vec![simd_entry()], PLAIN);
    let a = 42;
    assert_eq!(pass_mv.version(&m, pass as fn(&i32) -> &i32)(&a), &a);
    assert_eq!(static_mv.version(&m, static_lifetime as fn() -> &'static [u8])(), b"hello");
    assert_eq!(placeholder_mv.version(&m, placeholder_lifetime as fn(&[u8]) -> usize)(b"hello"), 5);
}

fn leak(v: Vec<String>) -> &'static [&'static str] {
    let names: Vec<&'static str> = v.into_iter().map(|s| &*Box::leak(s.into_boxed_str())).collect();
    Box::leak(names.into_boxed_slice())
}

#[test]
fn helpers() {
    let foo = Multiversioned::new("foo", vec![simd_entry()], PLAIN);
    for m in [x86_64_avx2(), x86_64_avx(), aarch64()] {
        let selected = TargetFeatures::new(leak(foo.selected_features(&m)));
        let width = selected.suggested_simd_width_of(m.arch, SimdElement::Float32);
        println!("{:?}", width);
        foo.version(&m, || ())();
    }
    let avx2 = TargetFeatures::new(leak(foo.selected_features(&x86_64_avx2())));
    assert_eq!(avx2.suggested_simd_width_of("x86_64", SimdElement::Float32), Some(8));
    let sse = TargetFeatures::new(leak(foo.selected_features(&x86_64_avx())));
    assert_eq!(sse.suggested_simd_width_of("x86_64", SimdElement::Float32), Some(4));
    assert_eq!(sse.suggested_simd_width::<u8>("x86_64"), Some(16));
}

fn plus_one(value: u8) -> u8 {
    value + 1
}

#[test]
fn names_and_duplicates() {
    let m = x86_64_avx2();
    let type_fn = Multiversioned::new("r#type", vec![targets_entry(&["x86_64+avx", "aarch64+sve"])], PLAIN);
    let duplicate_targets = Multiversioned::new(
        "duplicate_targets",
        vec![targets_entry(&["x86_64+avx+avx2", "aarch64+sve", "x86_64+avx2+avx+avx", "aarch64+sve"])],
        PLAIN,
    );
    assert_eq!(type_fn.version(&m, plus_one as fn(u8) -> u8)(41), 42);
    // Every version name of `fn r#type` is an identifier that can be built.
    for name in type_fn.version_names() {
        assert!(name.starts_with("type_"));
        let ident = proc_macro2::Ident::new(&name, proc_macro2::Span::call_site());
        assert_eq!(ident.to_string(), name);
    }
    assert_eq!(duplicate_targets.version(&m, plus_one as fn(u8) -> u8)(41), 42);
    assert_eq!(duplicate_targets.targets.len(), 2);
    let names = duplicate_targets.version_names();
    for (i, a) in names.iter().enumerate() {
        for b in &names[i + 1..] {
            assert_ne!(a, b);
        }
    }
}

#[test]
fn duplicate_targets_preserve_priority() {
    let selected_avx2 = Multiversioned::new(
        "selected_avx2",
        vec![targets_entry(&["x86_64+avx2", "x86_64+avx", "x86_64+avx2"])],
        PLAIN,
    );
    for m in [x86_64_avx(), x86_64_avx2()] {
        let expected = m.detected.iter().any(|f| f == "avx2");
        let features = selected_avx2.selected_features(&m);
        assert_eq!(features.iter().any(|f| f == "avx2"), expected);
    }
}

fn sum(input: impl AsRef<[i64]>) -> i64 {
    input.as_ref().iter().sum()
}

fn sum_ref(input: &impl AsRef<[i64]>) -> i64 {
    input.as_ref().iter().sum()
}

#[test]
fn impl_trait() {
    let m = x86_64_avx2();
    // `sum(input: impl AsRef<[i64]>) -> i64` and `sum_ref(input: &impl AsRef<[i64]>) -> i64`.
    let sum_shape = fn_shape(false, false, &vec![TypeModel::ImplTrait], Some(&TypeModel::Leaf));
    let sum_ref_shape =
        fn_shape(false, false, &vec![TypeModel::Compound(vec![TypeModel::ImplTrait])], Some(&TypeModel::Leaf));
    assert_eq!(sum_shape, IMPL_TRAIT);
    assert_eq!(sum_ref_shape, IMPL_TRAIT);
    let sum_mv = Multiversioned::new("sum", vec![targets_entry(&["x86_64+avx2"])], sum_shape);
    let sum_ref_mv = Multiversioned::new("sum_ref", vec![targets_entry(&["x86_64+avx2"])], sum_ref_shape);
    assert_eq!(sum_mv.dispatcher, Dispatcher::Direct);
    assert_eq!(sum_ref_mv.dispatcher, Dispatcher::Direct);
    assert_eq!(sum_mv.version(&m, |x: [i64; 4]| sum(x))([0, 1, 2, 3]), 6);
    assert_eq!(sum_ref_mv.version(&m, |x: &[i64; 4]| sum_ref(x))(&[0, 1, 2, 3]), 6);
}

#[test]
fn impl_trait_return_is_refused() {
    assert!(matches!(parse_options(true, false, &vec![targets_entry(&["x86_64+avx2"])]), Err(OptionsError::ImplTraitReturn)));
}

fn mul(x: f32, y: f32) -> f32 {
    x * y
}

/// `square` calls `mul` through static dispatch: the version of `mul` for
/// the same target as the running version of `square`.
fn square_with(m: &Machine, square: &Multiversioned, mul_mv: &Multiversioned, x: &mut [f32]) {
    let index = dispatched_version(&square.targets, square.dispatcher, m.arch, &m.enabled, &m.detected);
    let mul_name = match index {
        Some(i) => feature_fn_name(mul_mv.ident, Some(&mul_mv.targets[i])),
        None => feature_fn_name(mul_mv.ident, None),
    };
    assert!(mul_mv.version_names().contains(&mul_name));
    for v in x {
        *v = mul(*v, *v);
    }
}

#[test]
fn static_dispatch() {
    let m = x86_64_avx();
    let mul_mv = Multiversioned::new("mul", vec![targets_entry(&["x86_64+avx", "x86+sse"])], PLAIN);
    let square = Multiversioned::new("square", vec![targets_entry(&["x86_64+avx", "x86+sse"])], PLAIN);
    let mut x = vec![0f32, 1f32, 2f32, 3f32];
    square_with(&m, &square, &mul_mv, x.as_mut_slice());
    assert_eq!(x, vec![0f32, 1f32, 4f32, 9f32]);
}

#[test]
fn static_dispatch_indirect() {
    let m = x86_64_avx();
    let mul_mv = Multiversioned::new("mul", vec![targets_entry(&["x86_64+avx", "x86+sse"])], PLAIN);
    let square_indirect = Multiversioned::new("square_indirect", vec![targets_entry(&["x86_64+avx", "x86+sse"])], PLAIN);
    let mut x = vec![0f32, 1f32, 2f32, 3f32];
    square_with(&m, &square_indirect, &mul_mv, x.as_mut_slice());
    assert_eq!(x, vec![0f32, 1f32, 4f32, 9f32]);
}

#[test]
fn static_dispatch_target() {
    let m = x86_64_avx();
    let avx = Target::parse("x86_64+avx").unwrap();
    let mul_mv = Multiversioned::new("mul", vec![targets_entry(&["x86_64+avx", "x86+sse"])], PLAIN);
    let square = Multiversioned::new("square", vec![targets_entry(&["x86_64+avx", "x86+sse"])], PLAIN);
    if m.detected.iter().any(|f| f == "avx") {
        let mut x = vec![0f32, 1f32, 2f32, 3f32];
        square_with(&m, &square, &mul_mv, x.as_mut_slice());
        assert_eq!(x, vec![0f32, 1f32, 4f32, 9f32]);
        assert_eq!(square.selected(&m), feature_fn_name("square", Some(&avx)));
    }
}

#[test]
fn per_arch_and_featured_targets() {
    let ts: Vec<Target> = ["x86_64+avx2", "x86+sse", "x86_64+avx", "aarch64", "x86+avx"]
        .iter()
        .map(|s| Target::parse(s).unwrap())
        .collect();
    assert_eq!(first_target_per_arch(&ts), vec![0, 1, 3]);
    assert_eq!(featured_targets(&ts), vec![0, 1, 2, 4]);
    assert_eq!(first_target_per_arch(&[]), Vec::<usize>::new());
}

#[test]
fn elided_dispatch_calls_default_and_never_an_unsupported_version() {
    let f = Multiversioned::new("f", vec![targets_entry(&["x86_64+avx2", "x86_64+avx"])], PLAIN);
    // Built with AVX2 enabled: the first target's features are all there.
    let built_with_avx2 = Machine {
        arch: "x86_64",
        enabled: strings(&["avx2", "avx", "sse", "sse2", "sse3", "ssse3", "sse4.1"]),
        detected: strings(&["avx2", "avx", "sse", "sse2", "sse3", "ssse3", "sse4.1"]),
    };
    assert_eq!(f.selected(&built_with_avx2), "f_default_version");
    // A machine with no AVX at all runs the default version.
    let plain = Machine { arch: "x86_64", enabled: strings(&["sse", "sse2"]), detected: strings(&["sse", "sse2"]) };
    assert_eq!(f.selected(&plain), "f_default_version");
    // Another architecture never runs an x86-64 version.
    assert_eq!(f.selected(&aarch64()), "f_default_version");
}

#[test]
fn chosen_versions_only_use_available_features() {
    let targets = ["x86_64+avx2+fma", "x86_64+avx", "x86_64+sse4.2", "aarch64+neon"];
    for (method, name) in [(DispatchMethod::Static, "static"), (DispatchMethod::Direct, "direct"), (DispatchMethod::Indirect, "indirect")] {
        let f = Multiversioned::new("f", vec![targets_entry(&targets), dispatcher_entry(name)], PLAIN);
        assert!(matches!(choose_dispatcher(method, true, PLAIN), Ok(d) if d == f.dispatcher));
        for m in [x86_64_avx(), x86_64_avx2(), aarch64()] {
            let available = if f.dispatcher == Dispatcher::Static { &m.enabled } else { &m.detected };
            for feature in f.selected_features(&m) {
                assert!(available.contains(&feature), "{} lacks {}", m.arch, feature);
            }
        }
    }
    let f = Multiversioned::new("f", vec![targets_entry(&targets)], PLAIN);
    assert!(f.selected(&x86_64_avx2()).starts_with("f_avx_avx2_fma_"));
    assert!(f.selected(&x86_64_avx()).starts_with("f_avx_sse_"));
}

#[test]
fn shapes_of_signatures() {
    // `fn f(x: u8, y: &[u8]) -> Vec<u8>`: no impl Trait anywhere.
    let plain = fn_shape(
        false,
        false,
        &vec![TypeModel::Leaf, TypeModel::Compound(vec![TypeModel::Compound(vec![TypeModel::Leaf])])],
        Some(&TypeModel::Compound(vec![TypeModel::Leaf])),
    );
    assert_eq!(plain, PLAIN);
    // `fn f(x: (u8, Vec<&impl Fn()>))`: nested impl Trait is found.
    let nested = fn_shape(
        false,
        false,
        &vec![TypeModel::Compound(vec![
            TypeModel::Leaf,
            TypeModel::Compound(vec![TypeModel::Compound(vec![TypeModel::ImplTrait])]),
        ])],
        None,
    );
    assert_eq!(nested, IMPL_TRAIT);
    assert_eq!(fn_shape(true, false, &vec![], None), GENERIC);
    assert_eq!(fn_shape(false, true, &vec![], None), ASYNC);
    assert_eq!(
        choose_dispatcher(DispatchMethod::Default, true, nested),
        Ok(Dispatcher::Direct)
    );
}

/// The skip condition that the written function carries, evaluated on a
/// build: no first target for the architecture, or all of its features on.
fn skip_condition(targets: &[Target], arch: &str, enabled: &[String]) -> bool {
    let firsts = first_target_per_arch(targets);
    let mine: Vec<&Target> = firsts.iter().map(|&i| &targets[i]).filter(|t| t.arch() == arch).collect();
    mine.is_empty() || mine.iter().any(|t| t.features().iter().all(|f| enabled.contains(f)))
}

#[test]
fn skip_condition_matches_elision() {
    let targets: Vec<Target> = ["x86_64+avx2", "aarch64+neon", "x86_64+avx"]
        .iter()
        .map(|s| Target::parse(s).unwrap())
        .collect();
    let avx2_build = Target::parse("x86_64+avx2").unwrap().features().to_vec();
    let cases: Vec<(&str, Vec<String>, bool)> = vec![
        ("x86_64", strings(&["fxsr", "sse", "sse2"]), false),
        ("x86_64", avx2_build, true),
        ("aarch64", strings(&["neon", "fp"]), true),
        ("mips", Vec::new(), true),
    ];
    for (arch, enabled, elided) in cases {
        assert_eq!(dispatch_elided(&targets, arch, &enabled), elided);
        assert_eq!(skip_condition(&targets, arch, &enabled), elided);
    }
}

/// Calls of a dispatcher that keeps its choice, on machines that change
/// between calls: returns the version each call ran and how many detected.
fn run_cached(targets: &[Target], machines: &[Machine]) -> (Vec<Option<usize>>, usize) {
    let mut cache = DispatchCache::Unresolved;
    let mut ran = Vec::new();
    let mut detections = 0;
    for m in machines {
        match call_step(cache) {
            CallStep::Detect => {
                detections += 1;
                let (next, v) = resolve_dispatch(targets, Dispatcher::Direct, m.arch, &m.enabled, &m.detected);
                cache = next;
                ran.push(v);
            }
            CallStep::Run(v) => ran.push(v),
        }
    }
    (ran, detections)
}

#[test]
fn detection_is_performed_only_once() {
    let targets: Vec<Target> =
        ["x86_64+avx2", "x86_64+avx"].iter().map(|s| Target::parse(s).unwrap()).collect();
    let (ran, detections) = run_cached(&targets, &[x86_64_avx2(), x86_64_avx(), x86_64_avx2()]);
    assert_eq!(ran, vec![Some(0), Some(0), Some(0)]);
    assert_eq!(detections, 1);
    let (ran, detections) = run_cached(&targets, &[x86_64_avx(), x86_64_avx2()]);
    assert_eq!(ran, vec![Some(1), Some(1)]);
    assert_eq!(detections, 1);
    assert_eq!(record_choice(None), (DispatchCache::Resolved(None), None));
    assert_eq!(call_step(DispatchCache::Resolved(Some(3))), CallStep::Run(Some(3)));
    assert_eq!(call_step(DispatchCache::Unresolved), CallStep::Detect);
}
