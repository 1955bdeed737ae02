use multiversion::features::{default_features_decl, size_of_element, SimdElement, TargetFeatures};

#[test]
fn element_sizes() {
    assert_eq!(size_of_element(SimdElement::U8), 1);
    assert_eq!(size_of_element(SimdElement::I16), 2);
    assert_eq!(size_of_element(SimdElement::Float32), 4);
    assert_eq!(size_of_element(SimdElement::I64), 8);
    assert_eq!(size_of_element(SimdElement::Float64), 8);
}

#[test]
fn supports_defaults_and_detected() {
    let f = TargetFeatures::with_features(&["sse", "sse2"], &["avx"]);
    assert!(f.supports("sse"));
    assert!(f.supports("avx"));
    assert!(!f.supports("avx2"));
    let g = TargetFeatures::new(&["neon"]);
    assert!(g.supports("neon"));
    assert!(!g.supports("sve"));
}

#[test]
fn suggested_widths_x86() {
    let avx512 = TargetFeatures::new(&["avx512f", "avx2"]);
    assert_eq!(avx512.suggested_simd_width_of("x86_64", SimdElement::U8), Some(64));
    assert_eq!(avx512.suggested_simd_width_of("x86", SimdElement::Float64), Some(8));
    let avx = TargetFeatures::new(&["avx", "sse2", "sse"]);
    assert_eq!(avx.suggested_simd_width_of("x86_64", SimdElement::Float32), Some(8));
    assert_eq!(avx.suggested_simd_width_of("x86_64", SimdElement::U32), Some(4));
    assert_eq!(avx.suggested_simd_width::<u16>("x86_64"), Some(8));
    let sse = TargetFeatures::new(&["sse"]);
    assert_eq!(sse.suggested_simd_width_of("x86_64", SimdElement::Float32), Some(4));
    assert_eq!(sse.suggested_simd_width_of("x86_64", SimdElement::Float64), None);
    assert_eq!(sse.suggested_simd_width::<i32>("x86"), None);
}

#[test]
fn suggested_widths_other_arches() {
    let neon = TargetFeatures::new(&["neon"]);
    assert_eq!(neon.suggested_simd_width_of("aarch64", SimdElement::Float64), Some(2));
    assert_eq!(neon.suggested_simd_width_of("arm", SimdElement::Float64), None);
    assert_eq!(neon.suggested_simd_width::<u8>("arm"), Some(16));
    let altivec = TargetFeatures::new(&["altivec"]);
    assert_eq!(altivec.suggested_simd_width_of("powerpc64", SimdElement::Float32), Some(4));
    assert_eq!(altivec.suggested_simd_width_of("powerpc64", SimdElement::Float64), None);
    let msa = TargetFeatures::new(&["msa"]);
    assert_eq!(msa.suggested_simd_width::<i64>("mips"), Some(2));
    let v = TargetFeatures::new(&["v"]);
    assert_eq!(v.suggested_simd_width::<u32>("riscv64"), Some(4));
    let wasm = TargetFeatures::new(&["simd128"]);
    assert_eq!(wasm.suggested_simd_width::<u64>("wasm32"), Some(2));
    assert_eq!(wasm.suggested_simd_width::<u64>("sparc"), None);
}

#[test]
fn default_features_declaration() {
    assert_eq!(
        default_features_decl(Some("fxsr,sse,sse2")),
        "const DEFAULT_FEATURES: &[&str] = &[\"fxsr\", \"sse\", \"sse2\"];"
    );
    assert_eq!(default_features_decl(None), "const DEFAULT_FEATURES: &[&str] = &[];");
    assert_eq!(default_features_decl(Some("")), "const DEFAULT_FEATURES: &[&str] = &[\"\"];");
}

#[test]
fn more_features_never_shrink_the_width() {
    let chain: [&'static [&'static str]; 5] =
        [&[], &["sse"], &["sse", "sse2"], &["sse", "sse2", "avx"], &["sse", "sse2", "avx", "avx2", "avx512f"]];
    let elements = [SimdElement::U8, SimdElement::I16, SimdElement::Float32, SimdElement::Float64];
    for arch in ["x86_64", "x86", "arm", "aarch64"] {
        for e in elements {
            let mut last = 0;
            for fs in chain {
                let w = TargetFeatures::with_features(&[], fs).suggested_simd_width_of(arch, e).unwrap_or(0);
                assert!(w >= last);
                last = w;
            }
        }
    }
    let none = TargetFeatures::with_features(&[], &[]);
    let neon = TargetFeatures::with_features(&[], &["neon"]);
    assert_eq!(none.suggested_simd_width_of("aarch64", SimdElement::U8), None);
    assert_eq!(neon.suggested_simd_width_of("aarch64", SimdElement::U8), Some(16));
}
