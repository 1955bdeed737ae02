//! The features that a selected target supports, and a suggested SIMD vector
//! width for it.
use vstd::prelude::*;
use crate::strings::eq;
use crate::text::{split, split_spec, views, append_str};
use crate::attrs::{interleave, interleave_strs, quoted};
use crate::stdlib::push_char;

verus! {

/// The features of a target: those enabled when the crate was compiled, and
/// those detected at run time.
#[derive(Clone, Copy)]
pub struct TargetFeatures {
    defaults: &'static [&'static str],
    detected: &'static [&'static str],
}

/// Whether `name` is one of `list`.
pub open spec fn listed(list: Seq<&'static str>, name: Seq<char>) -> bool {
    exists|i: int| 0 <= i < list.len() && (#[trigger] list[i])@ == name
}

fn list_contains(list: &'static [&'static str], feature: &str) -> (r: bool)
    ensures
        r == listed(list@, feature@),
{
    let mut i: usize = 0;
    while i < list.len()
        invariant
            0 <= i <= list@.len(),
            forall|j: int| 0 <= j < i ==> (#[trigger] list@[j])@ != feature@,
        decreases list@.len() - i,
    {
        if eq(list[i], feature) {
            return true;
        }
        i += 1;
    }
    false
}

/// A type of SIMD vector element.
#[derive(PartialEq, Eq, Structural, Clone, Copy, Debug)]
pub enum SimdElement {
    U8,
    U16,
    U32,
    U64,
    I8,
    I16,
    I32,
    I64,
    Float32,
    Float64,
}

/// The size of an element in bytes.
pub open spec fn element_size(e: SimdElement) -> usize {
    match e {
        SimdElement::U8 | SimdElement::I8 => 1,
        SimdElement::U16 | SimdElement::I16 => 2,
        SimdElement::U32 | SimdElement::I32 | SimdElement::Float32 => 4,
        SimdElement::U64 | SimdElement::I64 | SimdElement::Float64 => 8,
    }
}

/// The size of an element in bytes.
pub fn size_of_element(e: SimdElement) -> (r: usize)
    ensures
        r == element_size(e),
{
    match e {
        SimdElement::U8 | SimdElement::I8 => 1,
        SimdElement::U16 | SimdElement::I16 => 2,
        SimdElement::U32 | SimdElement::I32 | SimdElement::Float32 => 4,
        SimdElement::U64 | SimdElement::I64 | SimdElement::Float64 => 8,
    }
}

/// Only the element types of this crate implement [`SimdType`].
pub trait Sealed {}

/// Types that can be elements of a SIMD vector.
pub trait SimdType: Sealed {
    spec fn spec_element() -> SimdElement;

    fn element() -> (e: SimdElement)
        ensures
            e == Self::spec_element(),
    ;
}

impl Sealed for u8 {}
impl Sealed for u16 {}
impl Sealed for u32 {}
impl Sealed for u64 {}
impl Sealed for i8 {}
impl Sealed for i16 {}
impl Sealed for i32 {}
impl Sealed for i64 {}

impl SimdType for u8 {
    open spec fn spec_element() -> SimdElement { SimdElement::U8 }
    fn element() -> (e: SimdElement) { SimdElement::U8 }
}

impl SimdType for u16 {
    open spec fn spec_element() -> SimdElement { SimdElement::U16 }
    fn element() -> (e: SimdElement) { SimdElement::U16 }
}

impl SimdType for u32 {
    open spec fn spec_element() -> SimdElement { SimdElement::U32 }
    fn element() -> (e: SimdElement) { SimdElement::U32 }
}

impl SimdType for u64 {
    open spec fn spec_element() -> SimdElement { SimdElement::U64 }
    fn element() -> (e: SimdElement) { SimdElement::U64 }
}

impl SimdType for i8 {
    open spec fn spec_element() -> SimdElement { SimdElement::I8 }
    fn element() -> (e: SimdElement) { SimdElement::I8 }
}

impl SimdType for i16 {
    open spec fn spec_element() -> SimdElement { SimdElement::I16 }
    fn element() -> (e: SimdElement) { SimdElement::I16 }
}

impl SimdType for i32 {
    open spec fn spec_element() -> SimdElement { SimdElement::I32 }
    fn element() -> (e: SimdElement) { SimdElement::I32 }
}

impl SimdType for i64 {
    open spec fn spec_element() -> SimdElement { SimdElement::I64 }
    fn element() -> (e: SimdElement) { SimdElement::I64 }
}

impl TargetFeatures {
    /// Whether the target supports the named feature.
    pub open spec fn spec_supports(&self, feature: Seq<char>) -> bool {
        listed(self.spec_defaults(), feature) || listed(self.spec_detected(), feature)
    }

    /// The features enabled at compile time.
    pub closed spec fn spec_defaults(&self) -> Seq<&'static str> {
        self.defaults@
    }

    /// The features detected at run time.
    pub closed spec fn spec_detected(&self) -> Seq<&'static str> {
        self.detected@
    }

    /// A target with only the features enabled at compile time.
    pub fn new(defaults: &'static [&'static str]) -> (r: Self)
        ensures
            r.spec_defaults() == defaults@,
            r.spec_detected() == Seq::<&'static str>::empty(),
            forall|f: Seq<char>| r.spec_supports(f) == listed(defaults@, f),
    {
        let none: &'static [&'static str] = &[];
        TargetFeatures { defaults, detected: none }
    }

    /// A target with the compile-time features and the given detected ones.
    ///
    /// The caller asserts that the CPU supports the detected features.
    pub fn with_features(defaults: &'static [&'static str], features: &'static [&'static str]) -> (r: Self)
        ensures
            r.spec_defaults() == defaults@,
            r.spec_detected() == features@,
    {
        TargetFeatures { defaults, detected: features }
    }

    /// Whether the target supports the named feature: whether it was enabled
    /// at compile time or detected.
    pub fn supports(&self, feature: &str) -> (r: bool)
        ensures
            r == self.spec_supports(feature@),
    {
        list_contains(self.defaults, feature) || list_contains(self.detected, feature)
    }

    /// The suggested number of elements of type `e` in a SIMD vector on the
    /// architecture `arch`, or `None` where no SIMD extension is supported.
    pub open spec fn spec_simd_width(&self, arch: Seq<char>, e: SimdElement) -> Option<usize> {
        let is_f32 = e == SimdElement::Float32;
        let is_f64 = e == SimdElement::Float64;
        let v128 = (16usize / element_size(e)) as usize;
        let v256 = (32usize / element_size(e)) as usize;
        let v512 = (64usize / element_size(e)) as usize;
        if arch == "x86_64"@ || arch == "x86"@ {
            if self.spec_supports("avx512f"@) {
                Some(v512)
            } else if self.spec_supports("avx2"@) || (is_f32 || is_f64) && self.spec_supports("avx"@) {
                Some(v256)
            } else if self.spec_supports("sse2"@) || is_f32 && self.spec_supports("sse"@) {
                Some(v128)
            } else {
                None
            }
        } else if arch == "arm"@ || arch == "aarch64"@ {
            if self.spec_supports("neon"@) && !(is_f64 && arch == "arm"@) {
                Some(v128)
            } else {
                None
            }
        } else if arch == "mips"@ || arch == "mips64"@ {
            if self.spec_supports("msa"@) {
                Some(v128)
            } else {
                None
            }
        } else if arch == "powerpc"@ || arch == "powerpc64"@ {
            if self.spec_supports("vsx"@) || (self.spec_supports("altivec"@) && !is_f64) {
                Some(v128)
            } else {
                None
            }
        } else if arch == "riscv32"@ || arch == "riscv64"@ {
            if self.spec_supports("v"@) {
                Some(v128)
            } else {
                None
            }
        } else if arch == "wasm32"@ && self.spec_supports("simd128"@) {
            Some(v128)
        } else {
            None
        }
    }

    /// Returns a suggested number of elements of type `e` for a SIMD vector
    /// on the architecture `arch`. This is a guess for basic arithmetic;
    /// variable-length vector extensions count only their minimum length.
    pub fn suggested_simd_width_of(&self, arch: &str, e: SimdElement) -> (r: Option<usize>)
        ensures
            r == self.spec_simd_width(arch@, e),
    {
        let is_f32 = e == SimdElement::Float32;
        let is_f64 = e == SimdElement::Float64;
        let size = size_of_element(e);
        let v128 = 16 / size;
        let v256 = 32 / size;
        let v512 = 64 / size;
        if eq(arch, "x86_64") || eq(arch, "x86") {
            if self.supports("avx512f") {
                Some(v512)
            } else if self.supports("avx2") || (is_f32 || is_f64) && self.supports("avx") {
                Some(v256)
            } else if self.supports("sse2") || is_f32 && self.supports("sse") {
                Some(v128)
            } else {
                None
            }
        } else if eq(arch, "arm") || eq(arch, "aarch64") {
            if self.supports("neon") && !(is_f64 && eq(arch, "arm")) {
                Some(v128)
            } else {
                None
            }
        } else if eq(arch, "mips") || eq(arch, "mips64") {
            if self.supports("msa") {
                Some(v128)
            } else {
                None
            }
        } else if eq(arch, "powerpc") || eq(arch, "powerpc64") {
            if self.supports("vsx") || (self.supports("altivec") && !is_f64) {
                Some(v128)
            } else {
                None
            }
        } else if eq(arch, "riscv32") || eq(arch, "riscv64") {
            if self.supports("v") {
                Some(v128)
            } else {
                None
            }
        } else if eq(arch, "wasm32") && self.supports("simd128") {
            Some(v128)
        } else {
            None
        }
    }

    /// Returns a suggested number of elements of type `T` for a SIMD vector
    /// on the architecture `arch`.
    pub fn suggested_simd_width<T: SimdType>(&self, arch: &str) -> (r: Option<usize>)
        ensures
            r == self.spec_simd_width(arch@, T::spec_element()),
    {
        self.suggested_simd_width_of(arch, T::element())
    }
}

/// The declaration of the features enabled at compile time, from the
/// comma-separated list that the build names (none where it names no list):
/// `const DEFAULT_FEATURES: &[&str] = &["f1", "f2"];`.
/// A suggested width as a number: no suggestion counts as zero.
pub open spec fn width_or_zero(w: Option<usize>) -> int {
    match w {
        Some(k) => k as int,
        None => 0,
    }
}

/// On x86 and x86-64 the width follows the widest vector registers the
/// features give, for integer and floating-point elements alike: AVX-512F
/// gives 512-bit vectors, otherwise AVX2 gives 256-bit vectors, otherwise
/// SSE2 gives 128-bit vectors. Without any of those, AVX still gives 256-bit
/// floating-point vectors and SSE 128-bit `f32` vectors, and integers get no
/// suggestion.
pub proof fn lemma_x86_simd_widths(a: &TargetFeatures, arch: Seq<char>, e: SimdElement)
    requires
        arch == "x86_64"@ || arch == "x86"@,
    ensures
        a.spec_supports("avx512f"@) ==> a.spec_simd_width(arch, e) == Some(64usize / element_size(e)),
        !a.spec_supports("avx512f"@) && a.spec_supports("avx2"@) ==> a.spec_simd_width(arch, e) == Some(
            32usize / element_size(e),
        ),
        !a.spec_supports("avx512f"@) && !a.spec_supports("avx2"@) && a.spec_supports("avx"@) && (e is Float32
            || e is Float64) ==> a.spec_simd_width(arch, e) == Some(32usize / element_size(e)),
        !a.spec_supports("avx512f"@) && !a.spec_supports("avx2"@) && !((e is Float32 || e is Float64)
            && a.spec_supports("avx"@)) && a.spec_supports("sse2"@) ==> a.spec_simd_width(arch, e) == Some(
            16usize / element_size(e),
        ),
        !a.spec_supports("avx512f"@) && !a.spec_supports("avx2"@) && !((e is Float32 || e is Float64)
            && a.spec_supports("avx"@)) && !a.spec_supports("sse2"@) && !(e is Float32 && a.spec_supports(
            "sse"@,
        )) ==> a.spec_simd_width(arch, e) is None,
{
}

/// On the other architectures with vector features, the one feature that
/// gives 128-bit vectors decides: NEON on AArch64 (and on Arm, except for
/// `f64`, which Arm's NEON lacks), MSA on MIPS, V on RISC-V, and SIMD128 on
/// 32-bit WebAssembly; without it there is no suggestion.
pub proof fn lemma_vector_extension_widths(a: &TargetFeatures, arch: Seq<char>, e: SimdElement)
    ensures
        arch == "aarch64"@ ==> a.spec_simd_width(arch, e) == (if a.spec_supports("neon"@) {
            Some(16usize / element_size(e))
        } else {
            None
        }),
        arch == "arm"@ ==> a.spec_simd_width(arch, e) == (if a.spec_supports("neon"@) && !(e is Float64) {
            Some(16usize / element_size(e))
        } else {
            None
        }),
        arch == "mips"@ || arch == "mips64"@ ==> a.spec_simd_width(arch, e) == (if a.spec_supports("msa"@) {
            Some(16usize / element_size(e))
        } else {
            None
        }),
        arch == "riscv32"@ || arch == "riscv64"@ ==> a.spec_simd_width(arch, e) == (if a.spec_supports("v"@) {
            Some(16usize / element_size(e))
        } else {
            None
        }),
        arch == "wasm32"@ ==> a.spec_simd_width(arch, e) == (if a.spec_supports("simd128"@) {
            Some(16usize / element_size(e))
        } else {
            None
        }),
{
    reveal_strlit("x86_64");
    reveal_strlit("x86");
    reveal_strlit("arm");
    reveal_strlit("aarch64");
    reveal_strlit("mips");
    reveal_strlit("mips64");
    reveal_strlit("powerpc");
    reveal_strlit("powerpc64");
    reveal_strlit("riscv32");
    reveal_strlit("riscv64");
    reveal_strlit("wasm32");
    if arch == "aarch64"@ {
        assert(arch != "arm"@ && arch != "x86"@ && arch != "x86_64"@) by {
            assert(arch.len() == 7);
        }
    }
    if arch == "arm"@ {
        assert(arch != "x86"@ && arch != "x86_64"@) by {
            assert(arch[0] == 'a');
        }
    }
    if arch == "mips"@ || arch == "mips64"@ {
        assert(arch != "x86"@ && arch != "x86_64"@ && arch != "arm"@ && arch != "aarch64"@) by {
            assert(arch[0] == 'm');
        }
    }
    if arch == "riscv32"@ || arch == "riscv64"@ {
        assert(arch != "x86"@ && arch != "x86_64"@ && arch != "arm"@ && arch != "aarch64"@ && arch != "mips"@
            && arch != "mips64"@ && arch != "powerpc"@ && arch != "powerpc64"@) by {
            assert(arch[0] == 'r');
        }
    }
    if arch == "wasm32"@ {
        assert(arch != "x86"@ && arch != "x86_64"@ && arch != "arm"@ && arch != "aarch64"@ && arch != "mips"@
            && arch != "mips64"@ && arch != "powerpc"@ && arch != "powerpc64"@ && arch != "riscv32"@
            && arch != "riscv64"@) by {
            assert(arch[0] == 'w');
        }
    }
}

/// Supporting more features never shrinks the suggested SIMD width: where
/// `b` supports every feature that `a` supports, `b`'s suggestion for any
/// architecture and element type is at least `a`'s.
pub proof fn lemma_simd_width_monotone(a: &TargetFeatures, b: &TargetFeatures, arch: Seq<char>, e: SimdElement)
    requires
        forall|f: Seq<char>| #[trigger] a.spec_supports(f) ==> b.spec_supports(f),
    ensures
        width_or_zero(a.spec_simd_width(arch, e)) <= width_or_zero(b.spec_simd_width(arch, e)),
{
    assert(a.spec_supports("avx512f"@) ==> b.spec_supports("avx512f"@));
    assert(a.spec_supports("avx2"@) ==> b.spec_supports("avx2"@));
    assert(a.spec_supports("avx"@) ==> b.spec_supports("avx"@));
    assert(a.spec_supports("sse2"@) ==> b.spec_supports("sse2"@));
    assert(a.spec_supports("sse"@) ==> b.spec_supports("sse"@));
    assert(a.spec_supports("neon"@) ==> b.spec_supports("neon"@));
    assert(a.spec_supports("msa"@) ==> b.spec_supports("msa"@));
    assert(a.spec_supports("vsx"@) ==> b.spec_supports("vsx"@));
    assert(a.spec_supports("altivec"@) ==> b.spec_supports("altivec"@));
    assert(a.spec_supports("v"@) ==> b.spec_supports("v"@));
    assert(a.spec_supports("simd128"@) ==> b.spec_supports("simd128"@));
    let size = element_size(e);
    assert(16usize / size <= 32usize / size <= 64usize / size) by {
        match e {
            SimdElement::U8 | SimdElement::I8 => {},
            SimdElement::U16 | SimdElement::I16 => {},
            SimdElement::U32 | SimdElement::I32 | SimdElement::Float32 => {},
            SimdElement::U64 | SimdElement::I64 | SimdElement::Float64 => {},
        }
    }
}

pub open spec fn default_features_decl_spec(list: Option<Seq<char>>) -> Seq<char> {
    let quoted_names = match list {
        None => Seq::empty(),
        Some(l) => split_spec(l, ',').map_values(|f: Seq<char>| quoted(f)),
    };
    "const DEFAULT_FEATURES: &[&str] = &["@ + interleave(quoted_names, ", "@) + "];"@
}

/// The declaration of the features enabled at compile time.
pub fn default_features_decl(list: Option<&str>) -> (r: String)
    ensures
        r@ == default_features_decl_spec(match list {
            Some(l) => Some(l@),
            None => None,
        }),
{
    let mut names: Vec<String> = Vec::new();
    let ghost target: Seq<Seq<char>> = Seq::empty();
    if let Some(l) = list {
        let pieces = split(l, ',');
        let ghost ps = views(pieces@);
        proof {
            target = ps.map_values(|f: Seq<char>| quoted(f));
        }
        let mut i: usize = 0;
        while i < pieces.len()
            invariant
                ps == views(pieces@),
                target == ps.map_values(|f: Seq<char>| quoted(f)),
                i <= pieces@.len(),
                views(names@) == target.take(i as int),
            decreases pieces@.len() - i,
        {
            let mut q = String::new();
            push_char(&mut q, '"');
            append_str(&mut q, pieces[i].as_str());
            push_char(&mut q, '"');
            assert(q@ =~= quoted(ps[i as int]));
            let ghost before = views(names@);
            let ghost qv = q@;
            names.push(q);
            assert(views(names@) =~= before.push(qv));
            assert(target.take(i + 1) =~= target.take(i as int).push(target[i as int]));
            i += 1;
        }
        assert(target.take(pieces@.len() as int) =~= target);
    } else {
        assert(views(names@) =~= Seq::<Seq<char>>::empty());
    }
    let mut out = String::new();
    append_str(&mut out, "const DEFAULT_FEATURES: &[&str] = &[");
    let joined = interleave_strs(names.as_slice(), ", ");
    append_str(&mut out, joined.as_str());
    append_str(&mut out, "];");
    out
}

} // verus!
