//! The "simd" targets by x86-64 microarchitecture level and by the SIMD
//! extensions of the other architectures, best first. Some of them need a
//! newer compiler, or a nightly one; those it cannot use are left out.
use vstd::prelude::*;
use crate::options::{parse_all, target_sets, lemma_parse_all_error, OptionsError, OptionsErrorKind};
use crate::target::Target;

verus! {

/// What the compiler in use offers.
#[derive(PartialEq, Eq, Structural, Clone, Copy, Debug)]
pub struct Toolchain {
    /// Rust 1.89 or later.
    pub since_1_89: bool,
    /// Rust 1.93 or later.
    pub since_1_93: bool,
    /// A nightly compiler with the `nightly` feature.
    pub nightly: bool,
}

/// x86-64-v4 on the given architecture; runtime detection of its
/// `lahfsahf` is not available, so it is not named.
pub open spec fn level_v4(arch: Seq<char>) -> Seq<char> {
    arch + "+avx+avx2+avx512bw+avx512cd+avx512dq+avx512f+avx512vl+bmi1+bmi2+cmpxchg16b+f16c+fma+lzcnt+movbe+popcnt+sse3+sse4.1+sse4.2+ssse3+xsave"@
}

/// x86-64-v3 on the given architecture.
pub open spec fn level_v3(arch: Seq<char>) -> Seq<char> {
    arch + "+avx+avx2+bmi1+bmi2+cmpxchg16b+f16c+fma+lzcnt+movbe+popcnt+sse3+sse4.1+sse4.2+ssse3+xsave"@
}

/// x86-64-v2 on the given architecture.
pub open spec fn level_v2(arch: Seq<char>) -> Seq<char> {
    arch + "+cmpxchg16b+popcnt+sse3+sse4.1+sse4.2+ssse3"@
}

/// Every target string, with whether the toolchain can use it.
pub open spec fn level_table(tc: Toolchain) -> Seq<(Seq<char>, bool)> {
    seq![
        (level_v4("x86_64"@), tc.since_1_89),
        (level_v3("x86_64"@), true),
        (level_v2("x86_64"@), true),
        (level_v4("x86"@), tc.since_1_89),
        (level_v3("x86"@), true),
        (level_v2("x86"@), true),
        ("x86+sse+sse2"@, true),
        ("aarch64+fp16+sve+sve2"@, true),
        ("aarch64+fp16+sve"@, true),
        ("arm+neon"@, tc.nightly),
        ("loongarch64+lasx"@, tc.since_1_89),
        ("mips+msa"@, tc.nightly),
        ("mips64+msa"@, tc.nightly),
        ("powerpc+altivec+vsx"@, tc.nightly),
        ("powerpc+altivec"@, tc.nightly),
        ("powerpc64+altivec+vsx"@, tc.nightly),
        ("powerpc64+altivec"@, tc.nightly),
        ("riscv32+v"@, tc.nightly),
        ("riscv64+v"@, tc.nightly),
        ("s390x+vector+vector-enhancements-1+vector-enhancements-2+vector-enhancements-3"@, tc.since_1_93),
        ("s390x+vector+vector-enhancements-1+vector-enhancements-2"@, tc.since_1_93),
        ("s390x+vector+vector-enhancements-1"@, tc.since_1_93),
        ("s390x+vector"@, tc.since_1_93),
    ]
}

/// The strings of the entries that are usable, in order.
pub open spec fn usable(table: Seq<(Seq<char>, bool)>) -> Seq<Seq<char>>
    decreases table.len(),
{
    if table.len() == 0 {
        Seq::empty()
    } else if table.last().1 {
        usable(table.drop_last()).push(table.last().0)
    } else {
        usable(table.drop_last())
    }
}

/// Appends `arch` and then `rest` to a new string.
fn level(arch: &str, rest: &str) -> (r: String)
    ensures
        r@ == arch@ + rest@,
{
    let mut s = String::new();
    crate::text::append_str(&mut s, arch);
    crate::text::append_str(&mut s, rest);
    s
}

/// The targets that the toolchain can use, parsed.
pub fn simd_targets(tc: Toolchain) -> (r: Result<Vec<Target>, OptionsError>)
    ensures
        match r {
            Ok(ts) => parse_all(usable(level_table(tc))) == Ok::<_, OptionsErrorKind>(target_sets(ts@))
                && forall|k: int| 0 <= k < ts@.len() ==> (#[trigger] ts@[k]).wf(),
            Err(e) => parse_all(usable(level_table(tc))) == Err::<Seq<(Seq<char>, Set<Seq<char>>)>, _>(e.kind()),
        },
{
    let v4 = "+avx+avx2+avx512bw+avx512cd+avx512dq+avx512f+avx512vl+bmi1+bmi2+cmpxchg16b+f16c+fma+lzcnt+movbe+popcnt+sse3+sse4.1+sse4.2+ssse3+xsave";
    let v3 = "+avx+avx2+bmi1+bmi2+cmpxchg16b+f16c+fma+lzcnt+movbe+popcnt+sse3+sse4.1+sse4.2+ssse3+xsave";
    let v2 = "+cmpxchg16b+popcnt+sse3+sse4.1+sse4.2+ssse3";
    let mut table: Vec<(String, bool)> = Vec::new();
    table.push((level("x86_64", v4), tc.since_1_89));
    table.push((level("x86_64", v3), true));
    table.push((level("x86_64", v2), true));
    table.push((level("x86", v4), tc.since_1_89));
    table.push((level("x86", v3), true));
    table.push((level("x86", v2), true));
    table.push(("x86+sse+sse2".to_string(), true));
    table.push(("aarch64+fp16+sve+sve2".to_string(), true));
    table.push(("aarch64+fp16+sve".to_string(), true));
    table.push(("arm+neon".to_string(), tc.nightly));
    table.push(("loongarch64+lasx".to_string(), tc.since_1_89));
    table.push(("mips+msa".to_string(), tc.nightly));
    table.push(("mips64+msa".to_string(), tc.nightly));
    table.push(("powerpc+altivec+vsx".to_string(), tc.nightly));
    table.push(("powerpc+altivec".to_string(), tc.nightly));
    table.push(("powerpc64+altivec+vsx".to_string(), tc.nightly));
    table.push(("powerpc64+altivec".to_string(), tc.nightly));
    table.push(("riscv32+v".to_string(), tc.nightly));
    table.push(("riscv64+v".to_string(), tc.nightly));
    table.push((
        "s390x+vector+vector-enhancements-1+vector-enhancements-2+vector-enhancements-3".to_string(),
        tc.since_1_93,
    ));
    table.push(("s390x+vector+vector-enhancements-1+vector-enhancements-2".to_string(), tc.since_1_93));
    table.push(("s390x+vector+vector-enhancements-1".to_string(), tc.since_1_93));
    table.push(("s390x+vector".to_string(), tc.since_1_93));
    let ghost spec_table = level_table(tc);
    assert(table@.len() == spec_table.len());
    assert(forall|k: int| 0 <= k < table@.len() ==> (#[trigger] table@[k]).0@ == spec_table[k].0 && table@[k].1
        == spec_table[k].1);
    let mut strs: Vec<String> = Vec::new();
    let mut i: usize = 0;
    assert(spec_table.take(0) =~= Seq::<(Seq<char>, bool)>::empty());
    assert(crate::text::views(strs@) =~= Seq::<Seq<char>>::empty());
    while i < table.len()
        invariant
            spec_table == level_table(tc),
            table@.len() == spec_table.len(),
            forall|k: int| 0 <= k < table@.len() ==> (#[trigger] table@[k]).0@ == spec_table[k].0 && table@[k].1
                == spec_table[k].1,
            i <= table@.len(),
            crate::text::views(strs@) == usable(spec_table.take(i as int)),
        decreases table@.len() - i,
    {
        assert(spec_table.take(i + 1).drop_last() =~= spec_table.take(i as int));
        assert(spec_table.take(i + 1).last() == spec_table[i as int]);
        if table[i].1 {
            let ghost before = crate::text::views(strs@);
            strs.push(table[i].0.clone());
            assert(crate::text::views(strs@) =~= before.push(spec_table[i as int].0));
        }
        i += 1;
    }
    assert(spec_table.take(table@.len() as int) =~= spec_table);
    let ghost ss = crate::text::views(strs@);
    let mut out: Vec<Target> = Vec::new();
    let mut j: usize = 0;
    assert(ss.take(0) =~= Seq::<Seq<char>>::empty());
    assert(target_sets(out@) =~= Seq::<(Seq<char>, Set<Seq<char>>)>::empty());
    while j < strs.len()
        invariant
            ss == crate::text::views(strs@),
            ss == usable(level_table(tc)),
            j <= strs@.len(),
            parse_all(ss.take(j as int)) == Ok::<_, OptionsErrorKind>(target_sets(out@)),
            forall|k: int| 0 <= k < out@.len() ==> (#[trigger] out@[k]).wf(),
        decreases strs@.len() - j,
    {
        assert(ss.take(j + 1).drop_last() =~= ss.take(j as int));
        assert(ss.take(j + 1).last() == strs@[j as int]@);
        match Target::parse(strs[j].as_str()) {
            Err(e) => {
                proof {
                    lemma_parse_all_error(ss, j + 1, ss.len() as int);
                }
                return Err(OptionsError::BadTarget(e));
            },
            Ok(t) => {
                let ghost before = target_sets(out@);
                out.push(t);
                assert(target_sets(out@) =~= before.push((t.arch_view(), t.features_view().to_set())));
            },
        }
        j += 1;
    }
    assert(ss.take(strs@.len() as int) =~= ss);
    Ok(out)
}

} // verus!
