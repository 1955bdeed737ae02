//! The decisions of a multiversioned function: which dispatcher it gets,
//! what its versions are called, and which version a call runs.
use vstd::prelude::*;
use crate::cache::{call_spec, record_choice, DispatchCache};
use crate::target::Target;
use crate::text::{append_str, views, join_spec, without_char};

verus! {

/// The dispatcher asked for.
#[derive(PartialEq, Eq, Structural, Clone, Copy, Debug)]
pub enum DispatchMethod {
    Default,
    Static,
    Direct,
    Indirect,
}

/// What of a function's signature matters to dispatch.
#[derive(PartialEq, Eq, Structural, Clone, Copy, Debug)]
pub struct FnShape {
    /// The function has type or const generic parameters.
    pub has_type_params: bool,
    pub is_async: bool,
    /// An argument or the return type is an `impl Trait`.
    pub has_impl_trait: bool,
}

/// The dispatcher that is generated.
#[derive(PartialEq, Eq, Structural, Clone, Copy, Debug)]
pub enum Dispatcher {
    /// Features known at compile time select the version.
    Static,
    /// Features detected once at run time select the version, called directly.
    Direct,
    /// Features detected once at run time select a function pointer.
    Indirect,
    /// Indirect, except under retpoline target features, where it is direct.
    IndirectUnlessRetpoline,
}

/// Why a dispatcher cannot be generated.
#[derive(PartialEq, Eq, Structural, Clone, Copy, Debug)]
pub enum DispatchError {
    IndirectWithoutStd,
    IndirectGeneric,
    IndirectAsync,
    IndirectImplTrait,
    DirectWithoutStd,
}

/// The dispatcher that a method gives a function, given whether `std` (and
/// so run-time feature detection) is available.
pub open spec fn dispatcher_spec(method: DispatchMethod, std: bool, shape: FnShape) -> Result<Dispatcher, DispatchError> {
    match method {
        DispatchMethod::Default => if std {
            if shape.has_type_params || shape.is_async || shape.has_impl_trait {
                Ok(Dispatcher::Direct)
            } else {
                Ok(Dispatcher::IndirectUnlessRetpoline)
            }
        } else {
            Ok(Dispatcher::Static)
        },
        DispatchMethod::Static => Ok(Dispatcher::Static),
        DispatchMethod::Direct => if std {
            Ok(Dispatcher::Direct)
        } else {
            Err(DispatchError::DirectWithoutStd)
        },
        DispatchMethod::Indirect => if !std {
            Err(DispatchError::IndirectWithoutStd)
        } else if shape.has_type_params {
            Err(DispatchError::IndirectGeneric)
        } else if shape.is_async {
            Err(DispatchError::IndirectAsync)
        } else if shape.has_impl_trait {
            Err(DispatchError::IndirectImplTrait)
        } else {
            Ok(Dispatcher::Indirect)
        },
    }
}

/// Chooses the dispatcher. By default: static without `std`; direct for
/// generic, `async` and `impl Trait` functions, which cannot be held in a
/// function pointer; otherwise indirect, but direct under retpolines.
pub fn choose_dispatcher(method: DispatchMethod, std: bool, shape: FnShape) -> (r: Result<Dispatcher, DispatchError>)
    ensures
        r == dispatcher_spec(method, std, shape),
{
    match method {
        DispatchMethod::Default => if std {
            if shape.has_type_params || shape.is_async || shape.has_impl_trait {
                Ok(Dispatcher::Direct)
            } else {
                Ok(Dispatcher::IndirectUnlessRetpoline)
            }
        } else {
            Ok(Dispatcher::Static)
        },
        DispatchMethod::Static => Ok(Dispatcher::Static),
        DispatchMethod::Direct => if std {
            Ok(Dispatcher::Direct)
        } else {
            Err(DispatchError::DirectWithoutStd)
        },
        DispatchMethod::Indirect => if !std {
            Err(DispatchError::IndirectWithoutStd)
        } else if shape.has_type_params {
            Err(DispatchError::IndirectGeneric)
        } else if shape.is_async {
            Err(DispatchError::IndirectAsync)
        } else if shape.has_impl_trait {
            Err(DispatchError::IndirectImplTrait)
        } else {
            Ok(Dispatcher::Indirect)
        },
    }
}

/// A target as plain values: its architecture and sorted features.
pub open spec fn tv(t: Target) -> (Seq<char>, Seq<Seq<char>>) {
    (t.arch_view(), t.features_view())
}

/// The values of a list of targets.
pub open spec fn tvs(ts: Seq<Target>) -> Seq<(Seq<char>, Seq<Seq<char>>)> {
    ts.map_values(|t: Target| tv(t))
}

/// The name of an identifier without the `r#` of a raw identifier:
/// `r#type` names `type`.
pub open spec fn bare_ident(ident: Seq<char>) -> Seq<char> {
    if ident.len() >= 2 && ident[0] == 'r' && ident[1] == '#' {
        ident.skip(2)
    } else {
        ident
    }
}

/// The name of the version of function `ident` compiled for `target`; the
/// version for no target, or for a target without features, is the default.
/// A raw identifier gives its bare name, so that the result is an identifier.
pub open spec fn feature_fn_name_spec(ident: Seq<char>, features: Option<Seq<Seq<char>>>) -> Seq<char> {
    match features {
        Some(fs) => if fs.len() > 0 {
            bare_ident(ident) + "_"@ + without_char(join_spec(fs, '_'), '.') + "_version"@
        } else {
            bare_ident(ident) + "_default_version"@
        },
        None => bare_ident(ident) + "_default_version"@,
    }
}

/// Appends the name of `ident`, without the `r#` of a raw identifier.
fn append_bare_ident(out: &mut String, ident: &str)
    ensures
        final(out)@ == old(out)@ + bare_ident(ident@),
{
    let n = ident.unicode_len();
    if n >= 2 && ident.get_char(0) == 'r' && ident.get_char(1) == '#' {
        let rest = ident.substring_char(2, n);
        assert(rest@ =~= ident@.skip(2));
        append_str(out, rest);
    } else {
        append_str(out, ident);
    }
}

/// The name of the version of function `ident` compiled for `target`.
pub fn feature_fn_name(ident: &str, target: Option<&Target>) -> (r: String)
    ensures
        r@ == feature_fn_name_spec(ident@, match target { Some(t) => Some(t.features_view()), None => None }),
{
    let mut name = String::new();
    append_bare_ident(&mut name, ident);
    match target {
        Some(t) => {
            if t.has_features_specified() {
                append_str(&mut name, "_");
                let fs = t.features_string();
                append_str(&mut name, fs.as_str());
                append_str(&mut name, "_version");
                return name;
            }
        },
        None => {},
    }
    append_str(&mut name, "_default_version");
    name
}

/// A target matches when it has features, is for architecture `arch`, and
/// every one of its features is available.
pub open spec fn matches_spec(t: (Seq<char>, Seq<Seq<char>>), arch: Seq<char>, available: Seq<Seq<char>>) -> bool {
    &&& t.1.len() > 0
    &&& t.0 == arch
    &&& forall|k: int| 0 <= k < t.1.len() ==> available.contains(#[trigger] t.1[k])
}

/// The first target, in priority order, that matches.
pub open spec fn first_match(ts: Seq<(Seq<char>, Seq<Seq<char>>)>, arch: Seq<char>, available: Seq<Seq<char>>) -> Option<int>
    decreases ts.len(),
{
    if ts.len() == 0 {
        None
    } else {
        match first_match(ts.drop_last(), arch, available) {
            Some(i) => Some(i),
            None => if matches_spec(ts.last(), arch, available) {
                Some(ts.len() - 1)
            } else {
                None
            },
        }
    }
}

pub proof fn lemma_first_match_is_first(ts: Seq<(Seq<char>, Seq<Seq<char>>)>, arch: Seq<char>, available: Seq<Seq<char>>)
    ensures
        match first_match(ts, arch, available) {
            Some(i) => 0 <= i < ts.len() && matches_spec(ts[i], arch, available)
                && forall|j: int| 0 <= j < i ==> !matches_spec(#[trigger] ts[j], arch, available),
            None => forall|j: int| 0 <= j < ts.len() ==> !matches_spec(#[trigger] ts[j], arch, available),
        },
    decreases ts.len(),
{
    if ts.len() > 0 {
        lemma_first_match_is_first(ts.drop_last(), arch, available);
        match first_match(ts.drop_last(), arch, available) {
            Some(i) => {
                assert forall|j: int| 0 <= j < i implies !matches_spec(#[trigger] ts[j], arch, available) by {
                    assert(ts[j] == ts.drop_last()[j]);
                }
                assert(ts[i] == ts.drop_last()[i]);
            },
            None => {
                assert forall|j: int| 0 <= j < ts.len() - 1 implies !matches_spec(#[trigger] ts[j], arch, available) by {
                    assert(ts[j] == ts.drop_last()[j]);
                }
            },
        }
    }
}

pub(crate) fn all_available(features: &[String], available: &[String]) -> (r: bool)
    ensures
        r == forall|k: int| 0 <= k < features@.len() ==> views(available@).contains(#[trigger] views(features@)[k]),
{
    let mut k: usize = 0;
    while k < features.len()
        invariant
            0 <= k <= features@.len(),
            forall|m: int| 0 <= m < k ==> views(available@).contains(#[trigger] views(features@)[m]),
        decreases features@.len() - k,
    {
        let mut found = false;
        let mut j: usize = 0;
        while j < available.len()
            invariant
                k < features@.len(),
                0 <= j <= available@.len(),
                !found ==> forall|m: int| 0 <= m < j ==> available@[m]@ != features@[k as int]@,
                found ==> views(available@).contains(features@[k as int]@),
            decreases available@.len() - j,
        {
            if available[j] == features[k] {
                assert(views(available@)[j as int] == features@[k as int]@);
                found = true;
            }
            j += 1;
        }
        if !found {
            assert(!views(available@).contains(views(features@)[k as int])) by {
                if views(available@).contains(views(features@)[k as int]) {
                    let m = choose|m: int| 0 <= m < views(available@).len() && views(available@)[m] == views(features@)[k as int];
                    assert(available@[m]@ == features@[k as int]@);
                }
            }
            return false;
        }
        k += 1;
    }
    true
}

/// The index of the first target, in priority order, that has features, is
/// for architecture `arch`, and whose features are all available; `None`
/// means the default version.
pub fn select_target(targets: &[Target], arch: &str, available: &[String]) -> (r: Option<usize>)
    ensures
        r == match first_match(tvs(targets@), arch@, views(available@)) {
            Some(i) => Some(i as usize),
            None => None::<usize>,
        },
{
    let ghost ts = tvs(targets@);
    let mut i: usize = 0;
    assert(ts.take(0) =~= Seq::<(Seq<char>, Seq<Seq<char>>)>::empty());
    while i < targets.len()
        invariant
            ts == tvs(targets@),
            i <= targets@.len(),
            first_match(ts.take(i as int), arch@, views(available@)) is None,
        decreases targets@.len() - i,
    {
        let t = &targets[i];
        assert(ts.take(i + 1).drop_last() =~= ts.take(i as int));
        assert(ts.take(i + 1).last() == tv(*t));
        if t.has_features_specified() && crate::strings::eq(t.arch(), arch) && all_available(t.features(), available) {
            assert(first_match(ts.take(i + 1), arch@, views(available@)) == Some(i as int));
            proof {
                lemma_first_match_prefix(ts, i + 1, arch@, views(available@));
            }
            return Some(i);
        }
        i += 1;
    }
    assert(ts.take(targets@.len() as int) =~= ts);
    None
}

/// A match within a prefix is the match of the whole list.
pub proof fn lemma_first_match_prefix(ts: Seq<(Seq<char>, Seq<Seq<char>>)>, n: int, arch: Seq<char>, available: Seq<Seq<char>>)
    requires
        0 <= n <= ts.len(),
        first_match(ts.take(n), arch, available) is Some,
    ensures
        first_match(ts, arch, available) == first_match(ts.take(n), arch, available),
    decreases ts.len() - n,
{
    if n < ts.len() {
        assert(ts.take(n + 1).drop_last() =~= ts.take(n));
        assert(first_match(ts.take(n + 1), arch, available) == first_match(ts.take(n), arch, available));
        lemma_first_match_prefix(ts, n + 1, arch, available);
    } else {
        assert(ts.take(n) =~= ts);
    }
}

} // verus!

verus! {

/// The list with every element after its first occurrence left out.
pub open spec fn dedup_spec<T>(s: Seq<T>) -> Seq<T>
    decreases s.len(),
{
    if s.len() == 0 {
        Seq::empty()
    } else {
        let d = dedup_spec(s.drop_last());
        if d.contains(s.last()) {
            d
        } else {
            d.push(s.last())
        }
    }
}

/// Deduplication keeps exactly the elements of the list, each once.
pub proof fn lemma_dedup_elements<T>(s: Seq<T>)
    ensures
        forall|x: T| dedup_spec(s).contains(x) <==> s.contains(x),
        forall|i: int, j: int| 0 <= i < j < dedup_spec(s).len() ==> dedup_spec(s)[i] != dedup_spec(s)[j],
    decreases s.len(),
{
    if s.len() > 0 {
        let t = s.drop_last();
        lemma_dedup_elements(t);
        let d = dedup_spec(t);
        assert forall|x: T| s.contains(x) implies dedup_spec(s).contains(x) by {
            let k = choose|k: int| 0 <= k < s.len() && s[k] == x;
            if k < s.len() - 1 {
                assert(t[k] == x);
                assert(t.contains(x));
                assert(d.contains(x));
                let m = choose|m: int| 0 <= m < d.len() && d[m] == x;
                assert(dedup_spec(s)[m] == x);
            } else {
                if !d.contains(s.last()) {
                    assert(dedup_spec(s)[d.len() as int] == x);
                }
            }
        }
        assert forall|x: T| dedup_spec(s).contains(x) implies s.contains(x) by {
            let m = choose|m: int| 0 <= m < dedup_spec(s).len() && dedup_spec(s)[m] == x;
            if m < d.len() {
                assert(d[m] == x);
                assert(d.contains(x));
                assert(t.contains(x));
                let k = choose|k: int| 0 <= k < t.len() && t[k] == x;
                assert(s[k] == x);
            } else {
                assert(s[s.len() - 1] == x);
            }
        }
    }
}

/// The first matching target of the deduplicated list is the first matching
/// target of the list itself: dropping duplicate targets keeps priorities.
pub proof fn lemma_dedup_preserves_selection(
    ts: Seq<(Seq<char>, Seq<Seq<char>>)>,
    arch: Seq<char>,
    available: Seq<Seq<char>>,
)
    ensures
        match first_match(ts, arch, available) {
            Some(i) => first_match(dedup_spec(ts), arch, available) matches Some(j) && 0 <= j < dedup_spec(ts).len() && dedup_spec(ts)[j] == ts[i],
            None => first_match(dedup_spec(ts), arch, available) is None,
        },
    decreases ts.len(),
{
    if ts.len() > 0 {
        let t = ts.drop_last();
        let d = dedup_spec(t);
        lemma_dedup_preserves_selection(t, arch, available);
        lemma_dedup_elements(t);
        lemma_first_match_is_first(d, arch, available);
        lemma_first_match_is_first(t, arch, available);
        match first_match(t, arch, available) {
            Some(i) => {
                let j = first_match(d, arch, available)->0;
                if d.contains(ts.last()) {
                } else {
                    assert(d.push(ts.last()).drop_last() =~= d);
                }
                assert(ts[i] == t[i]);
            },
            None => {
                if d.contains(ts.last()) {
                    assert(t.contains(ts.last()));
                    let k = choose|k: int| 0 <= k < t.len() && t[k] == ts.last();
                    assert(!matches_spec(t[k], arch, available));
                } else {
                    assert(d.push(ts.last()).drop_last() =~= d);
                }
            },
        }
    }
}

/// The targets with every repeated target left out; the first occurrence,
/// and so the priority, of each is kept.
pub fn dedup_targets(targets: &[Target]) -> (r: Vec<Target>)
    ensures
        tvs(r@) == dedup_spec(tvs(targets@)),
        (forall|i: int| 0 <= i < targets@.len() ==> (#[trigger] targets@[i]).wf()) ==> forall|j: int|
            0 <= j < r@.len() ==> (#[trigger] r@[j]).wf(),
{
    let ghost all_wf = forall|i: int| 0 <= i < targets@.len() ==> (#[trigger] targets@[i]).wf();
    let ghost ts = tvs(targets@);
    let mut out: Vec<Target> = Vec::new();
    let mut i: usize = 0;
    assert(ts.take(0) =~= Seq::<(Seq<char>, Seq<Seq<char>>)>::empty());
    while i < targets.len()
        invariant
            ts == tvs(targets@),
            i <= targets@.len(),
            tvs(out@) == dedup_spec(ts.take(i as int)),
            all_wf == forall|i: int| 0 <= i < targets@.len() ==> (#[trigger] targets@[i]).wf(),
            all_wf ==> forall|j: int| 0 <= j < out@.len() ==> (#[trigger] out@[j]).wf(),
        decreases targets@.len() - i,
    {
        let t = &targets[i];
        assert(ts.take(i + 1).drop_last() =~= ts.take(i as int));
        assert(ts.take(i + 1).last() == tv(*t));
        let mut seen = false;
        let mut j: usize = 0;
        while j < out.len()
            invariant
                i < targets@.len(),
                *t == targets@[i as int],
                j <= out@.len(),
                !seen ==> forall|m: int| 0 <= m < j ==> tv(out@[m]) != tv(*t),
                seen ==> tvs(out@).contains(tv(*t)),
            decreases out@.len() - j,
        {
            if out[j].same_target(t) {
                assert(tvs(out@)[j as int] == tv(*t));
                seen = true;
            }
            j += 1;
        }
        if !seen {
            assert(!tvs(out@).contains(tv(*t))) by {
                if tvs(out@).contains(tv(*t)) {
                    let m = choose|m: int| 0 <= m < tvs(out@).len() && tvs(out@)[m] == tv(*t);
                    assert(tv(out@[m]) == tv(*t));
                }
            }
            let ghost before = tvs(out@);
            out.push(t.copy());
            assert(tvs(out@) =~= before.push(tv(*t)));
        }
        i += 1;
    }
    assert(ts.take(targets@.len() as int) =~= ts);
    out
}

/// The first target, in order, for architecture `arch`.
pub open spec fn first_for_arch(ts: Seq<(Seq<char>, Seq<Seq<char>>)>, arch: Seq<char>) -> Option<int>
    decreases ts.len(),
{
    if ts.len() == 0 {
        None
    } else {
        match first_for_arch(ts.drop_last(), arch) {
            Some(i) => Some(i),
            None => if ts.last().0 == arch {
                Some(ts.len() - 1)
            } else {
                None
            },
        }
    }
}

/// Dispatch is skipped, and the default version called, when no target is
/// for the compile-time architecture, or when the features enabled at
/// compile time already hold all features of its first target.
pub open spec fn elided_spec(ts: Seq<(Seq<char>, Seq<Seq<char>>)>, arch: Seq<char>, enabled: Seq<Seq<char>>) -> bool {
    match first_for_arch(ts, arch) {
        None => true,
        Some(i) => forall|k: int| 0 <= k < ts[i].1.len() ==> enabled.contains(#[trigger] ts[i].1[k]),
    }
}

/// Whether the dispatcher is skipped for a build for `arch` with the
/// `enabled` target features.
pub fn dispatch_elided(targets: &[Target], arch: &str, enabled: &[String]) -> (r: bool)
    ensures
        r == elided_spec(tvs(targets@), arch@, views(enabled@)),
{
    let ghost ts = tvs(targets@);
    let mut i: usize = 0;
    assert(ts.take(0) =~= Seq::<(Seq<char>, Seq<Seq<char>>)>::empty());
    while i < targets.len()
        invariant
            ts == tvs(targets@),
            i <= targets@.len(),
            first_for_arch(ts.take(i as int), arch@) is None,
        decreases targets@.len() - i,
    {
        assert(ts.take(i + 1).drop_last() =~= ts.take(i as int));
        assert(ts.take(i + 1).last() == tv(targets@[i as int]));
        if crate::strings::eq(targets[i].arch(), arch) {
            assert(first_for_arch(ts.take(i + 1), arch@) == Some(i as int));
            proof {
                lemma_first_for_arch_prefix(ts, i + 1, arch@);
            }
            return all_available(targets[i].features(), enabled);
        }
        i += 1;
    }
    assert(ts.take(targets@.len() as int) =~= ts);
    true
}

pub proof fn lemma_first_for_arch_prefix(ts: Seq<(Seq<char>, Seq<Seq<char>>)>, n: int, arch: Seq<char>)
    requires
        0 <= n <= ts.len(),
        first_for_arch(ts.take(n), arch) is Some,
    ensures
        first_for_arch(ts, arch) == first_for_arch(ts.take(n), arch),
    decreases ts.len() - n,
{
    if n < ts.len() {
        assert(ts.take(n + 1).drop_last() =~= ts.take(n));
        assert(first_for_arch(ts.take(n + 1), arch) == first_for_arch(ts.take(n), arch));
        lemma_first_for_arch_prefix(ts, n + 1, arch);
    } else {
        assert(ts.take(n) =~= ts);
    }
}

/// The version that a call of the multiversioned function runs: `None` for
/// the default version, `Some(i)` for the version of target `i`. `arch` and
/// `enabled` describe the build; `detected` are the features that run-time
/// detection finds.
pub open spec fn version_spec(
    ts: Seq<(Seq<char>, Seq<Seq<char>>)>,
    d: Dispatcher,
    arch: Seq<char>,
    enabled: Seq<Seq<char>>,
    detected: Seq<Seq<char>>,
) -> Option<int> {
    if elided_spec(ts, arch, enabled) {
        None
    } else {
        match d {
            Dispatcher::Static => first_match(ts, arch, enabled),
            _ => first_match(ts, arch, detected),
        }
    }
}

/// A call never runs a version whose features the machine lacks: the version
/// chosen is for the build's architecture, and each of its features is
/// enabled at compile time (static dispatch) or detected at run time (the
/// other dispatchers). Where no version is chosen, the default one runs.
pub proof fn lemma_dispatch_is_safe(
    ts: Seq<(Seq<char>, Seq<Seq<char>>)>,
    d: Dispatcher,
    arch: Seq<char>,
    enabled: Seq<Seq<char>>,
    detected: Seq<Seq<char>>,
)
    ensures
        version_spec(ts, d, arch, enabled, detected) matches Some(i) ==> {
            &&& 0 <= i < ts.len()
            &&& ts[i].0 == arch
            &&& ts[i].1.len() > 0
            &&& forall|k: int| 0 <= k < ts[i].1.len() ==> (if d == Dispatcher::Static {
                enabled
            } else {
                detected
            }).contains(#[trigger] ts[i].1[k])
        },
{
    lemma_first_match_is_first(ts, arch, enabled);
    lemma_first_match_is_first(ts, arch, detected);
}

/// The version chosen has the highest priority among those the machine
/// can run: no target listed before it could have run.
pub proof fn lemma_dispatch_takes_priority(
    ts: Seq<(Seq<char>, Seq<Seq<char>>)>,
    d: Dispatcher,
    arch: Seq<char>,
    enabled: Seq<Seq<char>>,
    detected: Seq<Seq<char>>,
)
    requires
        !elided_spec(ts, arch, enabled),
    ensures
        match version_spec(ts, d, arch, enabled, detected) {
            Some(i) => forall|j: int| 0 <= j < i ==> !matches_spec(
                #[trigger] ts[j],
                arch,
                if d == Dispatcher::Static { enabled } else { detected },
            ),
            None => forall|j: int| 0 <= j < ts.len() ==> !matches_spec(
                #[trigger] ts[j],
                arch,
                if d == Dispatcher::Static { enabled } else { detected },
            ),
        },
{
    lemma_first_match_is_first(ts, arch, enabled);
    lemma_first_match_is_first(ts, arch, detected);
}

/// The version that a call of the multiversioned function runs.
pub fn dispatched_version(
    targets: &[Target],
    d: Dispatcher,
    arch: &str,
    enabled: &[String],
    detected: &[String],
) -> (r: Option<usize>)
    ensures
        r == match version_spec(tvs(targets@), d, arch@, views(enabled@), views(detected@)) {
            Some(i) => Some(i as usize),
            None => None::<usize>,
        },
{
    if dispatch_elided(targets, arch, enabled) {
        None
    } else {
        match d {
            Dispatcher::Static => select_target(targets, arch, enabled),
            _ => select_target(targets, arch, detected),
        }
    }
}

/// The first call of a direct or indirect dispatcher, which keeps its choice:
/// the version that the build and the detected features select, stored and
/// run. Later calls run the stored version (see `crate::cache`).
pub fn resolve_dispatch(
    targets: &[Target],
    d: Dispatcher,
    arch: &str,
    enabled: &[String],
    detected: &[String],
) -> (r: (DispatchCache, Option<usize>))
    ensures
        (r.0, r.1, true) == call_spec(
            DispatchCache::Unresolved,
            match version_spec(tvs(targets@), d, arch@, views(enabled@), views(detected@)) {
                Some(i) => Some(i as usize),
                None => None::<usize>,
            },
        ),
{
    record_choice(dispatched_version(targets, d, arch, enabled, detected))
}

/// The name of the std macro that detects features of `arch` at run time.
pub open spec fn detector_name_spec(arch: Seq<char>) -> Seq<char> {
    if arch == "x86_64"@ {
        "is_x86_feature_detected"@
    } else if arch == "riscv32"@ || arch == "riscv64"@ {
        "is_riscv_feature_detected"@
    } else {
        "is_"@ + arch + "_feature_detected"@
    }
}

/// The name of the std macro that detects features of `arch` at run time.
pub fn feature_detector_name(arch: &str) -> (r: String)
    ensures
        r@ == detector_name_spec(arch@),
{
    let mut name = String::new();
    append_str(&mut name, "is_");
    if crate::strings::eq(arch, "x86_64") {
        append_str(&mut name, "x86");
    } else if crate::strings::eq(arch, "riscv32") || crate::strings::eq(arch, "riscv64") {
        append_str(&mut name, "riscv");
    } else {
        append_str(&mut name, arch);
    }
    append_str(&mut name, "_feature_detected");
    proof {
        reveal_strlit("is_");
        reveal_strlit("x86");
        reveal_strlit("riscv");
        reveal_strlit("_feature_detected");
        reveal_strlit("is_x86_feature_detected");
        reveal_strlit("is_riscv_feature_detected");
    }
    assert(name@ =~= detector_name_spec(arch@));
    name
}

/// The detection macro is std's macro for the architecture's family:
/// `is_x86_feature_detected` for both x86 names, `is_riscv_feature_detected`
/// for both RISC-V names, and `is_<arch>_feature_detected` for every other
/// architecture, such as `is_aarch64_feature_detected`.
pub proof fn lemma_detector_names(arch: Seq<char>)
    ensures
        arch == "x86"@ || arch == "x86_64"@ ==> detector_name_spec(arch) == "is_x86_feature_detected"@,
        arch == "riscv32"@ || arch == "riscv64"@ ==> detector_name_spec(arch) == "is_riscv_feature_detected"@,
        !(arch == "x86"@ || arch == "x86_64"@ || arch == "riscv32"@ || arch == "riscv64"@) ==> detector_name_spec(
            arch,
        ) == "is_"@ + arch + "_feature_detected"@,
{
    reveal_strlit("is_");
    reveal_strlit("x86");
    reveal_strlit("x86_64");
    reveal_strlit("_feature_detected");
    reveal_strlit("is_x86_feature_detected");
    reveal_strlit("riscv32");
    reveal_strlit("riscv64");
    reveal_strlit("is_riscv_feature_detected");
    if arch == "x86"@ {
        assert("is_"@ + arch + "_feature_detected"@ =~= "is_x86_feature_detected"@);
    }
    if arch == "riscv32"@ || arch == "riscv64"@ {
        assert(arch.len() != "x86_64"@.len());
        assert(arch != "x86_64"@);
    }
}

/// `first_for_arch` finds the first target of the architecture.
pub proof fn lemma_first_for_arch_is_first(ts: Seq<(Seq<char>, Seq<Seq<char>>)>, arch: Seq<char>)
    ensures
        match first_for_arch(ts, arch) {
            Some(i) => 0 <= i < ts.len() && ts[i].0 == arch && forall|j: int| 0 <= j < i ==> (#[trigger] ts[j]).0 != arch,
            None => forall|j: int| 0 <= j < ts.len() ==> (#[trigger] ts[j]).0 != arch,
        },
    decreases ts.len(),
{
    if ts.len() > 0 {
        let t = ts.drop_last();
        lemma_first_for_arch_is_first(t, arch);
        match first_for_arch(t, arch) {
            Some(i) => {
                assert(ts[i] == t[i]);
                assert forall|j: int| 0 <= j < i implies (#[trigger] ts[j]).0 != arch by {
                    assert(ts[j] == t[j]);
                }
            },
            None => {
                assert forall|j: int| 0 <= j < ts.len() - 1 implies (#[trigger] ts[j]).0 != arch by {
                    assert(ts[j] == t[j]);
                }
            },
        }
    }
}

/// Some listed index is of a target of architecture `a`.
pub open spec fn covered(ts: Seq<(Seq<char>, Seq<Seq<char>>)>, idx: Seq<usize>, a: Seq<char>) -> bool {
    exists|k: int| 0 <= k < idx.len() && ts[#[trigger] idx[k] as int].0 == a
}

/// The first target of each architecture, by index, in the order of the
/// targets: where dispatch can be skipped, these targets decide it.
pub fn first_target_per_arch(targets: &[Target]) -> (r: Vec<usize>)
    ensures
        forall|k: int| 0 <= k < r@.len() ==> (#[trigger] r@[k]) < targets@.len()
            && first_for_arch(tvs(targets@), tvs(targets@)[r@[k] as int].0) == Some(r@[k] as int),
        forall|k: int, l: int| 0 <= k < l < r@.len() ==> r@[k] < r@[l],
        forall|i: int| 0 <= i < targets@.len() ==> covered(tvs(targets@), r@, (#[trigger] tvs(targets@)[i]).0),
{
    let ghost ts = tvs(targets@);
    let mut out: Vec<usize> = Vec::new();
    let mut i: usize = 0;
    while i < targets.len()
        invariant
            ts == tvs(targets@),
            ts.len() == targets@.len(),
            i <= targets@.len(),
            forall|k: int| 0 <= k < out@.len() ==> (#[trigger] out@[k]) < i && forall|j: int|
                0 <= j < out@[k] ==> (#[trigger] ts[j]).0 != ts[out@[k] as int].0,
            forall|k: int, l: int| 0 <= k < l < out@.len() ==> out@[k] < out@[l],
            forall|j: int| 0 <= j < i ==> covered(ts, out@, (#[trigger] ts[j]).0),
        decreases targets@.len() - i,
    {
        let mut seen = false;
        let mut j: usize = 0;
        while j < i
            invariant
                ts == tvs(targets@),
                ts.len() == targets@.len(),
                i < targets@.len(),
                j <= i,
                !seen ==> forall|m: int| 0 <= m < j ==> (#[trigger] ts[m]).0 != ts[i as int].0,
                seen ==> exists|m: int| 0 <= m < i && (#[trigger] ts[m]).0 == ts[i as int].0,
            decreases i - j,
        {
            assert(ts[j as int] == tv(targets@[j as int]));
            assert(ts[i as int] == tv(targets@[i as int]));
            if crate::strings::eq(targets[j].arch(), targets[i].arch()) {
                seen = true;
            }
            j += 1;
        }
        let ghost before = out@;
        if !seen {
            out.push(i);
            assert forall|m: int| 0 <= m < i + 1 implies covered(ts, out@, (#[trigger] ts[m]).0) by {
                if m < i {
                    assert(covered(ts, before, ts[m].0));
                    let k = choose|k: int| 0 <= k < before.len() && ts[#[trigger] before[k] as int].0 == ts[m].0;
                    assert(out@[k] == before[k]);
                } else {
                    assert(out@[before.len() as int] == i);
                }
            }
        } else {
            proof {
                let w = choose|w: int| 0 <= w < i && (#[trigger] ts[w]).0 == ts[i as int].0;
                assert(covered(ts, out@, ts[w].0));
            }
        }
        i += 1;
    }
    assert forall|k: int| 0 <= k < out@.len() implies (#[trigger] out@[k]) < targets@.len()
        && first_for_arch(ts, ts[out@[k] as int].0) == Some(out@[k] as int) by {
        let x = out@[k] as int;
        let a = ts[x].0;
        lemma_first_for_arch_is_first(ts, a);
        match first_for_arch(ts, a) {
            Some(f) => {
                if f < x {
                    assert(ts[f].0 != ts[x].0);
                } else if f > x {
                    assert(ts[x].0 != a);
                }
            },
            None => {
                assert(ts[x].0 != a);
            },
        }
    }
    out
}

/// The condition under which the written function skips dispatch and calls
/// its default version, stated over the first target of each architecture:
/// the build's architecture is none of theirs, or the build enables every
/// feature of the one of its architecture. It holds exactly when dispatch is
/// elided.
pub proof fn lemma_skip_condition_is_elision(
    ts: Seq<(Seq<char>, Seq<Seq<char>>)>,
    firsts: Seq<usize>,
    arch: Seq<char>,
    enabled: Seq<Seq<char>>,
)
    requires
        forall|k: int| 0 <= k < firsts.len() ==> (#[trigger] firsts[k]) < ts.len()
            && first_for_arch(ts, ts[firsts[k] as int].0) == Some(firsts[k] as int),
        forall|i: int| 0 <= i < ts.len() ==> covered(ts, firsts, (#[trigger] ts[i]).0),
    ensures
        elided_spec(ts, arch, enabled) <==> ((forall|k: int| 0 <= k < firsts.len() ==> ts[#[trigger] firsts[k] as int].0 != arch)
            || exists|k: int|
            0 <= k < firsts.len() && ts[#[trigger] firsts[k] as int].0 == arch && forall|m: int|
                0 <= m < ts[firsts[k] as int].1.len() ==> enabled.contains(#[trigger] ts[firsts[k] as int].1[m])),
{
    lemma_first_for_arch_is_first(ts, arch);
    match first_for_arch(ts, arch) {
        None => {
            assert forall|k: int| 0 <= k < firsts.len() implies ts[#[trigger] firsts[k] as int].0 != arch by {
                if ts[firsts[k] as int].0 == arch {
                    assert(first_for_arch(ts, arch) == Some(firsts[k] as int));
                }
            }
        },
        Some(i) => {
            assert(covered(ts, firsts, ts[i].0));
            let k0 = choose|k: int| 0 <= k < firsts.len() && ts[#[trigger] firsts[k] as int].0 == ts[i].0;
            assert(first_for_arch(ts, arch) == Some(firsts[k0] as int));
            assert(firsts[k0] as int == i);
            assert forall|k: int| 0 <= k < firsts.len() && ts[#[trigger] firsts[k] as int].0 == arch implies firsts[k] as int == i by {
                assert(first_for_arch(ts, ts[firsts[k] as int].0) == Some(firsts[k] as int));
            }
        },
    }
}

/// The targets that have features, by index, in order: the versions that
/// run-time detection chooses among.
pub fn featured_targets(targets: &[Target]) -> (r: Vec<usize>)
    ensures
        forall|k: int| 0 <= k < r@.len() ==> (#[trigger] r@[k]) < targets@.len()
            && targets@[r@[k] as int].features_view().len() > 0,
        forall|k: int, l: int| 0 <= k < l < r@.len() ==> r@[k] < r@[l],
        forall|i: int| 0 <= i < targets@.len() && (#[trigger] targets@[i]).features_view().len() > 0 ==> r@.contains(
            i as usize,
        ),
{
    let mut out: Vec<usize> = Vec::new();
    let mut i: usize = 0;
    while i < targets.len()
        invariant
            i <= targets@.len(),
            forall|k: int| 0 <= k < out@.len() ==> (#[trigger] out@[k]) < i
                && targets@[out@[k] as int].features_view().len() > 0,
            forall|k: int, l: int| 0 <= k < l < out@.len() ==> out@[k] < out@[l],
            forall|j: int| 0 <= j < i && (#[trigger] targets@[j]).features_view().len() > 0 ==> out@.contains(j as usize),
        decreases targets@.len() - i,
    {
        if targets[i].has_features_specified() {
            let ghost before = out@;
            out.push(i);
            assert forall|j: int| 0 <= j < i + 1 && (#[trigger] targets@[j]).features_view().len() > 0 implies out@.contains(j as usize) by {
                if j < i {
                    let k = choose|k: int| 0 <= k < before.len() && before[k] == j as usize;
                    assert(out@[k] == j as usize);
                } else {
                    assert(out@[before.len() as int] == i);
                }
            }
        }
        i += 1;
    }
    out
}

/// What of a type matters to dispatch: where it mentions `impl Trait`.
#[derive(Debug)]
pub enum TypeModel {
    /// `impl Trait`.
    ImplTrait,
    /// A type built from others, such as a reference, a slice, an array, a
    /// tuple, a pointer, or a path with type arguments: its parts.
    Compound(Vec<TypeModel>),
    /// Any other type.
    Leaf,
}

/// Whether the type mentions `impl Trait` anywhere.
pub open spec fn mentions_impl_trait(t: &TypeModel) -> bool
    decreases t, 0nat,
{
    match t {
        TypeModel::ImplTrait => true,
        TypeModel::Leaf => false,
        TypeModel::Compound(parts) => any_mentions_impl_trait(parts@),
    }
}

/// Whether one of the types mentions `impl Trait`.
pub open spec fn any_mentions_impl_trait(ts: Seq<TypeModel>) -> bool
    decreases ts, 1nat,
{
    if ts.len() == 0 {
        false
    } else {
        any_mentions_impl_trait(ts.drop_last()) || mentions_impl_trait(&ts.last())
    }
}

/// Whether the type mentions `impl Trait` anywhere.
#[verifier::loop_isolation(false)]
pub fn contains_impl_trait(t: &TypeModel) -> (r: bool)
    ensures
        r == mentions_impl_trait(t),
    decreases t,
{
    match t {
        TypeModel::ImplTrait => true,
        TypeModel::Leaf => false,
        TypeModel::Compound(parts) => {
            assert(*parts == (*t)->Compound_0);
            assert(decreases_to!(*t => (*t)->Compound_0));
            assert(decreases_to!(*parts => parts@));
            let mut i: usize = 0;
            assert(parts@.take(0) =~= Seq::<TypeModel>::empty());
            while i < parts.len()
                invariant
                    i <= parts@.len(),
                    !any_mentions_impl_trait(parts@.take(i as int)),
                decreases parts@.len() - i,
            {
                assert(decreases_to!(parts@ => parts@[i as int]));
                assert(parts@.take(i + 1).drop_last() =~= parts@.take(i as int));
                assert(parts@.take(i + 1).last() == parts@[i as int]);
                if contains_impl_trait(&parts[i]) {
                    proof {
                        lemma_mentions_prefix(parts@, i + 1);
                    }
                    return true;
                }
                i += 1;
            }
            assert(parts@.take(parts@.len() as int) =~= parts@);
            false
        },
    }
}

proof fn lemma_mentions_prefix(ts: Seq<TypeModel>, n: int)
    requires
        0 <= n <= ts.len(),
        any_mentions_impl_trait(ts.take(n)),
    ensures
        any_mentions_impl_trait(ts),
    decreases ts.len() - n,
{
    if n < ts.len() {
        assert(ts.take(n + 1).drop_last() =~= ts.take(n));
        lemma_mentions_prefix(ts, n + 1);
    } else {
        assert(ts.take(n) =~= ts);
    }
}

/// What of a signature matters to dispatch, from whether it has type or
/// const parameters, whether it is `async`, and its parameter and return
/// types: an `impl Trait` anywhere in them, nested too, counts.
pub fn fn_shape(has_type_params: bool, is_async: bool, params: &Vec<TypeModel>, output: Option<&TypeModel>) -> (r: FnShape)
    ensures
        r == (FnShape {
            has_type_params,
            is_async,
            has_impl_trait: any_mentions_impl_trait(params@) || match output {
                Some(o) => mentions_impl_trait(o),
                None => false,
            },
        }),
{
    let mut found = false;
    let mut i: usize = 0;
    assert(params@.take(0) =~= Seq::<TypeModel>::empty());
    while i < params.len()
        invariant
            i <= params@.len(),
            found == any_mentions_impl_trait(params@.take(i as int)),
        decreases params@.len() - i,
    {
        assert(params@.take(i + 1).drop_last() =~= params@.take(i as int));
        assert(params@.take(i + 1).last() == params@[i as int]);
        let m = contains_impl_trait(&params[i]);
        found = found || m;
        i += 1;
    }
    assert(params@.take(params@.len() as int) =~= params@);
    let in_output = match output {
        Some(o) => contains_impl_trait(o),
        None => false,
    };
    FnShape { has_type_params, is_async, has_impl_trait: found || in_output }
}

} // verus!
