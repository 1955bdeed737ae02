//! The options of the `multiversion` attribute: `targets`, `attrs` and
//! `dispatcher`, as in `#[multiversion(targets("x86_64+avx2"), dispatcher = "static")]`.
use vstd::prelude::*;
use crate::dispatch::DispatchMethod;
use crate::target::{Target, TargetError, TargetErrorKind, parse_spec, target_arch_of, specified_features_of};
use crate::text::{join_spec, split_spec};
use crate::strings::eq;

verus! {

/// A literal written in the attribute.
#[derive(Debug)]
pub enum Lit {
    Str(String),
    /// Any literal other than a string.
    Other,
}

/// An item inside a parenthesized option, such as one target of `targets(..)`.
#[derive(Debug)]
pub enum Nested {
    Lit(Lit),
    /// Anything that is not a literal.
    Meta,
}

/// What follows an option's name.
#[derive(Debug)]
pub enum MetaArg {
    /// The bare name.
    Path,
    /// A parenthesized list: `name(..)`.
    List(Vec<Nested>),
    /// `name = literal`.
    NameValue(Lit),
}

/// One comma-separated entry of the attribute.
#[derive(Debug)]
pub enum OptionEntry {
    /// A bare literal.
    Lit,
    /// A named option; `key` is `None` where the name is a path of more than
    /// one segment.
    Meta { key: Option<String>, arg: MetaArg },
}

/// The configuration of a multiversioned function.
#[derive(Debug)]
pub struct MultiversionConfig {
    pub targets: Vec<Target>,
    /// The entry that holds the `attrs(..)` list, if any.
    pub attrs_entry: Option<usize>,
    pub dispatcher: DispatchMethod,
}

/// Why the attribute's options were refused.
pub enum OptionsErrorKind {
    ImplTraitReturn,
    ExpectedMeta(int),
    ExpectedIdentifier(int),
    DuplicateKey(int),
    ExpectedTargets,
    BadTarget(TargetErrorKind),
    TargetWithoutFeatures,
    ExpectedString,
    ExpectedTargetString,
    ExpectedSimd,
    ExpectedTargetList,
    ExpectedAttributeList,
    ExpectedNameValue,
    UnknownDispatcher,
    UnexpectedKey(int),
}

/// Why the attribute's options were refused.
#[derive(Debug)]
pub enum OptionsError {
    /// The function returns an `impl Trait`.
    ImplTraitReturn,
    /// Entry `i` is a bare literal.
    ExpectedMeta(usize),
    /// Entry `i` is named by a path.
    ExpectedIdentifier(usize),
    /// Entry `i` repeats an earlier name.
    DuplicateKey(usize),
    ExpectedTargets,
    BadTarget(TargetError),
    TargetWithoutFeatures,
    ExpectedString,
    ExpectedTargetString,
    ExpectedSimd,
    ExpectedTargetList,
    ExpectedAttributeList,
    ExpectedNameValue,
    UnknownDispatcher,
    /// Entry `i` is no known option.
    UnexpectedKey(usize),
}

impl OptionsError {
    pub open spec fn kind(&self) -> OptionsErrorKind {
        match self {
            OptionsError::ImplTraitReturn => OptionsErrorKind::ImplTraitReturn,
            OptionsError::ExpectedMeta(i) => OptionsErrorKind::ExpectedMeta(*i as int),
            OptionsError::ExpectedIdentifier(i) => OptionsErrorKind::ExpectedIdentifier(*i as int),
            OptionsError::DuplicateKey(i) => OptionsErrorKind::DuplicateKey(*i as int),
            OptionsError::ExpectedTargets => OptionsErrorKind::ExpectedTargets,
            OptionsError::BadTarget(e) => OptionsErrorKind::BadTarget(e.kind()),
            OptionsError::TargetWithoutFeatures => OptionsErrorKind::TargetWithoutFeatures,
            OptionsError::ExpectedString => OptionsErrorKind::ExpectedString,
            OptionsError::ExpectedTargetString => OptionsErrorKind::ExpectedTargetString,
            OptionsError::ExpectedSimd => OptionsErrorKind::ExpectedSimd,
            OptionsError::ExpectedTargetList => OptionsErrorKind::ExpectedTargetList,
            OptionsError::ExpectedAttributeList => OptionsErrorKind::ExpectedAttributeList,
            OptionsError::ExpectedNameValue => OptionsErrorKind::ExpectedNameValue,
            OptionsError::UnknownDispatcher => OptionsErrorKind::UnknownDispatcher,
            OptionsError::UnexpectedKey(i) => OptionsErrorKind::UnexpectedKey(*i as int),
        }
    }
}

/// The name of an entry, where it has one.
pub open spec fn key_of(e: OptionEntry) -> Option<Seq<char>> {
    match e {
        OptionEntry::Meta { key: Some(k), .. } => Some(k@),
        _ => None,
    }
}

/// What is wrong with entry `i` taken by itself or against the entries before it.
pub open spec fn entry_problem(entries: Seq<OptionEntry>, i: int) -> Option<OptionsErrorKind> {
    match entries[i] {
        OptionEntry::Lit => Some(OptionsErrorKind::ExpectedMeta(i)),
        OptionEntry::Meta { key: None, .. } => Some(OptionsErrorKind::ExpectedIdentifier(i)),
        OptionEntry::Meta { key: Some(k), .. } => if exists|j: int| 0 <= j < i && key_of(#[trigger] entries[j]) == Some(k@) {
            Some(OptionsErrorKind::DuplicateKey(i))
        } else {
            None
        },
    }
}

/// The first problem among the first `n` entries.
pub open spec fn first_problem(entries: Seq<OptionEntry>, n: int) -> Option<OptionsErrorKind>
    decreases n,
{
    if n <= 0 {
        None
    } else {
        match first_problem(entries, n - 1) {
            Some(e) => Some(e),
            None => entry_problem(entries, n - 1),
        }
    }
}

/// The first entry of the given name among the first `n` entries.
pub open spec fn lookup(entries: Seq<OptionEntry>, key: Seq<char>, n: int) -> Option<int>
    decreases n,
{
    if n <= 0 {
        None
    } else {
        match lookup(entries, key, n - 1) {
            Some(i) => Some(i),
            None => if key_of(entries[n - 1]) == Some(key) {
                Some(n - 1)
            } else {
                None
            },
        }
    }
}

/// The target that one item of `targets(..)` names.
pub open spec fn item_target(item: Nested) -> Result<(Seq<char>, Set<Seq<char>>), OptionsErrorKind> {
    match item {
        Nested::Lit(Lit::Str(s)) => match parse_spec(s@) {
            Err(e) => Err(OptionsErrorKind::BadTarget(e)),
            Ok((a, set)) => if set == Set::<Seq<char>>::empty() {
                Err(OptionsErrorKind::TargetWithoutFeatures)
            } else {
                Ok((a, set))
            },
        },
        Nested::Lit(Lit::Other) => Err(OptionsErrorKind::ExpectedString),
        Nested::Meta => Err(OptionsErrorKind::ExpectedTargetString),
    }
}

/// The targets of a `targets(..)` list; the first bad item, in order, is reported.
pub open spec fn list_targets(items: Seq<Nested>) -> Result<Seq<(Seq<char>, Set<Seq<char>>)>, OptionsErrorKind>
    decreases items.len(),
{
    if items.len() == 0 {
        Ok(Seq::empty())
    } else {
        match list_targets(items.drop_last()) {
            Err(e) => Err(e),
            Ok(v) => match item_target(items.last()) {
                Err(e) => Err(e),
                Ok(t) => Ok(v.push(t)),
            },
        }
    }
}

/// The target strings of `targets = "simd"`.
pub open spec fn simd_preset_spec() -> Seq<Seq<char>> {
    seq![
        "x86_64+avx2+fma"@,
        "x86_64+sse4.2"@,
        "x86+avx2+fma"@,
        "x86+sse4.2"@,
        "x86+sse2"@,
        "aarch64+neon"@,
    ]
}

/// The targets that the strings name; the first refused string is reported.
pub open spec fn parse_all(strs: Seq<Seq<char>>) -> Result<Seq<(Seq<char>, Set<Seq<char>>)>, OptionsErrorKind>
    decreases strs.len(),
{
    if strs.len() == 0 {
        Ok(Seq::empty())
    } else {
        match parse_all(strs.drop_last()) {
            Err(e) => Err(e),
            Ok(v) => match parse_spec(strs.last()) {
                Err(e) => Err(OptionsErrorKind::BadTarget(e)),
                Ok(t) => Ok(v.push(t)),
            },
        }
    }
}

/// The targets that the options name. Without a `targets` entry there are
/// none where the function carries specializations of its own, as with
/// `#[specialize(..)]` attributes beside a bare `#[multiversion]`.
pub open spec fn targets_spec(has_specializations: bool, entries: Seq<OptionEntry>) -> Result<
    Seq<(Seq<char>, Set<Seq<char>>)>,
    OptionsErrorKind,
> {
    match lookup(entries, "targets"@, entries.len() as int) {
        None => if has_specializations {
            Ok(Seq::empty())
        } else {
            Err(OptionsErrorKind::ExpectedTargets)
        },
        Some(i) => match entries[i] {
            OptionEntry::Meta { arg: MetaArg::List(items), .. } => list_targets(items@),
            OptionEntry::Meta { arg: MetaArg::NameValue(Lit::Str(s)), .. } => if s@ == "simd"@ {
                parse_all(simd_preset_spec())
            } else {
                Err(OptionsErrorKind::ExpectedSimd)
            },
            OptionEntry::Meta { arg: MetaArg::NameValue(Lit::Other), .. } => Err(OptionsErrorKind::ExpectedString),
            _ => Err(OptionsErrorKind::ExpectedTargetList),
        },
    }
}

/// The entry holding the `attrs(..)` list, if any.
pub open spec fn attrs_spec(entries: Seq<OptionEntry>) -> Result<Option<int>, OptionsErrorKind> {
    match lookup(entries, "attrs"@, entries.len() as int) {
        None => Ok(None),
        Some(i) => match entries[i] {
            OptionEntry::Meta { arg: MetaArg::List(_), .. } => Ok(Some(i)),
            _ => Err(OptionsErrorKind::ExpectedAttributeList),
        },
    }
}

/// The dispatcher asked for.
pub open spec fn dispatcher_option_spec(entries: Seq<OptionEntry>) -> Result<DispatchMethod, OptionsErrorKind> {
    match lookup(entries, "dispatcher"@, entries.len() as int) {
        None => Ok(DispatchMethod::Default),
        Some(i) => match entries[i] {
            OptionEntry::Meta { arg: MetaArg::NameValue(Lit::Str(s)), .. } => if s@ == "default"@ {
                Ok(DispatchMethod::Default)
            } else if s@ == "static"@ {
                Ok(DispatchMethod::Static)
            } else if s@ == "direct"@ {
                Ok(DispatchMethod::Direct)
            } else if s@ == "indirect"@ {
                Ok(DispatchMethod::Indirect)
            } else {
                Err(OptionsErrorKind::UnknownDispatcher)
            },
            OptionEntry::Meta { arg: MetaArg::NameValue(Lit::Other), .. } => Err(OptionsErrorKind::ExpectedString),
            _ => Err(OptionsErrorKind::ExpectedNameValue),
        },
    }
}

/// A name that is one of the options.
pub open spec fn known_key(k: Seq<char>) -> bool {
    k == "targets"@ || k == "attrs"@ || k == "dispatcher"@
}

/// The first entry, among the first `n`, whose name is no option.
pub open spec fn first_unknown_key(entries: Seq<OptionEntry>, n: int) -> Option<int>
    decreases n,
{
    if n <= 0 {
        None
    } else {
        match first_unknown_key(entries, n - 1) {
            Some(i) => Some(i),
            None => match key_of(entries[n - 1]) {
                Some(k) => if known_key(k) {
                    None
                } else {
                    Some(n - 1)
                },
                None => None,
            },
        }
    }
}

/// The configuration that the options give, or why they are refused.
pub open spec fn options_spec(returns_impl_trait: bool, has_specializations: bool, entries: Seq<OptionEntry>) -> Result<
    (Seq<(Seq<char>, Set<Seq<char>>)>, Option<int>, DispatchMethod),
    OptionsErrorKind,
> {
    if returns_impl_trait {
        Err(OptionsErrorKind::ImplTraitReturn)
    } else {
        match first_problem(entries, entries.len() as int) {
            Some(e) => Err(e),
            None => match targets_spec(has_specializations, entries) {
                Err(e) => Err(e),
                Ok(ts) => match attrs_spec(entries) {
                    Err(e) => Err(e),
                    Ok(a) => match dispatcher_option_spec(entries) {
                        Err(e) => Err(e),
                        Ok(d) => match first_unknown_key(entries, entries.len() as int) {
                            Some(i) => Err(OptionsErrorKind::UnexpectedKey(i)),
                            None => Ok((ts, a, d)),
                        },
                    },
                },
            },
        }
    }
}

/// The targets of a configuration as plain values.
pub open spec fn target_sets(ts: Seq<Target>) -> Seq<(Seq<char>, Set<Seq<char>>)> {
    ts.map_values(|t: Target| (t.arch_view(), t.features_view().to_set()))
}

} // verus!

verus! {

fn entry_key(e: &OptionEntry) -> (r: Option<&String>)
    ensures
        match r {
            Some(k) => key_of(*e) == Some(k@),
            None => key_of(*e) is None,
        },
{
    match e {
        OptionEntry::Meta { key: Some(k), .. } => Some(k),
        _ => None,
    }
}

/// The first problem with the entries: a bare literal, a path for a name, or
/// a repeated name.
fn check_entries(entries: &Vec<OptionEntry>) -> (r: Option<OptionsError>)
    ensures
        match r {
            Some(e) => first_problem(entries@, entries@.len() as int) == Some(e.kind()),
            None => first_problem(entries@, entries@.len() as int) is None,
        },
{
    let n = entries.len();
    let mut i: usize = 0;
    while i < n
        invariant
            n == entries@.len(),
            i <= n,
            first_problem(entries@, i as int) is None,
        decreases n - i,
    {
        match &entries[i] {
            OptionEntry::Lit => {
                proof {
                    lemma_first_problem_prefix(entries@, i + 1, n as int);
                }
                return Some(OptionsError::ExpectedMeta(i));
            },
            OptionEntry::Meta { key: None, .. } => {
                proof {
                    lemma_first_problem_prefix(entries@, i + 1, n as int);
                }
                return Some(OptionsError::ExpectedIdentifier(i));
            },
            OptionEntry::Meta { key: Some(k), .. } => {
                let mut j: usize = 0;
                while j < i
                    invariant
                        i < n,
                        n == entries@.len(),
                        key_of(entries@[i as int]) == Some(k@),
                        first_problem(entries@, i as int) is None,
                        j <= i,
                        forall|m: int| 0 <= m < j ==> key_of(#[trigger] entries@[m]) != Some(k@),
                    decreases i - j,
                {
                    match entry_key(&entries[j]) {
                        Some(other) => {
                            if eq(other.as_str(), k.as_str()) {
                                assert(key_of(entries@[j as int]) == Some(k@));
                                assert(entry_problem(entries@, i as int) == Some(OptionsErrorKind::DuplicateKey(i as int)));
                                proof {
                                    lemma_first_problem_prefix(entries@, i + 1, n as int);
                                }
                                return Some(OptionsError::DuplicateKey(i));
                            }
                        },
                        None => {},
                    }
                    j += 1;
                }
            },
        }
        i += 1;
    }
    None
}

proof fn lemma_first_problem_prefix(entries: Seq<OptionEntry>, m: int, n: int)
    requires
        0 <= m <= n,
        first_problem(entries, m) is Some,
    ensures
        first_problem(entries, n) == first_problem(entries, m),
    decreases n - m,
{
    if m < n {
        lemma_first_problem_prefix(entries, m, n - 1);
    }
}

/// The first entry with the given name.
fn find_key(entries: &Vec<OptionEntry>, key: &str) -> (r: Option<usize>)
    ensures
        match r {
            Some(i) => lookup(entries@, key@, entries@.len() as int) == Some(i as int) && i < entries@.len(),
            None => lookup(entries@, key@, entries@.len() as int) is None,
        },
{
    let n = entries.len();
    let mut i: usize = 0;
    while i < n
        invariant
            n == entries@.len(),
            i <= n,
            lookup(entries@, key@, i as int) is None,
        decreases n - i,
    {
        match entry_key(&entries[i]) {
            Some(k) => {
                if eq(k.as_str(), key) {
                    assert(lookup(entries@, key@, i + 1) == Some(i as int));
                    proof {
                        lemma_lookup_prefix(entries@, key@, i + 1, n as int);
                    }
                    return Some(i);
                }
            },
            None => {},
        }
        i += 1;
    }
    None
}

proof fn lemma_lookup_prefix(entries: Seq<OptionEntry>, key: Seq<char>, m: int, n: int)
    requires
        0 <= m <= n,
        lookup(entries, key, m) is Some,
    ensures
        lookup(entries, key, n) == lookup(entries, key, m),
    decreases n - m,
{
    if m < n {
        lemma_lookup_prefix(entries, key, m, n - 1);
    }
}

/// Parses the target of one item of `targets(..)`.
fn item_to_target(item: &Nested) -> (r: Result<Target, OptionsError>)
    ensures
        match r {
            Ok(t) => t.wf() && item_target(*item) == Ok::<_, OptionsErrorKind>((t.arch_view(), t.features_view().to_set())),
            Err(e) => item_target(*item) == Err::<(Seq<char>, Set<Seq<char>>), _>(e.kind()),
        },
{
    match item {
        Nested::Lit(Lit::Str(s)) => match Target::parse(s.as_str()) {
            Err(e) => Err(OptionsError::BadTarget(e)),
            Ok(t) => {
                if t.has_features_specified() {
                    assert(t.features_view().to_set().contains(t.features_view()[0]));
                    assert(t.features_view().to_set() != Set::<Seq<char>>::empty());
                    Ok(t)
                } else {
                    assert(t.features_view().to_set() =~= Set::<Seq<char>>::empty());
                    Err(OptionsError::TargetWithoutFeatures)
                }
            },
        },
        Nested::Lit(Lit::Other) => Err(OptionsError::ExpectedString),
        Nested::Meta => Err(OptionsError::ExpectedTargetString),
    }
}

/// The targets of a `targets(..)` list.
fn collect_list_targets(items: &Vec<Nested>) -> (r: Result<Vec<Target>, OptionsError>)
    ensures
        match r {
            Ok(ts) => list_targets(items@) == Ok::<_, OptionsErrorKind>(target_sets(ts@))
                && forall|k: int| 0 <= k < ts@.len() ==> (#[trigger] ts@[k]).wf(),
            Err(e) => list_targets(items@) == Err::<Seq<(Seq<char>, Set<Seq<char>>)>, _>(e.kind()),
        },
{
    let mut out: Vec<Target> = Vec::new();
    let n = items.len();
    let mut i: usize = 0;
    assert(items@.take(0) =~= Seq::<Nested>::empty());
    assert(target_sets(out@) =~= Seq::<(Seq<char>, Set<Seq<char>>)>::empty());
    while i < n
        invariant
            n == items@.len(),
            i <= n,
            list_targets(items@.take(i as int)) == Ok::<_, OptionsErrorKind>(target_sets(out@)),
            forall|k: int| 0 <= k < out@.len() ==> (#[trigger] out@[k]).wf(),
        decreases n - i,
    {
        assert(items@.take(i + 1).drop_last() =~= items@.take(i as int));
        assert(items@.take(i + 1).last() == items@[i as int]);
        match item_to_target(&items[i]) {
            Err(e) => {
                proof {
                    lemma_list_targets_error(items@, i + 1, n as int);
                }
                return Err(e);
            },
            Ok(t) => {
                let ghost before = target_sets(out@);
                out.push(t);
                assert(target_sets(out@) =~= before.push((t.arch_view(), t.features_view().to_set())));
            },
        }
        i += 1;
    }
    assert(items@.take(n as int) =~= items@);
    Ok(out)
}

proof fn lemma_list_targets_error(items: Seq<Nested>, m: int, n: int)
    requires
        0 <= m <= n,
        n == items.len(),
        list_targets(items.take(m)) is Err,
    ensures
        list_targets(items) == list_targets(items.take(m)),
    decreases n - m,
{
    if m < n {
        assert(items.take(m + 1).drop_last() =~= items.take(m));
        lemma_list_targets_error(items, m + 1, n);
    } else {
        assert(items.take(m) =~= items);
    }
}

pub proof fn lemma_parse_all_error(strs: Seq<Seq<char>>, m: int, n: int)
    requires
        0 <= m <= n,
        n == strs.len(),
        parse_all(strs.take(m)) is Err,
    ensures
        parse_all(strs) == parse_all(strs.take(m)),
    decreases n - m,
{
    if m < n {
        assert(strs.take(m + 1).drop_last() =~= strs.take(m));
        lemma_parse_all_error(strs, m + 1, n);
    } else {
        assert(strs.take(m) =~= strs);
    }
}

/// The targets of `targets = "simd"`: common SIMD extensions of x86,
/// x86-64 and AArch64, best first.
pub fn simd_preset() -> (r: Result<Vec<Target>, OptionsError>)
    ensures
        match r {
            Ok(ts) => parse_all(simd_preset_spec()) == Ok::<_, OptionsErrorKind>(target_sets(ts@))
                && forall|k: int| 0 <= k < ts@.len() ==> (#[trigger] ts@[k]).wf(),
            Err(e) => parse_all(simd_preset_spec()) == Err::<Seq<(Seq<char>, Set<Seq<char>>)>, _>(e.kind()),
        },
{
    let strs: [&str; 6] = [
        "x86_64+avx2+fma",
        "x86_64+sse4.2",
        "x86+avx2+fma",
        "x86+sse4.2",
        "x86+sse2",
        "aarch64+neon",
    ];
    let ghost ss = simd_preset_spec();
    assert(ss.len() == 6);
    assert(forall|k: int| 0 <= k < 6 ==> (#[trigger] strs@[k])@ == ss[k]);
    let mut out: Vec<Target> = Vec::new();
    let mut i: usize = 0;
    assert(ss.take(0) =~= Seq::<Seq<char>>::empty());
    assert(target_sets(out@) =~= Seq::<(Seq<char>, Set<Seq<char>>)>::empty());
    while i < 6
        invariant
            ss == simd_preset_spec(),
            forall|k: int| 0 <= k < 6 ==> (#[trigger] strs@[k])@ == ss[k],
            i <= 6,
            parse_all(ss.take(i as int)) == Ok::<_, OptionsErrorKind>(target_sets(out@)),
            forall|k: int| 0 <= k < out@.len() ==> (#[trigger] out@[k]).wf(),
        decreases 6 - i,
    {
        assert(ss.take(i + 1).drop_last() =~= ss.take(i as int));
        assert(ss.take(i + 1).last() == strs@[i as int]@);
        match Target::parse(strs[i]) {
            Err(e) => {
                proof {
                    lemma_parse_all_error(ss, i + 1, 6);
                }
                return Err(OptionsError::BadTarget(e));
            },
            Ok(t) => {
                let ghost before = target_sets(out@);
                out.push(t);
                assert(target_sets(out@) =~= before.push((t.arch_view(), t.features_view().to_set())));
            },
        }
        i += 1;
    }
    assert(ss.take(6) =~= ss);
    Ok(out)
}

/// The configuration that the options of the attribute give, for a function
/// that returns an `impl Trait` or not, and that carries specializations of
/// its own or not.
#[verifier::loop_isolation(false)]
pub fn parse_options(returns_impl_trait: bool, has_specializations: bool, entries: &Vec<OptionEntry>) -> (r: Result<
    MultiversionConfig,
    OptionsError,
>)
    ensures
        match r {
            Ok(c) => {
                &&& options_spec(returns_impl_trait, has_specializations, entries@) == Ok::<_, OptionsErrorKind>((
                    target_sets(c.targets@),
                    match c.attrs_entry {
                        Some(i) => Some(i as int),
                        None => None::<int>,
                    },
                    c.dispatcher,
                ))
                &&& forall|k: int| 0 <= k < c.targets@.len() ==> (#[trigger] c.targets@[k]).wf()
            },
            Err(e) => options_spec(returns_impl_trait, has_specializations, entries@) == Err::<
                (Seq<(Seq<char>, Set<Seq<char>>)>, Option<int>, DispatchMethod),
                _,
            >(e.kind()),
        },
{
    if returns_impl_trait {
        return Err(OptionsError::ImplTraitReturn);
    }
    match check_entries(entries) {
        Some(e) => {
            return Err(e);
        },
        None => {},
    }
    let targets = match find_key(entries, "targets") {
        None => if has_specializations {
            let none: Vec<Target> = Vec::new();
            assert(target_sets(none@) =~= Seq::<(Seq<char>, Set<Seq<char>>)>::empty());
            Ok(none)
        } else {
            return Err(OptionsError::ExpectedTargets);
        },
        Some(i) => match &entries[i] {
            OptionEntry::Meta { arg: MetaArg::List(items), .. } => collect_list_targets(items),
            OptionEntry::Meta { arg: MetaArg::NameValue(Lit::Str(s)), .. } => {
                if eq(s.as_str(), "simd") {
                    simd_preset()
                } else {
                    Err(OptionsError::ExpectedSimd)
                }
            },
            OptionEntry::Meta { arg: MetaArg::NameValue(Lit::Other), .. } => Err(OptionsError::ExpectedString),
            _ => Err(OptionsError::ExpectedTargetList),
        },
    };
    let targets = match targets {
        Err(e) => {
            return Err(e);
        },
        Ok(ts) => ts,
    };
    let attrs_entry = match find_key(entries, "attrs") {
        None => None,
        Some(i) => match &entries[i] {
            OptionEntry::Meta { arg: MetaArg::List(_), .. } => Some(i),
            _ => {
                return Err(OptionsError::ExpectedAttributeList);
            },
        },
    };
    let dispatcher = match find_key(entries, "dispatcher") {
        None => DispatchMethod::Default,
        Some(i) => match &entries[i] {
            OptionEntry::Meta { arg: MetaArg::NameValue(Lit::Str(s)), .. } => {
                if eq(s.as_str(), "default") {
                    DispatchMethod::Default
                } else if eq(s.as_str(), "static") {
                    DispatchMethod::Static
                } else if eq(s.as_str(), "direct") {
                    DispatchMethod::Direct
                } else if eq(s.as_str(), "indirect") {
                    DispatchMethod::Indirect
                } else {
                    return Err(OptionsError::UnknownDispatcher);
                }
            },
            OptionEntry::Meta { arg: MetaArg::NameValue(Lit::Other), .. } => {
                return Err(OptionsError::ExpectedString);
            },
            _ => {
                return Err(OptionsError::ExpectedNameValue);
            },
        },
    };
    // Every name must be one of the options.
    let n = entries.len();
    let mut i: usize = 0;
    while i < n
        invariant
            n == entries@.len(),
            i <= n,
            first_unknown_key(entries@, i as int) is None,
        decreases n - i,
    {
        match entry_key(&entries[i]) {
            Some(k) => {
                if !(eq(k.as_str(), "targets") || eq(k.as_str(), "attrs") || eq(k.as_str(), "dispatcher")) {
                    assert(first_unknown_key(entries@, i + 1) == Some(i as int));
                    proof {
                        lemma_unknown_key_prefix(entries@, i + 1, n as int);
                    }
                    return Err(OptionsError::UnexpectedKey(i));
                }
            },
            None => {},
        }
        i += 1;
    }
    Ok(MultiversionConfig { targets, attrs_entry, dispatcher })
}

proof fn lemma_unknown_key_prefix(entries: Seq<OptionEntry>, m: int, n: int)
    requires
        0 <= m <= n,
        first_unknown_key(entries, m) is Some,
    ensures
        first_unknown_key(entries, n) == first_unknown_key(entries, m),
    decreases n - m,
{
    if m < n {
        lemma_unknown_key_prefix(entries, m, n - 1);
    }
}

} // verus!

verus! {

/// How strong the x86 SIMD features that a target names are: AVX2 above
/// SSE4.2 above SSE2 above anything else.
pub open spec fn x86_simd_level(features: Seq<Seq<char>>) -> int {
    if features.contains("avx2"@) {
        3
    } else if features.contains("sse4.2"@) {
        2
    } else if features.contains("sse2"@) {
        1
    } else {
        0
    }
}

/// A target string written as an architecture and features joined with plus
/// signs names that architecture and those features.
proof fn lemma_target_string_parts(s: Seq<char>, arch: Seq<char>, feats: Seq<Seq<char>>)
    requires
        s == join_spec(seq![arch] + feats, '+'),
        !arch.contains('+'),
        !arch.contains('/'),
        forall|k: int| 0 <= k < feats.len() ==> !(#[trigger] feats[k]).contains('+'),
    ensures
        target_arch_of(s) == arch,
        specified_features_of(s) == feats,
{
    let parts = seq![arch] + feats;
    assert forall|k: int| 0 <= k < parts.len() implies !(#[trigger] parts[k]).contains('+') by {
        if k > 0 {
            assert(parts[k] == feats[k - 1]);
        }
    }
    crate::text::lemma_split_join(parts, '+');
    assert(split_spec(s, '+')[0] == arch);
    assert(specified_features_of(s) =~= feats);
    crate::text::lemma_split_single(arch, '/');
}

/// The "simd" preset lists the targets of each architecture strongest first:
/// of two targets of one architecture, the earlier names stronger x86 SIMD
/// features (AVX2, then SSE4.2, then SSE2), so that first-match dispatch
/// reaches the AVX2 targets of x86-64 and of x86 before their SSE ones. Each
/// of x86-64 and x86 has an AVX2 target, listed first for its architecture.
pub proof fn lemma_simd_preset_strongest_first()
    ensures
        simd_preset_spec().len() == 6,
        forall|i: int, j: int|
            0 <= i < j < 6 && target_arch_of(simd_preset_spec()[i]) == target_arch_of(simd_preset_spec()[j])
                ==> x86_simd_level(specified_features_of(#[trigger] simd_preset_spec()[i])) > x86_simd_level(
                specified_features_of(#[trigger] simd_preset_spec()[j]),
            ),
        exists|i: int|
            0 <= i < 6 && target_arch_of(#[trigger] simd_preset_spec()[i]) == "x86"@ && specified_features_of(
                simd_preset_spec()[i],
            ).contains("avx2"@),
        exists|i: int|
            0 <= i < 6 && target_arch_of(#[trigger] simd_preset_spec()[i]) == "x86_64"@ && specified_features_of(
                simd_preset_spec()[i],
            ).contains("avx2"@),
{
    reveal_strlit("x86_64+avx2+fma");
    reveal_strlit("x86_64+sse4.2");
    reveal_strlit("x86+avx2+fma");
    reveal_strlit("x86+sse4.2");
    reveal_strlit("x86+sse2");
    reveal_strlit("aarch64+neon");
    reveal_strlit("x86_64");
    reveal_strlit("x86");
    reveal_strlit("aarch64");
    reveal_strlit("avx2");
    reveal_strlit("fma");
    reveal_strlit("sse4.2");
    reveal_strlit("sse2");
    reveal_strlit("neon");
    reveal_with_fuel(join_spec, 4);
    let p = simd_preset_spec();
    let a64 = "x86_64"@;
    let a32 = "x86"@;
    let arm = "aarch64"@;
    let top = seq!["avx2"@, "fma"@];
    let s42 = seq!["sse4.2"@];
    let s2 = seq!["sse2"@];
    let neon = seq!["neon"@];
    assert(p[0] =~= join_spec(seq![a64] + top, '+'));
    assert(p[1] =~= join_spec(seq![a64] + s42, '+'));
    assert(p[2] =~= join_spec(seq![a32] + top, '+'));
    assert(p[3] =~= join_spec(seq![a32] + s42, '+'));
    assert(p[4] =~= join_spec(seq![a32] + s2, '+'));
    assert(p[5] =~= join_spec(seq![arm] + neon, '+'));
    lemma_target_string_parts(p[0], a64, top);
    lemma_target_string_parts(p[1], a64, s42);
    lemma_target_string_parts(p[2], a32, top);
    lemma_target_string_parts(p[3], a32, s42);
    lemma_target_string_parts(p[4], a32, s2);
    lemma_target_string_parts(p[5], arm, neon);
    assert(a64 != a32 && a64 != arm && a32 != arm) by {
        assert(a64.len() == 6 && a32.len() == 3 && arm.len() == 7);
    }
    assert(x86_simd_level(top) == 3);
    assert(x86_simd_level(s42) == 2) by {
        assert(s42[0] != "avx2"@) by {
            assert(s42[0].len() != "avx2"@.len());
        }
    }
    assert(x86_simd_level(s2) == 1) by {
        assert(s2[0] != "avx2"@) by {
            assert(s2[0][0] != "avx2"@[0]);
        }
        assert(s2[0] != "sse4.2"@) by {
            assert(s2[0].len() != "sse4.2"@.len());
        }
    }
    assert(top.contains("avx2"@)) by {
        assert(top[0] == "avx2"@);
    }
    assert(target_arch_of(p[2]) == "x86"@ && specified_features_of(p[2]).contains("avx2"@));
    assert(target_arch_of(p[0]) == "x86_64"@ && specified_features_of(p[0]).contains("avx2"@));
}

} // verus!
