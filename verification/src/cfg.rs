//! Configuration predicates, as in `#[cfg(..)]`, and their rewriting so that
//! they count the features of the selected target as enabled.
use vstd::prelude::*;
use crate::strings::eq;
use crate::text::{split, split_spec, views, join_spec};

verus! {

/// A value after `=` in a predicate.
#[derive(Debug)]
pub enum CfgValue {
    Str(String),
    /// Any value other than a string literal.
    Other,
}

/// A configuration predicate.
#[derive(Debug)]
pub enum CfgMeta {
    /// A bare name, such as `unix`; paths are written with `::`.
    Path(String),
    /// `name = value`, such as `target_feature = "avx"`.
    NameValue { path: String, value: CfgValue },
    /// `name(..)`, such as `all(..)`; `parsed` is false where the arguments
    /// are no list of predicates, and `args` is then empty.
    List { path: String, parsed: bool, args: Vec<CfgMeta> },
}

/// A predicate as plain values.
pub enum CfgMetaV {
    Path(Seq<char>),
    NameValue { path: Seq<char>, value: Option<Seq<char>> },
    List { path: Seq<char>, parsed: bool, args: Seq<CfgMetaV> },
}

/// The plain value of a predicate.
pub open spec fn view_meta(m: &CfgMeta) -> CfgMetaV
    decreases m, 0nat,
{
    match m {
        CfgMeta::Path(p) => CfgMetaV::Path(p@),
        CfgMeta::NameValue { path, value } => CfgMetaV::NameValue {
            path: path@,
            value: match value {
                CfgValue::Str(s) => Some(s@),
                CfgValue::Other => None,
            },
        },
        CfgMeta::List { path, parsed, args } => CfgMetaV::List {
            path: path@,
            parsed: *parsed,
            args: view_list(args@),
        },
    }
}

/// The plain values of a list of predicates.
pub open spec fn view_list(ms: Seq<CfgMeta>) -> Seq<CfgMetaV>
    decreases ms, 1nat,
{
    if ms.len() == 0 {
        Seq::empty()
    } else {
        view_list(ms.drop_last()).push(view_meta(&ms.last()))
    }
}

} // verus!

verus! {

/// `all()`, which always holds.
pub open spec fn all_true() -> CfgMetaV {
    CfgMetaV::List { path: "all"@, parsed: true, args: Seq::empty() }
}

/// The predicate with every `target_feature = "f"`, for `f` one of
/// `features`, replaced by `all()`; `None` where some arguments do not parse.
pub open spec fn transform_spec(features: Seq<Seq<char>>, m: CfgMetaV) -> Option<CfgMetaV>
    decreases m, 0nat,
{
    match m {
        CfgMetaV::NameValue { path, value: Some(v) } => if path == "target_feature"@ && features.contains(v) {
            Some(all_true())
        } else {
            Some(m)
        },
        CfgMetaV::List { path, parsed, args } => if !parsed {
            None
        } else {
            match transform_list_spec(features, args) {
                None => None,
                Some(new_args) => Some(CfgMetaV::List { path, parsed, args: new_args }),
            }
        },
        _ => Some(m),
    }
}

/// Each predicate of the list transformed.
pub open spec fn transform_list_spec(features: Seq<Seq<char>>, ms: Seq<CfgMetaV>) -> Option<Seq<CfgMetaV>>
    decreases ms, 1nat,
{
    if ms.len() == 0 {
        Some(Seq::empty())
    } else {
        match transform_list_spec(features, ms.drop_last()) {
            None => None,
            Some(init) => match transform_spec(features, ms.last()) {
                None => None,
                Some(x) => Some(init.push(x)),
            },
        }
    }
}

/// The environment that a predicate is evaluated in.
pub struct CfgEnv {
    /// The enabled target features.
    pub features: Set<Seq<char>>,
    /// Whether a bare name holds.
    pub names: spec_fn(Seq<char>) -> bool,
    /// Whether `name = "value"`, for a name other than `target_feature`, holds.
    pub pairs: spec_fn(Seq<char>, Seq<char>) -> bool,
}

/// Whether a predicate holds, or `None` where it is malformed.
pub open spec fn eval_spec(m: CfgMetaV, env: CfgEnv) -> Option<bool>
    decreases m, 0nat,
{
    match m {
        CfgMetaV::Path(p) => Some((env.names)(p)),
        CfgMetaV::NameValue { path, value } => match value {
            None => None,
            Some(v) => if path == "target_feature"@ {
                Some(env.features.contains(v))
            } else {
                Some((env.pairs)(path, v))
            },
        },
        CfgMetaV::List { path, parsed, args } => if !parsed {
            None
        } else if path == "all"@ {
            eval_all(args, env)
        } else if path == "any"@ {
            eval_any(args, env)
        } else if path == "not"@ {
            if args.len() == 1 {
                match eval_spec(args[0], env) {
                    None => None,
                    Some(b) => Some(!b),
                }
            } else {
                None
            }
        } else {
            None
        },
    }
}

/// Whether all predicates hold.
pub open spec fn eval_all(ms: Seq<CfgMetaV>, env: CfgEnv) -> Option<bool>
    decreases ms, 1nat,
{
    if ms.len() == 0 {
        Some(true)
    } else {
        match (eval_all(ms.drop_last(), env), eval_spec(ms.last(), env)) {
            (Some(a), Some(b)) => Some(a && b),
            _ => None,
        }
    }
}

/// Whether any predicate holds.
pub open spec fn eval_any(ms: Seq<CfgMetaV>, env: CfgEnv) -> Option<bool>
    decreases ms, 1nat,
{
    if ms.len() == 0 {
        Some(false)
    } else {
        match (eval_any(ms.drop_last(), env), eval_spec(ms.last(), env)) {
            (Some(a), Some(b)) => Some(a || b),
            _ => None,
        }
    }
}

/// The environment with the given features enabled as well.
pub open spec fn with_features(env: CfgEnv, features: Seq<Seq<char>>) -> CfgEnv {
    CfgEnv { features: env.features + features.to_set(), names: env.names, pairs: env.pairs }
}

/// Transforming a predicate with the selected features and evaluating it
/// where they are not enabled gives what the predicate gives where they are:
/// the rewritten `cfg` counts the selected target's features as enabled.
pub proof fn lemma_transform_counts_features(features: Seq<Seq<char>>, m: CfgMetaV, env: CfgEnv)
    requires
        transform_spec(features, m) is Some,
    ensures
        eval_spec(transform_spec(features, m)->0, env) == eval_spec(m, with_features(env, features)),
    decreases m, 0nat,
{
    match m {
        CfgMetaV::NameValue { path, value: Some(v) } => {
            if path == "target_feature"@ && features.contains(v) {
                assert(eval_all(Seq::<CfgMetaV>::empty(), env) == Some(true));
            }
        },
        CfgMetaV::List { path, parsed, args } => {
            if parsed {
                lemma_transform_list(features, args, env);
                let new_args = transform_list_spec(features, args)->0;
                if path == "not"@ && args.len() == 1 {
                    assert(args =~= Seq::<CfgMetaV>::empty().push(args[0]));
                    assert(args.drop_last() =~= Seq::<CfgMetaV>::empty());
                    assert(args.last() == args[0]);
                    lemma_transform_counts_features(features, args[0], env);
                    assert(new_args[0] == transform_spec(features, args[0])->0);
                }
            }
        },
        _ => {},
    }
}

/// The list counterpart of [`lemma_transform_counts_features`].
pub proof fn lemma_transform_list(features: Seq<Seq<char>>, ms: Seq<CfgMetaV>, env: CfgEnv)
    requires
        transform_list_spec(features, ms) is Some,
    ensures
        transform_list_spec(features, ms)->0.len() == ms.len(),
        eval_all(transform_list_spec(features, ms)->0, env) == eval_all(ms, with_features(env, features)),
        eval_any(transform_list_spec(features, ms)->0, env) == eval_any(ms, with_features(env, features)),
        ms.len() == 1 ==> transform_list_spec(features, ms)->0[0] == transform_spec(features, ms[0])->0,
    decreases ms, 1nat,
{
    if ms.len() > 0 {
        lemma_transform_list(features, ms.drop_last(), env);
        lemma_transform_counts_features(features, ms.last(), env);
        let t = transform_list_spec(features, ms)->0;
        let init = transform_list_spec(features, ms.drop_last())->0;
        assert(t.drop_last() =~= init);
        assert(t.last() == transform_spec(features, ms.last())->0);
    }
}

} // verus!

verus! {

/// Why a predicate could not be rewritten.
#[derive(PartialEq, Eq, Structural, Clone, Copy, Debug)]
pub enum CfgError {
    /// The arguments of some `name(..)` are no list of predicates.
    UnparsedArguments,
    /// The first argument is not of the form `name = value`.
    ExpectedNameValue,
}

fn contains_str(list: &Vec<String>, s: &str) -> (r: bool)
    ensures
        r == views(list@).contains(s@),
{
    let mut i: usize = 0;
    while i < list.len()
        invariant
            i <= list@.len(),
            forall|j: int| 0 <= j < i ==> list@[j]@ != s@,
        decreases list@.len() - i,
    {
        if eq(list[i].as_str(), s) {
            assert(views(list@)[i as int] == s@);
            return true;
        }
        i += 1;
    }
    assert(!views(list@).contains(s@)) by {
        if views(list@).contains(s@) {
            let k = choose|k: int| 0 <= k < views(list@).len() && views(list@)[k] == s@;
            assert(list@[k]@ == s@);
        }
    }
    false
}

/// Rewrites `target_feature = "f"`, for `f` one of `features`, to `all()`.
#[verifier::loop_isolation(false)]
pub fn transform_recursive(features: &Vec<String>, input: &CfgMeta) -> (r: Result<CfgMeta, CfgError>)
    ensures
        match r {
            Ok(m) => transform_spec(views(features@), view_meta(input)) == Some(view_meta(&m)),
            Err(e) => transform_spec(views(features@), view_meta(input)) is None && e == CfgError::UnparsedArguments,
        },
    decreases input,
{
    match input {
        CfgMeta::Path(p) => Ok(CfgMeta::Path(p.clone())),
        CfgMeta::NameValue { path, value } => match value {
            CfgValue::Str(v) => {
                if eq(path.as_str(), "target_feature") && contains_str(features, v.as_str()) {
                    let all = CfgMeta::List { path: "all".to_owned(), parsed: true, args: Vec::new() };
                    assert(view_list(Seq::<CfgMeta>::empty()) =~= Seq::<CfgMetaV>::empty());
                    Ok(all)
                } else {
                    Ok(CfgMeta::NameValue { path: path.clone(), value: CfgValue::Str(v.clone()) })
                }
            },
            CfgValue::Other => Ok(CfgMeta::NameValue { path: path.clone(), value: CfgValue::Other }),
        },
        CfgMeta::List { path, parsed, args } => {
            if !*parsed {
                return Err(CfgError::UnparsedArguments);
            }
            let mut out: Vec<CfgMeta> = Vec::new();
            let mut i: usize = 0;
            let ghost f = views(features@);
            assert(args@.take(0) =~= Seq::<CfgMeta>::empty());
            assert(view_list(out@) =~= Seq::<CfgMetaV>::empty());
            while i < args.len()
                invariant
                    f == views(features@),
                    i <= args@.len(),
                    transform_list_spec(f, view_list(args@.take(i as int))) == Some(view_list(out@)),
                decreases args@.len() - i,
            {
                assert(args@.take(i + 1).drop_last() =~= args@.take(i as int));
                assert(args@.take(i + 1).last() == args@[i as int]);
                let ghost vl = view_list(args@.take(i + 1));
                assert(vl == view_list(args@.take(i as int)).push(view_meta(&args@[i as int])));
                assert(vl.drop_last() =~= view_list(args@.take(i as int)));
                assert(vl.last() == view_meta(&args@[i as int]));
                assert(*args == (*input)->args);
                assert(decreases_to!(*input => (*input)->args));
                assert(decreases_to!(*args => args@));
                assert(decreases_to!(args@ => args@[i as int]));
                match transform_recursive(features, &args[i]) {
                    Err(e) => {
                        proof {
                            lemma_transform_list_none(f, args@, i + 1);
                        }
                        assert(transform_spec(f, view_meta(input)) is None);
                        return Err(e);
                    },
                    Ok(m) => {
                        let ghost before = out@;
                        let ghost vm = view_meta(&m);
                        out.push(m);
                        assert(out@.drop_last() =~= before);
                        assert(view_list(out@) == view_list(before).push(vm));
                    },
                }
                i += 1;
            }
            assert(args@.take(args@.len() as int) =~= args@);
            Ok(CfgMeta::List { path: path.clone(), parsed: true, args: out })
        },
    }
}

/// A failure within a prefix of the list is a failure of the whole list.
proof fn lemma_transform_list_none(f: Seq<Seq<char>>, args: Seq<CfgMeta>, m: int)
    requires
        0 <= m <= args.len(),
        transform_list_spec(f, view_list(args.take(m))) is None,
    ensures
        transform_list_spec(f, view_list(args)) is None,
    decreases args.len() - m,
{
    if m < args.len() {
        assert(args.take(m + 1).drop_last() =~= args.take(m));
        assert(view_list(args.take(m + 1)).drop_last() =~= view_list(args.take(m)));
        lemma_transform_list_none(f, args, m + 1);
    } else {
        assert(args.take(m) =~= args);
    }
}

/// The features that a comma-separated list names.
pub open spec fn feature_list_spec(first: CfgMetaV) -> Seq<Seq<char>> {
    match first {
        CfgMetaV::NameValue { value: Some(v), .. } => split_spec(v, ','),
        _ => Seq::empty(),
    }
}

/// Every name of a comma-separated features argument counts as enabled:
/// where the argument's value is names joined with commas, the predicate
/// `target_feature = "f"` becomes `all()` for each of those names `f`, and is
/// left as it is for a name that is none of them.
pub proof fn lemma_listed_features_enabled(path: Seq<char>, names: Seq<Seq<char>>, f: Seq<char>)
    requires
        names.len() > 0,
        forall|k: int| 0 <= k < names.len() ==> !(#[trigger] names[k]).contains(','),
    ensures
        names.contains(f) ==> transform_spec(
            feature_list_spec(CfgMetaV::NameValue { path, value: Some(join_spec(names, ',')) }),
            CfgMetaV::NameValue { path: "target_feature"@, value: Some(f) },
        ) == Some(all_true()),
        !names.contains(f) ==> transform_spec(
            feature_list_spec(CfgMetaV::NameValue { path, value: Some(join_spec(names, ',')) }),
            CfgMetaV::NameValue { path: "target_feature"@, value: Some(f) },
        ) == Some(CfgMetaV::NameValue { path: "target_feature"@, value: Some(f) }),
{
    crate::text::lemma_split_join(names, ',');
}

/// Rewrites `predicate` so that the features listed in `features_arg`
/// (`name = "f1,f2,.."`) count as enabled.
pub fn transform(features_arg: &CfgMeta, predicate: &CfgMeta) -> (r: Result<CfgMeta, CfgError>)
    requires
        !(view_meta(features_arg) matches CfgMetaV::NameValue { value: None, .. }),
    ensures
        match r {
            Ok(m) => view_meta(features_arg) is NameValue && transform_spec(feature_list_spec(view_meta(features_arg)), view_meta(predicate)) == Some(view_meta(&m)),
            Err(e) => if view_meta(features_arg) is NameValue {
                e == CfgError::UnparsedArguments && transform_spec(feature_list_spec(view_meta(features_arg)), view_meta(predicate)) is None
            } else {
                e == CfgError::ExpectedNameValue
            },
        },
{
    match features_arg {
        CfgMeta::NameValue { value: CfgValue::Str(v), .. } => {
            let features = split(v.as_str(), ',');
            transform_recursive(&features, predicate)
        },
        _ => Err(CfgError::ExpectedNameValue),
    }
}

} // verus!
