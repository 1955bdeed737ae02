//! `#[target_cfg(..)]` predicates over the target of a function version:
//! `target = "x86_64+avx"`, combined with `not(..)`, `any(..)` and
//! `all(..)`. Each such attribute becomes `#[cfg(not(any()))]`, which always
//! holds, or `#[cfg(any())]`, which never does.
use vstd::prelude::*;
use crate::strings::eq;
use crate::target::{Target, TargetError, TargetErrorKind, parse_spec};

verus! {

/// A predicate, as far as it is read.
#[derive(Debug)]
pub enum TargetPred {
    /// `target = literal`: `Some` of a string literal, `None` of another literal.
    Target(Option<String>),
    /// `key = literal` with a key other than `target`.
    OtherKey,
    /// A bare path.
    Path,
    /// A bare literal.
    Lit,
    /// `name(..)`, where the name is a single identifier, or `None` for a longer path.
    List { name: Option<String>, args: Vec<TargetPred> },
}

/// A predicate as plain values.
pub enum TargetPredV {
    Target(Option<Seq<char>>),
    OtherKey,
    Path,
    Lit,
    List { name: Option<Seq<char>>, args: Seq<TargetPredV> },
}

pub open spec fn pred_v(p: &TargetPred) -> TargetPredV
    decreases p, 0nat,
{
    match p {
        TargetPred::Target(s) => TargetPredV::Target(match s {
            Some(x) => Some(x@),
            None => None,
        }),
        TargetPred::OtherKey => TargetPredV::OtherKey,
        TargetPred::Path => TargetPredV::Path,
        TargetPred::Lit => TargetPredV::Lit,
        TargetPred::List { name, args } => TargetPredV::List {
            name: match name {
                Some(x) => Some(x@),
                None => None,
            },
            args: preds_v(args@),
        },
    }
}

pub open spec fn preds_v(ps: Seq<TargetPred>) -> Seq<TargetPredV>
    decreases ps, 1nat,
{
    if ps.len() == 0 {
        Seq::empty()
    } else {
        preds_v(ps.drop_last()).push(pred_v(&ps.last()))
    }
}

/// Why a predicate was refused.
pub enum TargetCfgErrorKind {
    UnexpectedPath,
    UnexpectedLiteral,
    ExpectedStringLiteral,
    UnknownKey,
    BadTarget(TargetErrorKind),
    /// `not(..)`, or the attribute itself, without exactly one predicate.
    ExpectedSinglePredicate,
    /// A list other than `not`, `any` or `all`.
    ExpectedNotAnyAll,
}

/// Why a predicate was refused.
#[derive(Debug)]
pub enum TargetCfgError {
    UnexpectedPath,
    UnexpectedLiteral,
    ExpectedStringLiteral,
    UnknownKey,
    BadTarget(TargetError),
    ExpectedSinglePredicate,
    ExpectedNotAnyAll,
}

impl TargetCfgError {
    pub open spec fn kind(&self) -> TargetCfgErrorKind {
        match self {
            TargetCfgError::UnexpectedPath => TargetCfgErrorKind::UnexpectedPath,
            TargetCfgError::UnexpectedLiteral => TargetCfgErrorKind::UnexpectedLiteral,
            TargetCfgError::ExpectedStringLiteral => TargetCfgErrorKind::ExpectedStringLiteral,
            TargetCfgError::UnknownKey => TargetCfgErrorKind::UnknownKey,
            TargetCfgError::BadTarget(e) => TargetCfgErrorKind::BadTarget(e.kind()),
            TargetCfgError::ExpectedSinglePredicate => TargetCfgErrorKind::ExpectedSinglePredicate,
            TargetCfgError::ExpectedNotAnyAll => TargetCfgErrorKind::ExpectedNotAnyAll,
        }
    }
}

/// The target of a version as plain values: its architecture and feature
/// set, or `None` for the default version.
pub type SelectedV = Option<(Seq<char>, Set<Seq<char>>)>;

/// The value of a predicate in the version whose target is `selected`, or
/// the error met first. `target = ".."` holds where the string names the
/// version's own target; `any` stops at the first predicate that holds and
/// `all` at the first that does not, so what follows is not read.
pub open spec fn pred_value(p: TargetPredV, selected: SelectedV) -> Result<bool, TargetCfgErrorKind>
    decreases p, 0nat,
{
    match p {
        TargetPredV::Path => Err(TargetCfgErrorKind::UnexpectedPath),
        TargetPredV::Lit => Err(TargetCfgErrorKind::UnexpectedLiteral),
        TargetPredV::OtherKey => Err(TargetCfgErrorKind::UnknownKey),
        TargetPredV::Target(None) => Err(TargetCfgErrorKind::ExpectedStringLiteral),
        TargetPredV::Target(Some(s)) => match parse_spec(s) {
            Err(e) => Err(TargetCfgErrorKind::BadTarget(e)),
            Ok(t) => Ok(selected == Some(t)),
        },
        TargetPredV::List { name, args } => if name == Some("not"@) {
            if args.len() != 1 {
                Err(TargetCfgErrorKind::ExpectedSinglePredicate)
            } else {
                match pred_value(args[0], selected) {
                    Err(e) => Err(e),
                    Ok(v) => Ok(!v),
                }
            }
        } else if name == Some("any"@) {
            any_value(args, selected)
        } else if name == Some("all"@) {
            all_value(args, selected)
        } else {
            Err(TargetCfgErrorKind::ExpectedNotAnyAll)
        },
    }
}

/// `any(..)`: the first predicate that holds or fails decides.
pub open spec fn any_value(ps: Seq<TargetPredV>, selected: SelectedV) -> Result<bool, TargetCfgErrorKind>
    decreases ps, 1nat,
{
    if ps.len() == 0 {
        Ok(false)
    } else {
        match pred_value(ps[0], selected) {
            Err(e) => Err(e),
            Ok(true) => Ok(true),
            Ok(false) => any_value(ps.drop_first(), selected),
        }
    }
}

/// `all(..)`: the first predicate that does not hold or fails decides.
pub open spec fn all_value(ps: Seq<TargetPredV>, selected: SelectedV) -> Result<bool, TargetCfgErrorKind>
    decreases ps, 1nat,
{
    if ps.len() == 0 {
        Ok(true)
    } else {
        match pred_value(ps[0], selected) {
            Err(e) => Err(e),
            Ok(false) => Ok(false),
            Ok(true) => all_value(ps.drop_first(), selected),
        }
    }
}

/// The version's target as plain values.
pub open spec fn selected_v(t: Option<&Target>) -> SelectedV {
    match t {
        Some(t) => Some((t.arch_view(), t.features_view().to_set())),
        None => None,
    }
}

/// The views of a list, element by element.
pub proof fn lemma_preds_v(ps: Seq<TargetPred>)
    ensures
        preds_v(ps).len() == ps.len(),
        forall|i: int| 0 <= i < ps.len() ==> #[trigger] preds_v(ps)[i] == pred_v(&ps[i]),
    decreases ps.len(),
{
    if ps.len() > 0 {
        lemma_preds_v(ps.drop_last());
        assert forall|i: int| 0 <= i < ps.len() implies #[trigger] preds_v(ps)[i] == pred_v(&ps[i]) by {
            if i < ps.len() - 1 {
                assert(ps.drop_last()[i] == ps[i]);
            }
        }
    }
}

/// The value of a predicate in the version whose target is `selected`
/// (`None` for the default version).
#[verifier::loop_isolation(false)]
pub fn target_cfg_value(p: &TargetPred, selected: Option<&Target>) -> (r: Result<bool, TargetCfgError>)
    ensures
        match r {
            Ok(b) => pred_value(pred_v(p), selected_v(selected)) == Ok::<bool, TargetCfgErrorKind>(b),
            Err(e) => pred_value(pred_v(p), selected_v(selected)) == Err::<bool, TargetCfgErrorKind>(e.kind()),
        },
    decreases p,
{
    proof {
        reveal_strlit("not");
        reveal_strlit("any");
        reveal_strlit("all");
    }
    match p {
        TargetPred::Path => Err(TargetCfgError::UnexpectedPath),
        TargetPred::Lit => Err(TargetCfgError::UnexpectedLiteral),
        TargetPred::OtherKey => Err(TargetCfgError::UnknownKey),
        TargetPred::Target(None) => Err(TargetCfgError::ExpectedStringLiteral),
        TargetPred::Target(Some(s)) => match Target::parse(s.as_str()) {
            Err(e) => Err(TargetCfgError::BadTarget(e)),
            Ok(t) => match selected {
                None => Ok(false),
                Some(sel) => Ok(t.equivalent(sel)),
            },
        },
        TargetPred::List { name, args } => {
            let ghost sel = selected_v(selected);
            let ghost vs = preds_v(args@);
            proof {
                lemma_preds_v(args@);
            }
            assert(*args == (*p)->args);
            assert(decreases_to!(*p => (*p)->args));
            assert(decreases_to!(*args => args@));
            let which: u8 = match name {
                None => 3,
                Some(n) => if eq(n.as_str(), "not") {
                    0
                } else if eq(n.as_str(), "any") {
                    1
                } else if eq(n.as_str(), "all") {
                    2
                } else {
                    3
                },
            };
            if which == 3 {
                return Err(TargetCfgError::ExpectedNotAnyAll);
            }
            if which == 0 {
                if args.len() != 1 {
                    return Err(TargetCfgError::ExpectedSinglePredicate);
                }
                assert(decreases_to!(args@ => args@[0]));
                return match target_cfg_value(&args[0], selected) {
                    Err(e) => Err(e),
                    Ok(v) => Ok(!v),
                };
            }
            let stop_on: bool = which == 1;
            let mut i: usize = 0;
            assert(vs.skip(0) =~= vs);
            while i < args.len()
                invariant
                    vs == preds_v(args@),
                    vs.len() == args@.len(),
                    forall|k: int| 0 <= k < args@.len() ==> #[trigger] vs[k] == pred_v(&args@[k]),
                    i <= args@.len(),
                    stop_on ==> any_value(vs, sel) == any_value(vs.skip(i as int), sel),
                    !stop_on ==> all_value(vs, sel) == all_value(vs.skip(i as int), sel),
                decreases args@.len() - i,
            {
                assert(decreases_to!(args@ => args@[i as int]));
                assert(vs.skip(i as int)[0] == vs[i as int]);
                assert(vs.skip(i as int).drop_first() =~= vs.skip(i + 1));
                match target_cfg_value(&args[i], selected) {
                    Err(e) => {
                        return Err(e);
                    },
                    Ok(v) => {
                        if v == stop_on {
                            return Ok(v);
                        }
                    },
                }
                i += 1;
            }
            assert(vs.skip(i as int) =~= Seq::<TargetPredV>::empty());
            Ok(!stop_on)
        },
    }
}

/// The value of a `#[target_cfg(..)]` attribute with the predicates `args`:
/// it takes exactly one.
pub open spec fn attr_value(args: Seq<TargetPredV>, selected: SelectedV) -> Result<bool, TargetCfgErrorKind> {
    if args.len() != 1 {
        Err(TargetCfgErrorKind::ExpectedSinglePredicate)
    } else {
        pred_value(args[0], selected)
    }
}

/// The attribute that replaces `#[target_cfg(..)]`: `#[cfg(not(any()))]`
/// where the predicate holds in the version, `#[cfg(any())]` where it does not.
pub fn replace_target_cfg(args: &Vec<TargetPred>, selected: Option<&Target>) -> (r: Result<&'static str, TargetCfgError>)
    ensures
        match r {
            Ok(a) => attr_value(preds_v(args@), selected_v(selected)) matches Ok(b) && a@ == (if b {
                "#[cfg(not(any()))]"@
            } else {
                "#[cfg(any())]"@
            }),
            Err(e) => attr_value(preds_v(args@), selected_v(selected)) == Err::<bool, TargetCfgErrorKind>(e.kind()),
        },
{
    proof {
        lemma_preds_v(args@);
    }
    if args.len() != 1 {
        return Err(TargetCfgError::ExpectedSinglePredicate);
    }
    match target_cfg_value(&args[0], selected) {
        Err(e) => Err(e),
        Ok(true) => Ok("#[cfg(not(any()))]"),
        Ok(false) => Ok("#[cfg(any())]"),
    }
}

} // verus!
