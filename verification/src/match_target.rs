//! `match_target!`: arms of target strings, the first arm whose target the
//! selected target satisfies is compiled.
use vstd::prelude::*;
use crate::target::{Target, TargetError, TargetErrorKind, parse_spec};
use crate::text::{split, split_spec, views};
use crate::cfg::{
    CfgMetaV, CfgEnv, transform_spec, transform_list_spec, eval_spec, eval_all, with_features,
    lemma_transform_counts_features,
};

verus! {

/// A literal in a pattern: a string, or `None` for any other literal.
pub type LitPattern = Option<String>;

/// One alternative of an or-pattern.
#[derive(Debug)]
pub enum OrCase {
    Lit(LitPattern),
    /// A pattern that is not a literal.
    NotLit,
}

/// The pattern of an arm.
#[derive(Debug)]
pub enum ArmPattern {
    Lit(LitPattern),
    Or(Vec<OrCase>),
    /// `_`.
    Wild,
    /// Any other pattern.
    Other,
}

/// An arm of `match_target!`, as far as parsing reads it; its body stays
/// with the caller, which refers to it by the arm's index.
#[derive(Debug)]
pub struct Arm {
    pub has_attrs: bool,
    pub has_guard: bool,
    pub pattern: ArmPattern,
}

/// Why the arms were refused.
pub enum MatchErrorKind {
    UnexpectedAttribute,
    UnexpectedGuard,
    ExpectedStringLiteral,
    UnreachableTargets,
    BadTarget(TargetErrorKind),
}

/// Why the arms were refused.
#[derive(Debug)]
pub enum MatchError {
    UnexpectedAttribute,
    UnexpectedGuard,
    ExpectedStringLiteral,
    /// An arm follows the `_` arm.
    UnreachableTargets,
    BadTarget(TargetError),
}

impl MatchError {
    pub open spec fn kind(&self) -> MatchErrorKind {
        match self {
            MatchError::UnexpectedAttribute => MatchErrorKind::UnexpectedAttribute,
            MatchError::UnexpectedGuard => MatchErrorKind::UnexpectedGuard,
            MatchError::ExpectedStringLiteral => MatchErrorKind::ExpectedStringLiteral,
            MatchError::UnreachableTargets => MatchErrorKind::UnreachableTargets,
            MatchError::BadTarget(e) => MatchErrorKind::BadTarget(e.kind()),
        }
    }
}

/// The parsed arms: each target with the index of the arm whose body it
/// selects, and the arm of `_`, if any.
#[derive(Debug)]
pub struct MatchArms {
    pub arms: Vec<(Target, usize)>,
    pub default_arm: Option<usize>,
}

/// A target with the arm it selects, as plain values.
pub open spec fn arm_target_views(arms: Seq<(Target, usize)>) -> Seq<(Seq<char>, Set<Seq<char>>, int)> {
    arms.map_values(|a: (Target, usize)| (a.0.arch_view(), a.0.features_view().to_set(), a.1 as int))
}

/// The target of a literal pattern.
pub open spec fn lit_target(l: LitPattern) -> Result<(Seq<char>, Set<Seq<char>>), MatchErrorKind> {
    match l {
        None => Err(MatchErrorKind::ExpectedStringLiteral),
        Some(s) => match parse_spec(s@) {
            Err(e) => Err(MatchErrorKind::BadTarget(e)),
            Ok(t) => Ok(t),
        },
    }
}

/// The targets of the alternatives of an or-pattern, in order.
pub open spec fn or_targets(cases: Seq<OrCase>) -> Result<Seq<(Seq<char>, Set<Seq<char>>)>, MatchErrorKind>
    decreases cases.len(),
{
    if cases.len() == 0 {
        Ok(Seq::empty())
    } else {
        match or_targets(cases.drop_last()) {
            Err(e) => Err(e),
            Ok(v) => match cases.last() {
                OrCase::NotLit => Err(MatchErrorKind::ExpectedStringLiteral),
                OrCase::Lit(l) => match lit_target(l) {
                    Err(e) => Err(e),
                    Ok(t) => Ok(v.push(t)),
                },
            },
        }
    }
}

/// Each target paired with arm `i`.
pub open spec fn with_arm(ts: Seq<(Seq<char>, Set<Seq<char>>)>, i: int) -> Seq<(Seq<char>, Set<Seq<char>>, int)> {
    ts.map_values(|t: (Seq<char>, Set<Seq<char>>)| (t.0, t.1, i))
}

/// The arms parsed so far: the targets with their arms, and the `_` arm.
pub open spec fn arms_spec(arms: Seq<Arm>, n: int) -> Result<(Seq<(Seq<char>, Set<Seq<char>>, int)>, Option<int>), MatchErrorKind>
    decreases n,
{
    if n <= 0 {
        Ok((Seq::empty(), None))
    } else {
        match arms_spec(arms, n - 1) {
            Err(e) => Err(e),
            Ok((ts, d)) => {
                let arm = arms[n - 1];
                if arm.has_attrs {
                    Err(MatchErrorKind::UnexpectedAttribute)
                } else if arm.has_guard {
                    Err(MatchErrorKind::UnexpectedGuard)
                } else {
                    match arm.pattern {
                        ArmPattern::Lit(l) => match lit_target(l) {
                            Err(e) => Err(e),
                            Ok(t) => Ok((ts.push((t.0, t.1, n - 1)), d)),
                        },
                        ArmPattern::Or(cases) => match or_targets(cases@) {
                            Err(e) => Err(e),
                            Ok(v) => Ok((ts + with_arm(v, n - 1), d)),
                        },
                        ArmPattern::Wild => if n - 1 < arms.len() - 1 {
                            Err(MatchErrorKind::UnreachableTargets)
                        } else {
                            Ok((ts, Some(n - 1)))
                        },
                        ArmPattern::Other => Err(MatchErrorKind::ExpectedStringLiteral),
                    }
                }
            },
        }
    }
}

fn lit_to_target(l: &LitPattern) -> (r: Result<Target, MatchError>)
    ensures
        match r {
            Ok(t) => t.wf() && lit_target(*l) == Ok::<_, MatchErrorKind>((t.arch_view(), t.features_view().to_set())),
            Err(e) => lit_target(*l) == Err::<(Seq<char>, Set<Seq<char>>), _>(e.kind()),
        },
{
    match l {
        None => Err(MatchError::ExpectedStringLiteral),
        Some(s) => match Target::parse(s.as_str()) {
            Err(e) => Err(MatchError::BadTarget(e)),
            Ok(t) => Ok(t),
        },
    }
}

/// Parses the arms of `match_target!`.
#[verifier::loop_isolation(false)]
pub fn parse_arms(arms: &Vec<Arm>) -> (r: Result<MatchArms, MatchError>)
    ensures
        match r {
            Ok(m) => {
                &&& arms_spec(arms@, arms@.len() as int) == Ok::<_, MatchErrorKind>((
                    arm_target_views(m.arms@),
                    match m.default_arm {
                        Some(i) => Some(i as int),
                        None => None::<int>,
                    },
                ))
                &&& forall|k: int| 0 <= k < m.arms@.len() ==> (#[trigger] m.arms@[k]).0.wf()
            },
            Err(e) => arms_spec(arms@, arms@.len() as int) == Err::<(Seq<(Seq<char>, Set<Seq<char>>, int)>, Option<int>), _>(e.kind()),
        },
{
    let n = arms.len();
    let mut out: Vec<(Target, usize)> = Vec::new();
    let mut default_arm: Option<usize> = None;
    let mut i: usize = 0;
    assert(arm_target_views(out@) =~= Seq::<(Seq<char>, Set<Seq<char>>, int)>::empty());
    while i < n
        invariant
            n == arms@.len(),
            i <= n,
            arms_spec(arms@, i as int) == Ok::<_, MatchErrorKind>((
                arm_target_views(out@),
                match default_arm {
                    Some(k) => Some(k as int),
                    None => None::<int>,
                },
            )),
            forall|k: int| 0 <= k < out@.len() ==> (#[trigger] out@[k]).0.wf(),
        decreases n - i,
    {
        let arm = &arms[i];
        if arm.has_attrs {
            proof { lemma_arms_error(arms@, i + 1, n as int); }
            return Err(MatchError::UnexpectedAttribute);
        }
        if arm.has_guard {
            proof { lemma_arms_error(arms@, i + 1, n as int); }
            return Err(MatchError::UnexpectedGuard);
        }
        match &arm.pattern {
            ArmPattern::Lit(l) => match lit_to_target(l) {
                Err(e) => {
                    proof { lemma_arms_error(arms@, i + 1, n as int); }
                    return Err(e);
                },
                Ok(t) => {
                    let ghost before = arm_target_views(out@);
                    let ghost entry = (t.arch_view(), t.features_view().to_set(), i as int);
                    out.push((t, i));
                    assert(arm_target_views(out@) =~= before.push(entry));
                },
            },
            ArmPattern::Or(cases) => {
                let ghost before = arm_target_views(out@);
                let m = cases.len();
                let mut j: usize = 0;
                assert(cases@.take(0) =~= Seq::<OrCase>::empty());
                assert(with_arm(Seq::<(Seq<char>, Set<Seq<char>>)>::empty(), i as int) =~= Seq::<(Seq<char>, Set<Seq<char>>, int)>::empty());
                assert(before + Seq::<(Seq<char>, Set<Seq<char>>, int)>::empty() =~= before);
                while j < m
                    invariant
                        m == cases@.len(),
                        j <= m,
                        or_targets(cases@.take(j as int)) matches Ok(v) && arm_target_views(out@) == before + with_arm(v, i as int),
                        forall|k: int| 0 <= k < out@.len() ==> (#[trigger] out@[k]).0.wf(),
                    decreases m - j,
                {
                    assert(cases@.take(j + 1).drop_last() =~= cases@.take(j as int));
                    assert(cases@.take(j + 1).last() == cases@[j as int]);
                    let ghost v = or_targets(cases@.take(j as int))->Ok_0;
                    match &cases[j] {
                        OrCase::NotLit => {
                            proof {
                                lemma_or_error(cases@, j + 1, m as int);
                                lemma_arms_error(arms@, i + 1, n as int);
                            }
                            return Err(MatchError::ExpectedStringLiteral);
                        },
                        OrCase::Lit(l) => match lit_to_target(l) {
                            Err(e) => {
                                proof {
                                    lemma_or_error(cases@, j + 1, m as int);
                                    lemma_arms_error(arms@, i + 1, n as int);
                                }
                                return Err(e);
                            },
                            Ok(t) => {
                                let ghost pre = arm_target_views(out@);
                                let ghost pair = (t.arch_view(), t.features_view().to_set());
                                out.push((t, i));
                                assert(arm_target_views(out@) =~= pre.push((pair.0, pair.1, i as int)));
                                assert(with_arm(v.push(pair), i as int) =~= with_arm(v, i as int).push((pair.0, pair.1, i as int)));
                                assert(arm_target_views(out@) =~= before + with_arm(v.push(pair), i as int));
                            },
                        },
                    }
                    j += 1;
                }
                assert(cases@.take(m as int) =~= cases@);
            },
            ArmPattern::Wild => {
                if i + 1 < n {
                    proof { lemma_arms_error(arms@, i + 1, n as int); }
                    return Err(MatchError::UnreachableTargets);
                }
                default_arm = Some(i);
            },
            ArmPattern::Other => {
                proof { lemma_arms_error(arms@, i + 1, n as int); }
                return Err(MatchError::ExpectedStringLiteral);
            },
        }
        i += 1;
    }
    Ok(MatchArms { arms: out, default_arm })
}

proof fn lemma_arms_error(arms: Seq<Arm>, m: int, n: int)
    requires
        0 <= m <= n,
        arms_spec(arms, m) is Err,
    ensures
        arms_spec(arms, n) == arms_spec(arms, m),
    decreases n - m,
{
    if m < n {
        lemma_arms_error(arms, m, n - 1);
    }
}

proof fn lemma_or_error(cases: Seq<OrCase>, m: int, n: int)
    requires
        0 <= m <= n,
        n == cases.len(),
        or_targets(cases.take(m)) is Err,
    ensures
        or_targets(cases) == or_targets(cases.take(m)),
    decreases n - m,
{
    if m < n {
        assert(cases.take(m + 1).drop_last() =~= cases.take(m));
        lemma_or_error(cases, m + 1, n);
    } else {
        assert(cases.take(m) =~= cases);
    }
}

/// The target string of an alternative, where it is a string literal.
pub open spec fn alt_string(c: OrCase) -> Option<Seq<char>> {
    match c {
        OrCase::Lit(Some(s)) => Some(s@),
        _ => None,
    }
}

/// From position `o` on, the parsed targets are those of the alternatives
/// `cases`, in order, each paired with arm `i`.
pub open spec fn alternatives_at(ts: Seq<(Seq<char>, Set<Seq<char>>, int)>, o: int, cases: Seq<OrCase>, i: int) -> bool {
    &&& 0 <= o
    &&& o + cases.len() <= ts.len()
    &&& forall|j: int|
        0 <= j < cases.len() ==> match alt_string(#[trigger] cases[j]) {
            None => false,
            Some(s) => parse_spec(s) == Ok::<_, TargetErrorKind>((ts[o + j].0, ts[o + j].1)) && ts[o + j].2 == i,
        }
}

/// The targets of an or-pattern are those of its alternatives, one each,
/// in order.
proof fn lemma_or_alternatives(cases: Seq<OrCase>)
    requires
        or_targets(cases) is Ok,
    ensures
        or_targets(cases)->Ok_0.len() == cases.len(),
        forall|j: int|
            0 <= j < cases.len() ==> match alt_string(#[trigger] cases[j]) {
                None => false,
                Some(s) => parse_spec(s) == Ok::<_, TargetErrorKind>(or_targets(cases)->Ok_0[j]),
            },
    decreases cases.len(),
{
    if cases.len() > 0 {
        let init = cases.drop_last();
        lemma_or_alternatives(init);
        let v = or_targets(cases)->Ok_0;
        assert forall|j: int| 0 <= j < cases.len() implies match alt_string(#[trigger] cases[j]) {
            None => false,
            Some(s) => parse_spec(s) == Ok::<_, TargetErrorKind>(v[j]),
        } by {
            if j < cases.len() - 1 {
                assert(cases[j] == init[j]);
            }
        }
    }
}

proof fn lemma_arm_targets_upto(arms: Seq<Arm>, n: int)
    requires
        0 <= n <= arms.len(),
        arms_spec(arms, n) is Ok,
    ensures
        forall|k: int| 0 <= k < arms_spec(arms, n)->Ok_0.0.len() ==> 0 <= #[trigger] arms_spec(arms, n)->Ok_0.0[k].2 < n,
        forall|i: int|
            0 <= i < n ==> match (#[trigger] arms[i]).pattern {
                ArmPattern::Or(cases) => exists|o: int| alternatives_at(arms_spec(arms, n)->Ok_0.0, o, cases@, i),
                ArmPattern::Lit(Some(s)) => exists|k: int|
                    0 <= k < arms_spec(arms, n)->Ok_0.0.len() && parse_spec(s@) == Ok::<_, TargetErrorKind>(
                        (arms_spec(arms, n)->Ok_0.0[k].0, arms_spec(arms, n)->Ok_0.0[k].1),
                    ) && arms_spec(arms, n)->Ok_0.0[k].2 == i,
                _ => true,
            },
    decreases n,
{
    if n > 0 {
        lemma_arm_targets_upto(arms, n - 1);
        let prev = arms_spec(arms, n - 1)->Ok_0.0;
        let ts = arms_spec(arms, n)->Ok_0.0;
        let p = prev.len() as int;
        assert(ts.len() >= p && ts.subrange(0, p) =~= prev) by {
            match arms[n - 1].pattern {
                ArmPattern::Or(cases) => {
                    assert(ts == prev + with_arm(or_targets(cases@)->Ok_0, n - 1));
                },
                _ => {},
            }
        }
        assert forall|k: int| 0 <= k < ts.len() implies 0 <= #[trigger] ts[k].2 < n by {
            if k < p {
                assert(ts[k] == ts.subrange(0, p)[k]);
            }
        }
        assert forall|i: int| 0 <= i < n implies match (#[trigger] arms[i]).pattern {
            ArmPattern::Or(cases) => exists|o: int| alternatives_at(ts, o, cases@, i),
            ArmPattern::Lit(Some(s)) => exists|k: int|
                0 <= k < ts.len() && parse_spec(s@) == Ok::<_, TargetErrorKind>((ts[k].0, ts[k].1)) && ts[k].2 == i,
            _ => true,
        } by {
            if i < n - 1 {
                match arms[i].pattern {
                    ArmPattern::Or(cases) => {
                        let o = choose|o: int| alternatives_at(prev, o, cases@, i);
                        assert forall|j: int| 0 <= j < cases@.len() implies match alt_string(#[trigger] cases@[j]) {
                            None => false,
                            Some(s) => parse_spec(s) == Ok::<_, TargetErrorKind>((ts[o + j].0, ts[o + j].1))
                                && ts[o + j].2 == i,
                        } by {
                            assert(ts.subrange(0, p)[o + j] == ts[o + j]);
                            assert(ts[o + j] == prev[o + j]);
                        }
                        assert(alternatives_at(ts, o, cases@, i));
                    },
                    ArmPattern::Lit(Some(s)) => {
                        let k = choose|k: int|
                            0 <= k < prev.len() && parse_spec(s@) == Ok::<_, TargetErrorKind>((prev[k].0, prev[k].1))
                                && prev[k].2 == i;
                        assert(ts.subrange(0, p)[k] == ts[k]);
                        assert(ts[k] == prev[k]);
                    },
                    _ => {},
                }
            } else {
                match arms[i].pattern {
                    ArmPattern::Or(cases) => {
                        lemma_or_alternatives(cases@);
                        let v = or_targets(cases@)->Ok_0;
                        assert(ts == prev + with_arm(v, i));
                        assert forall|j: int| 0 <= j < cases@.len() implies match alt_string(#[trigger] cases@[j]) {
                            None => false,
                            Some(s) => parse_spec(s) == Ok::<_, TargetErrorKind>((ts[p + j].0, ts[p + j].1))
                                && ts[p + j].2 == i,
                        } by {
                            assert(ts[p + j] == with_arm(v, i)[j]);
                        }
                        assert(alternatives_at(ts, p, cases@, i));
                    },
                    ArmPattern::Lit(Some(s)) => {
                        assert(ts[p].2 == i);
                    },
                    _ => {},
                }
            }
        }
    }
}

/// Every string literal of an arm's pattern, whether the whole pattern or an
/// alternative of an or-pattern, selects that arm: the parsed targets hold its
/// target paired with the arm's index, the alternatives of an or-pattern in
/// their order; and every parsed target belongs to one of the arms.
pub proof fn lemma_parsed_arm_targets(arms: Seq<Arm>)
    requires
        arms_spec(arms, arms.len() as int) is Ok,
    ensures
        forall|k: int|
            0 <= k < arms_spec(arms, arms.len() as int)->Ok_0.0.len() ==> 0 <= #[trigger] arms_spec(
                arms,
                arms.len() as int,
            )->Ok_0.0[k].2 < arms.len(),
        forall|i: int|
            0 <= i < arms.len() ==> match (#[trigger] arms[i]).pattern {
                ArmPattern::Or(cases) => exists|o: int|
                    alternatives_at(arms_spec(arms, arms.len() as int)->Ok_0.0, o, cases@, i),
                ArmPattern::Lit(Some(s)) => exists|k: int|
                    0 <= k < arms_spec(arms, arms.len() as int)->Ok_0.0.len() && parse_spec(s@) == Ok::<
                        _,
                        TargetErrorKind,
                    >(
                        (
                            arms_spec(arms, arms.len() as int)->Ok_0.0[k].0,
                            arms_spec(arms, arms.len() as int)->Ok_0.0[k].1,
                        ),
                    ) && arms_spec(arms, arms.len() as int)->Ok_0.0[k].2 == i,
                _ => true,
            },
{
    lemma_arm_targets_upto(arms, arms.len() as int);
}

} // verus!

verus! {

/// Whether an arm's target holds: its architecture is the compile-time one
/// and each of its features is available.
pub open spec fn arm_holds(t: (Seq<char>, Set<Seq<char>>, int), arch: Seq<char>, available: spec_fn(Seq<char>) -> bool) -> bool {
    t.0 == arch && forall|f: Seq<char>| #[trigger] t.1.contains(f) ==> available(f)
}

/// The first target, in order, that holds.
pub open spec fn first_arm(ts: Seq<(Seq<char>, Set<Seq<char>>, int)>, arch: Seq<char>, available: spec_fn(Seq<char>) -> bool) -> Option<int>
    decreases ts.len(),
{
    if ts.len() == 0 {
        None
    } else {
        match first_arm(ts.drop_last(), arch, available) {
            Some(i) => Some(i),
            None => if arm_holds(ts.last(), arch, available) {
                Some(ts.len() - 1)
            } else {
                None
            },
        }
    }
}

/// The features available to the arms: those enabled at compile time, and
/// those of the selected target, listed with commas.
pub open spec fn available_spec(enabled: Seq<Seq<char>>, selected: Seq<char>) -> spec_fn(Seq<char>) -> bool {
    |f: Seq<char>| enabled.contains(f) || split_spec(selected, ',').contains(f)
}

/// What a `match_target!` compiles to.
#[derive(PartialEq, Eq, Structural, Clone, Copy, Debug)]
pub enum MatchOutcome {
    /// The body of this arm.
    Arm(usize),
    /// No target holds and there is no `_` arm: a compile error.
    NoMatch,
}

fn all_in(features: &[String], enabled: &[String], selected: &Vec<String>) -> (r: bool)
    ensures
        r == forall|k: int| 0 <= k < features@.len() ==> (views(enabled@).contains(#[trigger] views(features@)[k]) || views(selected@).contains(views(features@)[k])),
{
    let mut k: usize = 0;
    while k < features.len()
        invariant
            k <= features@.len(),
            forall|m: int| 0 <= m < k ==> (views(enabled@).contains(#[trigger] views(features@)[m]) || views(selected@).contains(views(features@)[m])),
        decreases features@.len() - k,
    {
        let f = features[k].as_str();
        assert(views(features@)[k as int] == f@);
        if !(list_has(enabled, f) || list_has(selected.as_slice(), f)) {
            return false;
        }
        k += 1;
    }
    true
}

fn list_has(list: &[String], s: &str) -> (r: bool)
    ensures
        r == views(list@).contains(s@),
{
    let mut i: usize = 0;
    while i < list.len()
        invariant
            i <= list@.len(),
            forall|j: int| 0 <= j < i ==> list@[j]@ != s@,
        decreases list@.len() - i,
    {
        if crate::strings::eq(list[i].as_str(), s) {
            assert(views(list@)[i as int] == s@);
            return true;
        }
        i += 1;
    }
    assert(!views(list@).contains(s@)) by {
        if views(list@).contains(s@) {
            let k = choose|k: int| 0 <= k < views(list@).len() && views(list@)[k] == s@;
            assert(list@[k]@ == s@);
        }
    }
    false
}

/// The arm that `match_target!` compiles for a build for `arch` with the
/// `enabled` features, inside the version whose features are `selected`
/// (listed with commas).
#[verifier::loop_isolation(false)]
pub fn select_arm(m: &MatchArms, selected: &str, arch: &str, enabled: &[String]) -> (r: MatchOutcome)
    ensures
        r == match first_arm(arm_target_views(m.arms@), arch@, available_spec(views(enabled@), selected@)) {
            Some(i) => MatchOutcome::Arm(m.arms@[i].1),
            None => match m.default_arm {
                Some(d) => MatchOutcome::Arm(d),
                None => MatchOutcome::NoMatch,
            },
        },
{
    let selected_features = split(selected, ',');
    let ghost ts = arm_target_views(m.arms@);
    let ghost avail = available_spec(views(enabled@), selected@);
    let n = m.arms.len();
    let mut i: usize = 0;
    assert(ts.take(0) =~= Seq::<(Seq<char>, Set<Seq<char>>, int)>::empty());
    while i < n
        invariant
            n == m.arms@.len(),
            i <= n,
            first_arm(ts.take(i as int), arch@, avail) is None,
        decreases n - i,
    {
        let t = &m.arms[i].0;
        assert(ts.take(i + 1).drop_last() =~= ts.take(i as int));
        assert(ts.take(i + 1).last() == ts[i as int]);
        let t_arch = t.arch();
        let arch_ok = crate::strings::eq(t_arch, arch);
        let feats = t.features();
        let feats_ok = all_in(feats, enabled, &selected_features);
        let holds = arch_ok && feats_ok;
        assert(ts[i as int] == (t.arch_view(), t.features_view().to_set(), m.arms@[i as int].1 as int));
        assert(views(selected_features@) == split_spec(selected@, ','));
        let ghost fv = t.features_view();
        proof {
            assert(views(feats@) == fv);
            if holds {
                assert forall|f: Seq<char>| #[trigger] fv.to_set().contains(f) implies avail(f) by {
                    let k = choose|k: int| 0 <= k < fv.len() && fv[k] == f;
                    assert(views(feats@)[k] == f);
                    assert(views(enabled@).contains(f) || views(selected_features@).contains(f));
                }
                assert(arm_holds(ts[i as int], arch@, avail));
            } else if arch_ok {
                let k = choose|k: int| 0 <= k < fv.len() && !(views(enabled@).contains(#[trigger] views(feats@)[k]) || views(selected_features@).contains(views(feats@)[k]));
                assert(fv.to_set().contains(fv[k]));
                assert(!avail(fv[k]));
                assert(ts[i as int].1 == fv.to_set());
                assert(ts[i as int].1.contains(fv[k]));
                assert(!arm_holds(ts[i as int], arch@, avail));
            } else {
                assert(t_arch@ != arch@);
                assert(ts[i as int].0 == t_arch@);
                assert(!arm_holds(ts[i as int], arch@, avail));
            }
        }
        if holds {
            assert(first_arm(ts.take(i + 1), arch@, avail) == Some(i as int));
            proof { lemma_first_arm_prefix(ts, i + 1, arch@, avail); }
            return MatchOutcome::Arm(m.arms[i].1);
        }
        i += 1;
    }
    assert(ts.take(n as int) =~= ts);
    match m.default_arm {
        Some(d) => MatchOutcome::Arm(d),
        None => MatchOutcome::NoMatch,
    }
}

proof fn lemma_first_arm_prefix(ts: Seq<(Seq<char>, Set<Seq<char>>, int)>, n: int, arch: Seq<char>, available: spec_fn(Seq<char>) -> bool)
    requires
        0 <= n <= ts.len(),
        first_arm(ts.take(n), arch, available) is Some,
    ensures
        first_arm(ts, arch, available) == first_arm(ts.take(n), arch, available),
    decreases ts.len() - n,
{
    if n < ts.len() {
        assert(ts.take(n + 1).drop_last() =~= ts.take(n));
        assert(first_arm(ts.take(n + 1), arch, available) == first_arm(ts.take(n), arch, available));
        lemma_first_arm_prefix(ts, n + 1, arch, available);
    } else {
        assert(ts.take(n) =~= ts);
    }
}

/// `target_feature = "f"`.
pub open spec fn feature_pred(f: Seq<char>) -> CfgMetaV {
    CfgMetaV::NameValue { path: "target_feature"@, value: Some(f) }
}

/// The predicates of an arm's target: `target_arch = "arch"`, then
/// `target_feature = "f"` for each feature.
pub open spec fn arm_cfg_args(arch: Seq<char>, features: Seq<Seq<char>>) -> Seq<CfgMetaV> {
    seq![CfgMetaV::NameValue { path: "target_arch"@, value: Some(arch) }] + features.map_values(
        |f: Seq<char>| feature_pred(f),
    )
}

/// The `cfg` that an arm for a target compiles under, before rewriting:
/// `all(target_arch = "arch", target_feature = "f", ..)`.
pub open spec fn arm_cfg(arch: Seq<char>, features: Seq<Seq<char>>) -> CfgMetaV {
    CfgMetaV::List { path: "all"@, parsed: true, args: arm_cfg_args(arch, features) }
}

/// A build for architecture `arch` with the `enabled` target features.
pub open spec fn build_env(arch: Seq<char>, enabled: Seq<Seq<char>>) -> CfgEnv {
    CfgEnv {
        features: enabled.to_set(),
        names: |n: Seq<char>| false,
        pairs: |k: Seq<char>, v: Seq<char>| k == "target_arch"@ && v == arch,
    }
}

proof fn lemma_arch_key_is_not_feature_key()
    ensures
        "target_arch"@ != "target_feature"@,
{
    reveal_strlit("target_arch");
    reveal_strlit("target_feature");
    assert("target_arch"@.len() == 11);
    assert("target_feature"@.len() == 14);
}

proof fn lemma_arm_cfg_args_rewrite(sel: Seq<Seq<char>>, arch: Seq<char>, features: Seq<Seq<char>>, env: CfgEnv)
    requires
        (env.pairs)("target_arch"@, arch),
    ensures
        transform_list_spec(sel, arm_cfg_args(arch, features)) is Some,
        eval_all(arm_cfg_args(arch, features), with_features(env, sel)) == Some(
            forall|k: int| 0 <= k < features.len() ==> with_features(env, sel).features.contains(#[trigger] features[k]),
        ),
    decreases features.len(),
{
    lemma_arch_key_is_not_feature_key();
    let args = arm_cfg_args(arch, features);
    let e2 = with_features(env, sel);
    let last = args.last();
    if features.len() == 0 {
        assert(args =~= seq![CfgMetaV::NameValue { path: "target_arch"@, value: Some(arch) }]);
        assert(args.drop_last() =~= Seq::<CfgMetaV>::empty());
        assert(last == CfgMetaV::NameValue { path: "target_arch"@, value: Some(arch) });
        assert(transform_list_spec(sel, args.drop_last()) == Some(Seq::<CfgMetaV>::empty()));
        assert(transform_spec(sel, last) == Some(last));
        assert(transform_list_spec(sel, args) == Some(Seq::<CfgMetaV>::empty().push(last)));
        assert(eval_all(args.drop_last(), e2) == Some(true));
        assert(eval_spec(last, e2) == Some(true));
        assert(eval_all(args, e2) == Some(true));
    } else {
        let init = features.drop_last();
        lemma_arm_cfg_args_rewrite(sel, arch, init, env);
        assert(args.drop_last() =~= arm_cfg_args(arch, init));
        assert(last == feature_pred(features.last()));
        let prev = transform_list_spec(sel, args.drop_last())->0;
        assert(transform_spec(sel, last) is Some);
        assert(transform_list_spec(sel, args) is Some);
        assert(eval_spec(last, e2) == Some(e2.features.contains(features.last())));
        assert((forall|k: int| 0 <= k < features.len() ==> e2.features.contains(#[trigger] features[k])) == (
            (forall|k: int| 0 <= k < init.len() ==> e2.features.contains(#[trigger] init[k])) && e2.features.contains(
                features.last(),
            ))) by {
            assert forall|k: int| 0 <= k < init.len() implies init[k] == #[trigger] features[k] by {}
        }
    }
}

/// The arm that `select_arm` reports is the one the compiler keeps: an
/// arm's `cfg`, rewritten with the selected target's features, holds in a
/// build for `arch` with the `enabled` features exactly where the arm's
/// target holds.
pub proof fn lemma_arm_cfg_holds(
    selected: Seq<char>,
    arch: Seq<char>,
    enabled: Seq<Seq<char>>,
    t_arch: Seq<char>,
    t_features: Seq<Seq<char>>,
    i: int,
)
    ensures
        transform_spec(split_spec(selected, ','), arm_cfg(t_arch, t_features)) matches Some(m) && eval_spec(
            m,
            build_env(arch, enabled),
        ) == Some(arm_holds((t_arch, t_features.to_set(), i), arch, available_spec(enabled, selected))),
{
    lemma_arch_key_is_not_feature_key();
    let sel = split_spec(selected, ',');
    let env = build_env(arch, enabled);
    let avail = available_spec(enabled, selected);
    let pred = arm_cfg(t_arch, t_features);
    let args = arm_cfg_args(t_arch, t_features);
    let e2 = with_features(env, sel);
    let fake = CfgEnv {
        features: env.features,
        names: env.names,
        pairs: |k: Seq<char>, v: Seq<char>| k == "target_arch"@ && v == t_arch,
    };
    lemma_arm_cfg_args_rewrite(sel, t_arch, t_features, fake);
    let new_args = transform_list_spec(sel, args)->0;
    assert(transform_spec(sel, pred) == Some(CfgMetaV::List { path: "all"@, parsed: true, args: new_args }));
    lemma_transform_counts_features(sel, pred, env);
    assert(eval_spec(pred, e2) == eval_all(args, e2));
    assert forall|f: Seq<char>| #[trigger] e2.features.contains(f) == avail(f) by {
        assert(enabled.to_set().contains(f) == enabled.contains(f));
        assert(sel.to_set().contains(f) == sel.contains(f));
    }
    let t = (t_arch, t_features.to_set(), i);
    assert(t.1 == t_features.to_set());
    let holds = arm_holds(t, arch, avail);
    if t_arch == arch {
        lemma_arm_cfg_args_rewrite(sel, arch, t_features, env);
        let all_in = forall|k: int| 0 <= k < t_features.len() ==> e2.features.contains(#[trigger] t_features[k]);
        assert(eval_all(args, e2) == Some(all_in));
        if all_in {
            assert forall|f: Seq<char>| #[trigger] t_features.to_set().contains(f) implies avail(f) by {
                let k = choose|k: int| 0 <= k < t_features.len() && t_features[k] == f;
                assert(e2.features.contains(t_features[k]));
            }
            assert(holds);
        } else {
            let k = choose|k: int| 0 <= k < t_features.len() && !e2.features.contains(#[trigger] t_features[k]);
            let g = t_features[k];
            assert(t_features.to_set().contains(g));
            assert(!avail(g));
            assert(t.1.contains(g));
            assert(!holds);
        }
    } else {
        assert forall|k: int| 0 <= k < args.len() implies eval_spec(#[trigger] args[k], e2) is Some by {
            if k > 0 {
                assert(args[k] == feature_pred(t_features[k - 1]));
            }
        }
        assert(args[0] == CfgMetaV::NameValue { path: "target_arch"@, value: Some(t_arch) });
        assert(eval_spec(args[0], e2) == Some(false));
        lemma_eval_all_first_false(args, e2);
        assert(!holds);
    }
}

/// Where the first predicate is `target_arch = "a"` that does not hold, the
/// conjunction does not hold, provided every predicate is well formed.
proof fn lemma_eval_all_first_false(args: Seq<CfgMetaV>, env: CfgEnv)
    requires
        args.len() >= 1,
        eval_spec(args[0], env) == Some(false),
        forall|k: int| 0 <= k < args.len() ==> eval_spec(#[trigger] args[k], env) is Some,
    ensures
        eval_all(args, env) == Some(false),
    decreases args.len(),
{
    if args.len() > 1 {
        lemma_eval_all_first_false(args.drop_last(), env);
        assert(args.drop_last()[0] == args[0]);
        assert forall|k: int| 0 <= k < args.len() - 1 implies eval_spec(#[trigger] args.drop_last()[k], env) is Some by {
            assert(args.drop_last()[k] == args[k]);
        }
        assert(eval_spec(args[args.len() - 1], env) is Some);
    } else {
        assert(args.drop_last() =~= Seq::<CfgMetaV>::empty());
        assert(args.last() == args[0]);
        assert(eval_all(args.drop_last(), env) == Some(true));
    }
}

} // verus!
