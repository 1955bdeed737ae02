//! The attribute form of multiversioning: `#[clone(target = "..")]` and
//! `#[specialize(target = "..", fn = "..", unsafe = true)]` attributes
//! beside `#[multiversion]`, read into a list of specializations.
use vstd::prelude::*;
use crate::cache::{call_spec, record_choice, DispatchCache};
use crate::strings::eq;
use crate::text::{views, append_str, join, join_spec};
use crate::legacy::{
    Architecture, LegacyErrorKind, LegacyTargetError, Target, arch_name, legacy_parse_spec, legacy_tv,
    parse_target_string, lemma_arch_name_injective,
};
use crate::dispatch::{bare_ident, first_match, lemma_first_match_prefix, lemma_first_match_is_first, all_available};

verus! {

/// A literal written as the value of a key.
#[derive(Debug)]
pub enum AttrLit {
    Str(String),
    Bool(bool),
    /// Any other literal.
    Other,
}

/// An item of an attribute's parenthesized list.
#[derive(Debug)]
pub enum AttrItem {
    /// `key = literal`; `key` is `None` where the name is a path of more
    /// than one segment.
    NameValue { key: Option<String>, value: AttrLit },
    /// A bare literal.
    Lit,
    /// A path or a nested list.
    Other,
}

/// An attribute of the function, as far as it is read.
#[derive(Debug)]
pub enum FnAttr {
    /// `name(items..)` whose name is a single identifier.
    List { name: String, items: Vec<AttrItem> },
    /// Any other attribute; it stays on the function.
    Other,
}

/// A specialization read from an attribute. The target string is kept as
/// written, and so is the name of the function.
#[derive(Debug)]
pub enum Specialization {
    /// A clone of the function's body compiled for the target, optionally
    /// under another name.
    Clone { target: String, func: Option<String> },
    /// A call of another function, for the target; `is_unsafe` says whether
    /// that function is unsafe to call.
    Override { target: String, func: String, is_unsafe: bool },
}

/// Why an attribute was refused.
#[derive(PartialEq, Eq, Structural, Clone, Copy, Debug)]
pub enum SpecErrorKind {
    /// A key that the attribute does not take, or a key that is a path.
    UnexpectedKey,
    /// A key given twice.
    KeyAlreadyProvided,
    /// An item that is neither a literal nor `key = value`.
    ExpectedNameValue,
    /// A bare literal.
    UnexpectedLiteral,
    /// No `target` key.
    ExpectedTargetKey,
    /// No `fn` key in `specialize`.
    ExpectedFnKey,
    /// A `target` or `fn` value that is not a string.
    ExpectedString,
    /// An `unsafe` value that is not a boolean.
    ExpectedBool,
}

/// Why the attributes were refused: the kind, and the index of the attribute.
#[derive(PartialEq, Eq, Structural, Clone, Copy, Debug)]
pub struct SpecError {
    pub attr: usize,
    pub kind: SpecErrorKind,
}

/// The specializations, in the order of their attributes, and the indices
/// of the attributes that stay on the function.
#[derive(Debug)]
pub struct SpecializedFn {
    pub specializations: Vec<Specialization>,
    pub kept: Vec<usize>,
}

/// A literal as a plain value.
pub enum AttrLitV {
    Str(Seq<char>),
    Bool(bool),
    Other,
}

pub open spec fn lit_v(l: AttrLit) -> AttrLitV {
    match l {
        AttrLit::Str(s) => AttrLitV::Str(s@),
        AttrLit::Bool(b) => AttrLitV::Bool(b),
        AttrLit::Other => AttrLitV::Other,
    }
}

/// A specialization as plain values.
pub enum SpecializationV {
    Clone { target: Seq<char>, func: Option<Seq<char>> },
    Override { target: Seq<char>, func: Seq<char>, is_unsafe: bool },
}

pub open spec fn spec_v(s: Specialization) -> SpecializationV {
    match s {
        Specialization::Clone { target, func } => SpecializationV::Clone {
            target: target@,
            func: match func {
                Some(f) => Some(f@),
                None => None,
            },
        },
        Specialization::Override { target, func, is_unsafe } => SpecializationV::Override {
            target: target@,
            func: func@,
            is_unsafe,
        },
    }
}

pub open spec fn specs_v(s: Seq<Specialization>) -> Seq<SpecializationV> {
    s.map_values(|x: Specialization| spec_v(x))
}

/// Where each key was found among the items: the indices of `target`,
/// `fn` and `unsafe`.
pub type KeyIndices = (Option<int>, Option<int>, Option<int>);

/// The keys that an attribute takes.
#[derive(PartialEq, Eq, Structural, Clone, Copy, Debug)]
pub enum KeySet {
    /// `clone(target = .., fn = ..)`.
    Clone,
    /// `specialize(target = .., fn = .., unsafe = ..)`.
    Specialize,
    /// `static_dispatch(fn = .., rename = ..)`.
    StaticDispatch,
}

/// Which key slot a name takes among `keys`: `target` the first, `fn` the
/// second, `unsafe` or `rename` the third.
pub open spec fn key_slot(name: Seq<char>, keys: KeySet) -> Option<int> {
    if name == "target"@ && keys != KeySet::StaticDispatch {
        Some(0)
    } else if name == "fn"@ {
        Some(1)
    } else if name == "unsafe"@ && keys == KeySet::Specialize {
        Some(2)
    } else if name == "rename"@ && keys == KeySet::StaticDispatch {
        Some(2)
    } else {
        None
    }
}

pub open spec fn slot_of(k: KeyIndices, slot: int) -> Option<int> {
    if slot == 0 {
        k.0
    } else if slot == 1 {
        k.1
    } else {
        k.2
    }
}

pub open spec fn with_slot(k: KeyIndices, slot: int, i: int) -> KeyIndices {
    if slot == 0 {
        (Some(i), k.1, k.2)
    } else if slot == 1 {
        (k.0, Some(i), k.2)
    } else {
        (k.0, k.1, Some(i))
    }
}

/// The keys found in the first `n` items, or the error of the first bad item.
pub open spec fn key_indices(items: Seq<AttrItem>, keys: KeySet, n: int) -> Result<KeyIndices, SpecErrorKind>
    decreases n,
{
    if n <= 0 {
        Ok((None, None, None))
    } else {
        match key_indices(items, keys, n - 1) {
            Err(e) => Err(e),
            Ok(k) => match items[n - 1] {
                AttrItem::Lit => Err(SpecErrorKind::UnexpectedLiteral),
                AttrItem::Other => Err(SpecErrorKind::ExpectedNameValue),
                AttrItem::NameValue { key, value } => match key {
                    None => Err(SpecErrorKind::UnexpectedKey),
                    Some(name) => match key_slot(name@, keys) {
                        None => Err(SpecErrorKind::UnexpectedKey),
                        Some(slot) => if slot_of(k, slot) is Some {
                            Err(SpecErrorKind::KeyAlreadyProvided)
                        } else {
                            Ok(with_slot(k, slot, n - 1))
                        },
                    },
                },
            },
        }
    }
}

/// The literal of the item at `i`.
pub open spec fn value_at(items: Seq<AttrItem>, i: int) -> AttrLitV {
    match items[i] {
        AttrItem::NameValue { value, .. } => lit_v(value),
        _ => AttrLitV::Other,
    }
}

/// The specialization that `clone(..)` (where `!is_specialize`) or
/// `specialize(..)` gives, or why it is refused.
pub open spec fn attr_spec(items: Seq<AttrItem>, is_specialize: bool) -> Result<SpecializationV, SpecErrorKind> {
    match key_indices(items, if is_specialize { KeySet::Specialize } else { KeySet::Clone }, items.len() as int) {
        Err(e) => Err(e),
        Ok(k) => match k.0 {
            None => Err(SpecErrorKind::ExpectedTargetKey),
            Some(ti) => match value_at(items, ti) {
                AttrLitV::Str(target) => if !is_specialize {
                    match k.1 {
                        None => Ok(SpecializationV::Clone { target, func: None }),
                        Some(fi) => match value_at(items, fi) {
                            AttrLitV::Str(f) => Ok(SpecializationV::Clone { target, func: Some(f) }),
                            _ => Err(SpecErrorKind::ExpectedString),
                        },
                    }
                } else {
                    match k.1 {
                        None => Err(SpecErrorKind::ExpectedFnKey),
                        Some(fi) => match value_at(items, fi) {
                            AttrLitV::Str(f) => match k.2 {
                                None => Ok(SpecializationV::Override { target, func: f, is_unsafe: false }),
                                Some(ui) => match value_at(items, ui) {
                                    AttrLitV::Bool(b) => Ok(SpecializationV::Override { target, func: f, is_unsafe: b }),
                                    _ => Err(SpecErrorKind::ExpectedBool),
                                },
                            },
                            _ => Err(SpecErrorKind::ExpectedString),
                        },
                    }
                },
                _ => Err(SpecErrorKind::ExpectedString),
            },
        },
    }
}

/// What the first `n` attributes give: the specializations and the indices
/// of the attributes kept, or the first error with its attribute's index.
pub open spec fn fn_attrs_spec(attrs: Seq<FnAttr>, n: int) -> Result<(Seq<SpecializationV>, Seq<int>), (int, SpecErrorKind)>
    decreases n,
{
    if n <= 0 {
        Ok((Seq::empty(), Seq::empty()))
    } else {
        match fn_attrs_spec(attrs, n - 1) {
            Err(e) => Err(e),
            Ok((specs, kept)) => match attrs[n - 1] {
                FnAttr::Other => Ok((specs, kept.push(n - 1))),
                FnAttr::List { name, items } => if name@ == "clone"@ || name@ == "specialize"@ {
                    match attr_spec(items@, name@ == "specialize"@) {
                        Err(k) => Err((n - 1, k)),
                        Ok(s) => Ok((specs.push(s), kept)),
                    }
                } else {
                    Ok((specs, kept.push(n - 1)))
                },
            },
        }
    }
}

/// Finds the keys of an attribute's items.
#[verifier::loop_isolation(false)]
fn find_keys(items: &Vec<AttrItem>, keys: KeySet) -> (r: Result<(Option<usize>, Option<usize>, Option<usize>), SpecErrorKind>)
    ensures
        match r {
            Ok((t, f, u)) => key_indices(items@, keys, items@.len() as int) == Ok::<KeyIndices, SpecErrorKind>((
                match t { Some(i) => Some(i as int), None => None },
                match f { Some(i) => Some(i as int), None => None },
                match u { Some(i) => Some(i as int), None => None },
            )),
            Err(e) => key_indices(items@, keys, items@.len() as int) == Err::<KeyIndices, SpecErrorKind>(e),
        },
{
    let mut t: Option<usize> = None;
    let mut f: Option<usize> = None;
    let mut u: Option<usize> = None;
    let mut i: usize = 0;
    while i < items.len()
        invariant
            i <= items@.len(),
            key_indices(items@, keys, i as int) == Ok::<KeyIndices, SpecErrorKind>((
                match t { Some(j) => Some(j as int), None => None },
                match f { Some(j) => Some(j as int), None => None },
                match u { Some(j) => Some(j as int), None => None },
            )),
        decreases items@.len() - i,
    {
        proof {
            reveal_strlit("target");
            reveal_strlit("fn");
            reveal_strlit("unsafe");
            reveal_strlit("rename");
        }
        match &items[i] {
            AttrItem::Lit => {
                proof { lemma_key_error_sticks(items@, keys, i + 1); }
                return Err(SpecErrorKind::UnexpectedLiteral);
            },
            AttrItem::Other => {
                proof { lemma_key_error_sticks(items@, keys, i + 1); }
                return Err(SpecErrorKind::ExpectedNameValue);
            },
            AttrItem::NameValue { key, .. } => match key {
                None => {
                    proof { lemma_key_error_sticks(items@, keys, i + 1); }
                    return Err(SpecErrorKind::UnexpectedKey);
                },
                Some(name) => {
                    let n = name.as_str();
                    if eq(n, "target") && keys != KeySet::StaticDispatch {
                        if t.is_some() {
                            proof { lemma_key_error_sticks(items@, keys, i + 1); }
                            return Err(SpecErrorKind::KeyAlreadyProvided);
                        }
                        t = Some(i);
                    } else if eq(n, "fn") {
                        if f.is_some() {
                            proof { lemma_key_error_sticks(items@, keys, i + 1); }
                            return Err(SpecErrorKind::KeyAlreadyProvided);
                        }
                        f = Some(i);
                    } else if (keys == KeySet::Specialize && eq(n, "unsafe")) || (keys == KeySet::StaticDispatch
                        && eq(n, "rename")) {
                        if u.is_some() {
                            proof { lemma_key_error_sticks(items@, keys, i + 1); }
                            return Err(SpecErrorKind::KeyAlreadyProvided);
                        }
                        u = Some(i);
                    } else {
                        proof { lemma_key_error_sticks(items@, keys, i + 1); }
                        return Err(SpecErrorKind::UnexpectedKey);
                    }
                },
            },
        }
        i += 1;
    }
    Ok((t, f, u))
}

/// Once an item is refused, so is every longer prefix, with the same error.
pub proof fn lemma_key_error_sticks(items: Seq<AttrItem>, keys: KeySet, n: int)
    requires
        0 <= n <= items.len(),
        key_indices(items, keys, n) is Err,
    ensures
        key_indices(items, keys, items.len() as int) == key_indices(items, keys, n),
    decreases items.len() - n,
{
    if n < items.len() {
        lemma_key_error_sticks(items, keys, n + 1);
    }
}

/// The string of the item at `i`, if its value is a string.
fn str_at(items: &Vec<AttrItem>, i: usize) -> (r: Option<String>)
    requires
        i < items@.len(),
    ensures
        match r {
            Some(s) => value_at(items@, i as int) == AttrLitV::Str(s@),
            None => !(value_at(items@, i as int) is Str),
        },
{
    match &items[i] {
        AttrItem::NameValue { value: AttrLit::Str(s), .. } => Some(s.clone()),
        _ => None,
    }
}

/// The boolean of the item at `i`, if its value is a boolean.
fn bool_at(items: &Vec<AttrItem>, i: usize) -> (r: Option<bool>)
    requires
        i < items@.len(),
    ensures
        match r {
            Some(b) => value_at(items@, i as int) == AttrLitV::Bool(b),
            None => !(value_at(items@, i as int) is Bool),
        },
{
    match &items[i] {
        AttrItem::NameValue { value: AttrLit::Bool(b), .. } => Some(*b),
        _ => None,
    }
}

/// Reads `clone(..)` (where `!is_specialize`) or `specialize(..)`.
pub fn read_attr(items: &Vec<AttrItem>, is_specialize: bool) -> (r: Result<Specialization, SpecErrorKind>)
    ensures
        match r {
            Ok(s) => attr_spec(items@, is_specialize) == Ok::<_, SpecErrorKind>(spec_v(s)),
            Err(e) => attr_spec(items@, is_specialize) == Err::<SpecializationV, _>(e),
        },
{
    let keys = if is_specialize { KeySet::Specialize } else { KeySet::Clone };
    let (t, f, u) = find_keys(items, keys)?;
    proof {
        lemma_key_indices_in_range(items@, keys, items@.len() as int);
    }
    let ti = match t {
        None => return Err(SpecErrorKind::ExpectedTargetKey),
        Some(ti) => ti,
    };
    let target = match str_at(items, ti) {
        None => return Err(SpecErrorKind::ExpectedString),
        Some(s) => s,
    };
    if !is_specialize {
        match f {
            None => Ok(Specialization::Clone { target, func: None }),
            Some(fi) => match str_at(items, fi) {
                None => Err(SpecErrorKind::ExpectedString),
                Some(name) => Ok(Specialization::Clone { target, func: Some(name) }),
            },
        }
    } else {
        let fi = match f {
            None => return Err(SpecErrorKind::ExpectedFnKey),
            Some(fi) => fi,
        };
        let func = match str_at(items, fi) {
            None => return Err(SpecErrorKind::ExpectedString),
            Some(name) => name,
        };
        match u {
            None => Ok(Specialization::Override { target, func, is_unsafe: false }),
            Some(ui) => match bool_at(items, ui) {
                None => Err(SpecErrorKind::ExpectedBool),
                Some(b) => Ok(Specialization::Override { target, func, is_unsafe: b }),
            },
        }
    }
}

/// The indices that the keys were found at are indices of items.
pub proof fn lemma_key_indices_in_range(items: Seq<AttrItem>, keys: KeySet, n: int)
    requires
        0 <= n <= items.len(),
    ensures
        key_indices(items, keys, n) matches Ok(k) ==> (k.0 matches Some(i) ==> 0 <= i < n) && (
            k.1 matches Some(i) ==> 0 <= i < n) && (k.2 matches Some(i) ==> 0 <= i < n),
    decreases n,
{
    if n > 0 {
        lemma_key_indices_in_range(items, keys, n - 1);
    }
}

/// Reads the function's attributes: each `clone(..)` and `specialize(..)`
/// becomes a specialization, in order; every other attribute stays on the
/// function. The first refused attribute is reported.
pub fn parse_fn_attrs(attrs: &Vec<FnAttr>) -> (r: Result<SpecializedFn, SpecError>)
    ensures
        match r {
            Ok(f) => fn_attrs_spec(attrs@, attrs@.len() as int) == Ok::<_, (int, SpecErrorKind)>((
                specs_v(f.specializations@),
                f.kept@.map_values(|i: usize| i as int),
            )),
            Err(e) => fn_attrs_spec(attrs@, attrs@.len() as int) == Err::<(Seq<SpecializationV>, Seq<int>), _>(
                (e.attr as int, e.kind),
            ),
        },
{
    let mut specializations: Vec<Specialization> = Vec::new();
    let mut kept: Vec<usize> = Vec::new();
    let mut i: usize = 0;
    assert(specs_v(specializations@) =~= Seq::<SpecializationV>::empty());
    assert(kept@.map_values(|j: usize| j as int) =~= Seq::<int>::empty());
    while i < attrs.len()
        invariant
            i <= attrs@.len(),
            fn_attrs_spec(attrs@, i as int) == Ok::<_, (int, SpecErrorKind)>((
                specs_v(specializations@),
                kept@.map_values(|j: usize| j as int),
            )),
        decreases attrs@.len() - i,
    {
        let ghost sv = specs_v(specializations@);
        let ghost kv = kept@.map_values(|j: usize| j as int);
        proof {
            reveal_strlit("clone");
            reveal_strlit("specialize");
        }
        match &attrs[i] {
            FnAttr::Other => {
                kept.push(i);
                assert(kept@.map_values(|j: usize| j as int) =~= kv.push(i as int));
            },
            FnAttr::List { name, items } => {
                let is_clone = eq(name.as_str(), "clone");
                let is_specialize = eq(name.as_str(), "specialize");
                if is_clone || is_specialize {
                    match read_attr(items, is_specialize) {
                        Err(kind) => {
                            proof {
                                lemma_attrs_error_sticks(attrs@, i + 1);
                            }
                            return Err(SpecError { attr: i, kind });
                        },
                        Ok(s) => {
                            let ghost v = spec_v(s);
                            specializations.push(s);
                            assert(specs_v(specializations@) =~= sv.push(v));
                        },
                    }
                } else {
                    kept.push(i);
                    assert(kept@.map_values(|j: usize| j as int) =~= kv.push(i as int));
                }
            },
        }
        i += 1;
    }
    Ok(SpecializedFn { specializations, kept })
}

/// Once an attribute is refused, so is every longer prefix, with the same error.
pub proof fn lemma_attrs_error_sticks(attrs: Seq<FnAttr>, n: int)
    requires
        0 <= n <= attrs.len(),
        fn_attrs_spec(attrs, n) is Err,
    ensures
        fn_attrs_spec(attrs, attrs.len() as int) == fn_attrs_spec(attrs, n),
    decreases attrs.len() - n,
{
    if n < attrs.len() {
        lemma_attrs_error_sticks(attrs, n + 1);
    }
}

/// What `static_dispatch(fn = "path", rename = "name")` gives: the
/// function's path and the name to bind it to, if renamed; or why it is
/// refused.
pub open spec fn static_dispatch_spec(items: Seq<AttrItem>) -> Result<(Seq<char>, Option<Seq<char>>), SpecErrorKind> {
    match key_indices(items, KeySet::StaticDispatch, items.len() as int) {
        Err(e) => Err(e),
        Ok(k) => match k.1 {
            None => Err(SpecErrorKind::ExpectedFnKey),
            Some(fi) => match value_at(items, fi) {
                AttrLitV::Str(f) => match k.2 {
                    None => Ok((f, None)),
                    Some(ri) => match value_at(items, ri) {
                        AttrLitV::Str(name) => Ok((f, Some(name))),
                        _ => Err(SpecErrorKind::ExpectedString),
                    },
                },
                _ => Err(SpecErrorKind::ExpectedString),
            },
        },
    }
}

/// Reads `static_dispatch(fn = "path", rename = "name")`.
pub fn read_static_dispatch(items: &Vec<AttrItem>) -> (r: Result<(String, Option<String>), SpecErrorKind>)
    ensures
        match r {
            Ok((f, rename)) => static_dispatch_spec(items@) == Ok::<_, SpecErrorKind>((f@, match rename {
                Some(n) => Some(n@),
                None => None,
            })),
            Err(e) => static_dispatch_spec(items@) == Err::<(Seq<char>, Option<Seq<char>>), _>(e),
        },
{
    let (_t, f, u) = find_keys(items, KeySet::StaticDispatch)?;
    proof {
        lemma_key_indices_in_range(items@, KeySet::StaticDispatch, items@.len() as int);
    }
    let fi = match f {
        None => return Err(SpecErrorKind::ExpectedFnKey),
        Some(fi) => fi,
    };
    let func = match str_at(items, fi) {
        None => return Err(SpecErrorKind::ExpectedString),
        Some(s) => s,
    };
    match u {
        None => Ok((func, None)),
        Some(ri) => match str_at(items, ri) {
            None => Err(SpecErrorKind::ExpectedString),
            Some(name) => Ok((func, Some(name))),
        },
    }
}

/// What a version of a specialized function runs.
#[derive(Debug)]
pub enum VersionBody {
    /// The function's own body, compiled for the version's target.
    Clone,
    /// A call of another function, inside an `unsafe` block where
    /// `is_unsafe`.
    Call { func: String, is_unsafe: bool },
}

/// A version of a specialized function: its target, its name and what it runs.
#[derive(Debug)]
pub struct SpecVersion {
    pub target: Target,
    pub name: String,
    pub body: VersionBody,
}

/// What a version runs, as plain values.
pub enum VersionBodyV {
    Clone,
    Call { func: Seq<char>, is_unsafe: bool },
}

pub open spec fn body_v(b: VersionBody) -> VersionBodyV {
    match b {
        VersionBody::Clone => VersionBodyV::Clone,
        VersionBody::Call { func, is_unsafe } => VersionBodyV::Call { func: func@, is_unsafe },
    }
}

/// What a version of a specialization runs: a clone runs the function's
/// body; a specialization calls its function.
pub open spec fn spec_body(s: SpecializationV) -> VersionBodyV {
    match s {
        SpecializationV::Clone { .. } => VersionBodyV::Clone,
        SpecializationV::Override { func, is_unsafe, .. } => VersionBodyV::Call { func, is_unsafe },
    }
}

/// The target string of a specialization.
pub open spec fn spec_target(s: SpecializationV) -> Seq<char> {
    match s {
        SpecializationV::Clone { target, .. } => target,
        SpecializationV::Override { target, .. } => target,
    }
}

/// The name of the version of function `ident` with the given features:
/// `__multiversion_ident_feature_f1_f2`, or `__multiversion_ident_default`
/// for no features, the name the default version has on other architectures.
pub open spec fn spec_version_name(ident: Seq<char>, features: Seq<Seq<char>>) -> Seq<char> {
    if features.len() > 0 {
        "__multiversion_"@ + bare_ident(ident) + "_feature_"@ + join_spec(features, '_')
    } else {
        "__multiversion_"@ + bare_ident(ident) + "_default"@
    }
}

/// A version as plain values: architecture, features, name, body.
pub type VersionV = (Architecture, Seq<Seq<char>>, Seq<char>, VersionBodyV);

pub open spec fn version_v(v: SpecVersion) -> VersionV {
    (v.target.architecture, views(v.target.features@), v.name@, body_v(v.body))
}

pub open spec fn versions_v(vs: Seq<SpecVersion>) -> Seq<VersionV> {
    vs.map_values(|v: SpecVersion| version_v(v))
}

/// The versions of the first `n` specializations: one per architecture that
/// each target string names, in order; or the index of the first
/// specialization whose target string is refused, and why.
pub open spec fn plan_spec(ident: Seq<char>, specs: Seq<SpecializationV>, n: int) -> Result<Seq<VersionV>, (int, LegacyErrorKind)>
    decreases n,
{
    if n <= 0 {
        Ok(Seq::empty())
    } else {
        match plan_spec(ident, specs, n - 1) {
            Err(e) => Err(e),
            Ok(vs) => match legacy_parse_spec(spec_target(specs[n - 1])) {
                Err(e) => Err((n - 1, e)),
                Ok((arches, features)) => Ok(vs + arches.map_values(
                    |a: Architecture| (a, features, spec_version_name(ident, features), spec_body(specs[n - 1])),
                )),
            },
        }
    }
}

/// The name of the version with the given features.
fn version_name(ident: &str, features: &Vec<String>) -> (r: String)
    ensures
        r@ == spec_version_name(ident@, views(features@)),
{
    let mut name = String::new();
    append_str(&mut name, "__multiversion_");
    let n = ident.unicode_len();
    if n >= 2 && ident.get_char(0) == 'r' && ident.get_char(1) == '#' {
        let rest = ident.substring_char(2, n);
        assert(rest@ =~= ident@.skip(2));
        append_str(&mut name, rest);
    } else {
        append_str(&mut name, ident);
    }
    if features.len() > 0 {
        append_str(&mut name, "_feature_");
        let joined = join(features.as_slice(), '_');
        append_str(&mut name, joined.as_str());
    } else {
        append_str(&mut name, "_default");
    }
    name
}

/// The name of the default version of function `ident`: the version that runs
/// its own body where no version of the function's architecture matches.
pub fn default_version_name(ident: &str) -> (r: String)
    ensures
        r@ == spec_version_name(ident@, Seq::empty()),
{
    let none: Vec<String> = Vec::new();
    assert(views(none@) =~= Seq::<Seq<char>>::empty());
    version_name(ident, &none)
}

/// The versions of a function with the given specializations, in order.
#[verifier::loop_isolation(false)]
pub fn plan_specializations(ident: &str, specs: &Vec<Specialization>) -> (r: Result<Vec<SpecVersion>, (usize, LegacyTargetError)>)
    ensures
        match r {
            Ok(vs) => plan_spec(ident@, specs_v(specs@), specs@.len() as int) == Ok::<_, (int, LegacyErrorKind)>(versions_v(vs@)),
            Err((i, e)) => plan_spec(ident@, specs_v(specs@), specs@.len() as int) == Err::<Seq<VersionV>, _>((i as int, e.kind())),
        },
{
    let ghost sv = specs_v(specs@);
    let mut out: Vec<SpecVersion> = Vec::new();
    let mut i: usize = 0;
    assert(versions_v(out@) =~= Seq::<VersionV>::empty());
    while i < specs.len()
        invariant
            sv == specs_v(specs@),
            i <= specs@.len(),
            plan_spec(ident@, sv, i as int) == Ok::<_, (int, LegacyErrorKind)>(versions_v(out@)),
        decreases specs@.len() - i,
    {
        let (target, body) = match &specs[i] {
            Specialization::Clone { target, .. } => (target.as_str(), VersionBody::Clone),
            Specialization::Override { target, func, is_unsafe } => (
                target.as_str(),
                VersionBody::Call { func: func.as_str().to_owned(), is_unsafe: *is_unsafe },
            ),
        };
        assert(target@ == spec_target(sv[i as int]));
        let ghost bv = body_v(body);
        assert(bv == spec_body(sv[i as int]));
        match parse_target_string(target) {
            Err(e) => {
                proof {
                    lemma_plan_error_sticks(ident@, sv, i + 1, specs@.len() as int);
                }
                return Err((i, e));
            },
            Ok(targets) => {
                let ghost (arches, features) = legacy_parse_spec(target@)->Ok_0;
                let ghost before = versions_v(out@);
                let ghost added = arches.map_values(
                    |a: Architecture| (a, features, spec_version_name(ident@, features), spec_body(sv[i as int])),
                );
                let mut k: usize = 0;
                while k < targets.len()
                    invariant
                        targets@.len() == arches.len(),
                        forall|j: int| 0 <= j < arches.len() ==> (#[trigger] targets@[j]).architecture == arches[j]
                            && views(targets@[j].features@) == features,
                        k <= targets@.len(),
                        bv == spec_body(sv[i as int]),
                        versions_v(out@) == before + added.take(k as int),
                    decreases targets@.len() - k,
                {
                    let t = &targets[k];
                    let name = version_name(ident, &t.features);
                    let mut feats: Vec<String> = Vec::new();
                    let mut m: usize = 0;
                    while m < t.features.len()
                        invariant
                            k < targets@.len(),
                            *t == targets@[k as int],
                            m <= t.features@.len(),
                            views(feats@) == views(t.features@).take(m as int),
                        decreases t.features@.len() - m,
                    {
                        let f = t.features[m].as_str().to_owned();
                        let ghost pre = views(feats@);
                        feats.push(f);
                        assert(views(feats@) =~= pre.push(views(t.features@)[m as int]));
                        assert(views(t.features@).take(m + 1) =~= views(t.features@).take(m as int).push(
                            views(t.features@)[m as int],
                        ));
                        m += 1;
                    }
                    assert(views(t.features@).take(t.features@.len() as int) =~= views(t.features@));
                    let body_k = match &body {
                        VersionBody::Clone => VersionBody::Clone,
                        VersionBody::Call { func, is_unsafe } => VersionBody::Call {
                            func: func.as_str().to_owned(),
                            is_unsafe: *is_unsafe,
                        },
                    };
                    let v = SpecVersion { target: Target { architecture: t.architecture, features: feats }, name, body: body_k };
                    assert(body_v(body_k) == bv);
                    assert(added.len() == arches.len());
                    assert(added[k as int] == (arches[k as int], features, spec_version_name(ident@, features), spec_body(sv[i as int])));
                    assert(version_v(v) == added[k as int]);
                    let ghost pre = versions_v(out@);
                    out.push(v);
                    assert(versions_v(out@) =~= pre.push(version_v(v)));
                    assert(added.take(k + 1) =~= added.take(k as int).push(added[k as int]));
                    k += 1;
                }
                assert(added.take(arches.len() as int) =~= added);
            },
        }
        i += 1;
    }
    Ok(out)
}

proof fn lemma_plan_error_sticks(ident: Seq<char>, specs: Seq<SpecializationV>, m: int, n: int)
    requires
        0 <= m <= n,
        plan_spec(ident, specs, m) is Err,
    ensures
        plan_spec(ident, specs, n) == plan_spec(ident, specs, m),
    decreases n - m,
{
    if m < n {
        lemma_plan_error_sticks(ident, specs, m, n - 1);
    }
}

/// The versions as targets: architecture name and features.
pub open spec fn version_tvs(vs: Seq<VersionV>) -> Seq<(Seq<char>, Seq<Seq<char>>)> {
    vs.map_values(|v: VersionV| (arch_name(v.0), v.1))
}

/// The first version, among the first `n`, without features for `arch`.
pub open spec fn first_plain(vs: Seq<VersionV>, arch: Architecture, n: int) -> Option<int>
    decreases n,
{
    if n <= 0 {
        None
    } else {
        match first_plain(vs, arch, n - 1) {
            Some(i) => Some(i),
            None => if vs[n - 1].0 == arch && vs[n - 1].1.len() == 0 {
                Some(n - 1)
            } else {
                None
            },
        }
    }
}

/// The version that a call runs on a machine of architecture `arch` where
/// the `detected` features were found: the first version with features for
/// `arch` whose features were all detected; else the first version without
/// features for `arch`, which has the default's name there; else `None`,
/// the function's own body.
pub open spec fn specialized_call_spec(vs: Seq<VersionV>, arch: Architecture, detected: Seq<Seq<char>>) -> Option<int> {
    match first_match(version_tvs(vs), arch_name(arch), detected) {
        Some(i) => Some(i),
        None => first_plain(vs, arch, vs.len() as int),
    }
}

proof fn lemma_first_plain_prefix(vs: Seq<VersionV>, arch: Architecture, m: int, n: int)
    requires
        0 <= m <= n,
        first_plain(vs, arch, m) is Some,
    ensures
        first_plain(vs, arch, n) == first_plain(vs, arch, m),
    decreases n - m,
{
    if m < n {
        lemma_first_plain_prefix(vs, arch, m, n - 1);
    }
}

/// The version that a call runs.
pub fn specialized_version(versions: &[SpecVersion], arch: Architecture, detected: &[String]) -> (r: Option<usize>)
    ensures
        r == match specialized_call_spec(versions_v(versions@), arch, views(detected@)) {
            Some(i) => Some(i as usize),
            None => None::<usize>,
        },
{
    let ghost vs = versions_v(versions@);
    let ghost ts = version_tvs(vs);
    let mut i: usize = 0;
    assert(ts.take(0) =~= Seq::<(Seq<char>, Seq<Seq<char>>)>::empty());
    while i < versions.len()
        invariant
            vs == versions_v(versions@),
            ts == version_tvs(vs),
            i <= versions@.len(),
            first_match(ts.take(i as int), arch_name(arch), views(detected@)) is None,
        decreases versions@.len() - i,
    {
        let t = &versions[i].target;
        assert(ts.take(i + 1).drop_last() =~= ts.take(i as int));
        assert(ts.take(i + 1).last() == (arch_name(t.architecture), views(t.features@)));
        if t.features.len() > 0 && t.architecture == arch && all_available(t.features.as_slice(), detected) {
            assert(first_match(ts.take(i + 1), arch_name(arch), views(detected@)) == Some(i as int));
            proof {
                lemma_first_match_prefix(ts, i + 1, arch_name(arch), views(detected@));
            }
            return Some(i);
        }
        proof {
            if t.architecture != arch {
                lemma_arch_name_injective(t.architecture, arch);
            }
        }
        i += 1;
    }
    assert(ts.take(versions@.len() as int) =~= ts);
    let mut j: usize = 0;
    while j < versions.len()
        invariant
            vs == versions_v(versions@),
            j <= versions@.len(),
            first_plain(vs, arch, j as int) is None,
            first_match(ts, arch_name(arch), views(detected@)) is None,
            ts == version_tvs(vs),
        decreases versions@.len() - j,
    {
        if versions[j].target.architecture == arch && versions[j].target.features.len() == 0 {
            proof {
                lemma_first_plain_prefix(vs, arch, j + 1, vs.len() as int);
            }
            return Some(j);
        }
        j += 1;
    }
    None
}

/// The first call of a dispatcher that keeps its choice: what the detected
/// features select, stored and run. Later calls run the stored version (see
/// `crate::cache`).
pub fn resolve_specialized(versions: &[SpecVersion], arch: Architecture, detected: &[String]) -> (r: (
    DispatchCache,
    Option<usize>,
))
    ensures
        (r.0, r.1, true) == call_spec(
            DispatchCache::Unresolved,
            match specialized_call_spec(versions_v(versions@), arch, views(detected@)) {
                Some(i) => Some(i as usize),
                None => None::<usize>,
            },
        ),
{
    record_choice(specialized_version(versions, arch, detected))
}

/// A call never runs a version whose features the machine lacks: the
/// version chosen is for the machine's architecture, and each of its
/// features was detected.
pub proof fn lemma_specialized_call_is_safe(vs: Seq<VersionV>, arch: Architecture, detected: Seq<Seq<char>>)
    ensures
        specialized_call_spec(vs, arch, detected) matches Some(i) ==> {
            &&& 0 <= i < vs.len()
            &&& vs[i].0 == arch
            &&& forall|k: int| 0 <= k < vs[i].1.len() ==> detected.contains(#[trigger] vs[i].1[k])
        },
{
    let ts = version_tvs(vs);
    lemma_first_match_is_first(ts, arch_name(arch), detected);
    match first_match(ts, arch_name(arch), detected) {
        Some(i) => {
            assert(ts[i] == (arch_name(vs[i].0), vs[i].1));
            if vs[i].0 != arch {
                lemma_arch_name_injective(vs[i].0, arch);
            }
        },
        None => {
            lemma_first_plain_is_plain(vs, arch, vs.len() as int);
        },
    }
}

proof fn lemma_first_plain_is_plain(vs: Seq<VersionV>, arch: Architecture, n: int)
    requires
        n <= vs.len(),
    ensures
        first_plain(vs, arch, n) matches Some(i) ==> 0 <= i < n && vs[i].0 == arch && vs[i].1.len() == 0,
    decreases n,
{
    if n > 0 {
        lemma_first_plain_is_plain(vs, arch, n - 1);
    }
}

} // verus!
