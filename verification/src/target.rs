//! Target specification strings: an architecture, optionally a CPU after a
//! slash, and features after plus signs, as in `"x86_64+avx+avx2"` or
//! `"x86/i686+xsave"`.
use vstd::prelude::*;
use target_features::Target as FeatureTarget;
use crate::database::{
    arch_family,
    closed_in, cpu_feature_names, feature_implications, feature_closure, held_features, made_for, empty_target, cpu_target,
    add_feature, feature_names,
};
use crate::stdlib::{char_is_alphanumeric, is_alphanumeric};
use crate::attrs::{
    cfg_arch_attr, cfg_arch_text, enable_attrs, enable_text, cfg_feature, cfg_feature_text, macro_call,
    macro_call_text, conjunction, conjunction_text,
};
use crate::dispatch::{feature_detector_name, detector_name_spec};
use crate::text::{
    split, split_spec, views, strictly_sorted, insert_sorted, lemma_split_nonempty, join, join_spec,
    remove_char, without_char, append_str,
};

verus! {

/// A character allowed in an architecture name.
pub open spec fn is_arch_char(c: char) -> bool {
    char_is_alphanumeric(c) || c == '_'
}

/// Why a target string was refused.
pub enum TargetErrorKind {
    InvalidArchitecture,
    EmptyFeature,
    UnknownCpu(Seq<char>),
    UnknownFeature(Seq<char>),
}

/// The architecture part of a target string and, after a slash, its CPU.
pub open spec fn arch_and_cpu(head: Seq<char>) -> (Seq<char>, Option<Seq<char>>) {
    let parts = split_spec(head, '/');
    if parts.len() <= 1 {
        (parts[0], None)
    } else {
        (parts[0], Some(head.skip(parts[0].len() as int + 1)))
    }
}

/// Adds the features named by `feats`, in order, each with the features it
/// implies; the first unknown feature ends the walk.
pub open spec fn resolve_features(
    arch: Seq<char>,
    acc: Set<Seq<char>>,
    feats: Seq<Seq<char>>,
) -> Result<Set<Seq<char>>, Seq<char>>
    decreases feats.len(),
{
    if feats.len() == 0 {
        Ok(acc)
    } else {
        match feature_implications(arch, feats[0]) {
            None => Err(feats[0]),
            Some(implied) => resolve_features(arch, acc + implied.to_set(), feats.drop_first()),
        }
    }
}

/// The architecture named by a target string.
pub open spec fn target_arch_of(s: Seq<char>) -> Seq<char> {
    arch_and_cpu(split_spec(s, '+')[0]).0
}

/// The CPU named by a target string, if any.
pub open spec fn target_cpu_of(s: Seq<char>) -> Option<Seq<char>> {
    arch_and_cpu(split_spec(s, '+')[0]).1
}

/// The features named by a target string, in order.
pub open spec fn specified_features_of(s: Seq<char>) -> Seq<Seq<char>> {
    split_spec(s, '+').drop_first()
}

/// A non-empty name made of alphanumerics and underscores.
pub open spec fn arch_is_valid(arch: Seq<char>) -> bool {
    arch.len() > 0 && forall|i: int| 0 <= i < arch.len() ==> is_arch_char(#[trigger] arch[i])
}

/// The features of the named CPU (none if no CPU is named), or `None` if the
/// CPU is unknown.
pub open spec fn cpu_base(arch: Seq<char>, cpu: Option<Seq<char>>) -> Option<Set<Seq<char>>> {
    match cpu {
        None => Some(Set::empty()),
        Some(c) => match cpu_feature_names(arch, c) {
            None => None,
            Some(names) => Some(names.to_set()),
        },
    }
}

/// The architecture and the full feature set that a target string denotes,
/// or why it is refused.
pub open spec fn parse_spec(s: Seq<char>) -> Result<(Seq<char>, Set<Seq<char>>), TargetErrorKind> {
    let arch = target_arch_of(s);
    let cpu = target_cpu_of(s);
    let specified = specified_features_of(s);
    if !arch_is_valid(arch) {
        Err(TargetErrorKind::InvalidArchitecture)
    } else if exists|k: int| 0 <= k < specified.len() && (#[trigger] specified[k]).len() == 0 {
        Err(TargetErrorKind::EmptyFeature)
    } else {
        match cpu_base(arch, cpu) {
            None => Err(TargetErrorKind::UnknownCpu(cpu.unwrap())),
            Some(b) => match resolve_features(arch, b, specified) {
                Err(f) => Err(TargetErrorKind::UnknownFeature(f)),
                Ok(set) => Ok((arch, set)),
            },
        }
    }
}

/// Why a target string was refused.
#[derive(Debug)]
pub enum TargetError {
    InvalidArchitecture,
    EmptyFeature,
    UnknownCpu(String),
    UnknownFeature(String),
}

impl TargetError {
    pub open spec fn kind(&self) -> TargetErrorKind {
        match self {
            TargetError::InvalidArchitecture => TargetErrorKind::InvalidArchitecture,
            TargetError::EmptyFeature => TargetErrorKind::EmptyFeature,
            TargetError::UnknownCpu(c) => TargetErrorKind::UnknownCpu(c@),
            TargetError::UnknownFeature(f) => TargetErrorKind::UnknownFeature(f@),
        }
    }
}

/// An architecture with the sorted list of all its enabled features,
/// including those implied by the features and CPU that were asked for.
#[derive(Debug)]
pub struct Target {
    architecture: String,
    features: Vec<String>,
}

impl Target {
    /// The architecture's name.
    pub closed spec fn arch_view(&self) -> Seq<char> {
        self.architecture@
    }

    /// The names of the features, in sorted order.
    pub closed spec fn features_view(&self) -> Seq<Seq<char>> {
        views(self.features@)
    }

    /// Each parsed target lists its features strictly sorted.
    pub closed spec fn wf(&self) -> bool {
        strictly_sorted(self.features_view())
    }

    /// Parses a target specification string.
    #[verifier::loop_isolation(false)]
    pub fn parse(s: &str) -> (r: Result<Target, TargetError>)
        ensures
            match r {
                Ok(t) => {
                    &&& t.wf()
                    &&& strictly_sorted(t.features_view())
                    &&& parse_spec(s@) == Ok::<_, TargetErrorKind>((t.arch_view(), t.features_view().to_set()))
                    &&& closed_under_implications(t.arch_view(), t.features_view(), t.features_view().to_set())
                    &&& parse_spec(join_spec(seq![t.arch_view()] + t.features_view(), '+')) == Ok::<
                        _,
                        TargetErrorKind,
                    >((t.arch_view(), t.features_view().to_set()))
                    &&& forall|k: int| 0 <= k < specified_features_of(s@).len()
                        ==> t.features_view().contains(#[trigger] specified_features_of(s@)[k])
                },
                Err(e) => parse_spec(s@) == Err::<(Seq<char>, Set<Seq<char>>), _>(e.kind()),
            },
    {
        let pieces = split(s, '+');
        proof {
            lemma_split_nonempty(s@, '+');
        }
        let head = pieces[0].as_str();
        let arch_parts = split(head, '/');
        proof {
            lemma_split_nonempty(head@, '/');
        }
        let architecture = arch_parts[0].clone();
        let ghost spec_pieces = split_spec(s@, '+');
        let ghost specified = specified_features_of(s@);
        let ghost ac = arch_and_cpu(spec_pieces[0]);
        assert(ac.0 == architecture@);
        assert(target_arch_of(s@) == architecture@);
        // Architecture: non-empty, made of alphanumerics and underscores.
        let arch_len = architecture.as_str().unicode_len();
        if arch_len == 0 {
            assert(parse_spec(s@) == Err::<(Seq<char>, Set<Seq<char>>), _>(TargetErrorKind::InvalidArchitecture));
            return Err(TargetError::InvalidArchitecture);
        }
        let mut i: usize = 0;
        while i < arch_len
            invariant
                arch_len == architecture@.len(),
                i <= arch_len,
                forall|j: int| 0 <= j < i ==> is_arch_char(#[trigger] architecture@[j]),
            decreases arch_len - i,
        {
            let c = architecture.as_str().get_char(i);
            if !(is_alphanumeric(c) || c == '_') {
                assert(!is_arch_char(architecture@[i as int]));
                assert(parse_spec(s@) == Err::<(Seq<char>, Set<Seq<char>>), _>(TargetErrorKind::InvalidArchitecture));
                return Err(TargetError::InvalidArchitecture);
            }
            i += 1;
        }
        assert(!(exists|j: int| 0 <= j < architecture@.len() && !is_arch_char(#[trigger] architecture@[j])));
        // Features: none of them empty.
        let n = pieces.len();
        assert(specified.len() == n - 1);
        let mut k: usize = 1;
        while k < n
            invariant
                n == pieces@.len(),
                n == spec_pieces.len(),
                views(pieces@) == spec_pieces,
                specified == spec_pieces.drop_first(),
                1 <= k <= n,
                forall|m: int| 0 <= m < k - 1 ==> (#[trigger] specified[m]).len() > 0,
            decreases n - k,
        {
            assert(specified[k - 1] == pieces@[k as int]@);
            if pieces[k].as_str().is_empty() {
                assert(specified[k - 1].len() == 0);
                assert(parse_spec(s@) == Err::<(Seq<char>, Set<Seq<char>>), _>(TargetErrorKind::EmptyFeature));
                return Err(TargetError::EmptyFeature);
            }
            k += 1;
        }
        assert(!exists|m: int| 0 <= m < specified.len() && (#[trigger] specified[m]).len() == 0);
        // The CPU's target, if a CPU was named; else a target with no feature.
        let mut collected: FeatureTarget;
        let ghost base: Set<Seq<char>>;
        proof {
            crate::text::lemma_split_first(head@, '/');
        }
        let head_len = head.unicode_len();
        if arch_parts.len() > 1 {
            assert(arch_len < head_len);
            let cpu = head.substring_char(arch_len + 1, head_len);
            assert(ac.1 == Some(cpu@));
            assert(target_cpu_of(s@) == Some(cpu@));
            match cpu_target(architecture.as_str(), cpu) {
                None => {
                    assert(cpu_base(architecture@, target_cpu_of(s@)) is None);
                    return Err(TargetError::UnknownCpu(cpu.to_owned()));
                },
                Some(t) => {
                    collected = t;
                    proof {
                        base = held_features(collected);
                        assert(cpu_base(architecture@, target_cpu_of(s@)) == Some(base));
                    }
                },
            }
        } else {
            collected = empty_target(architecture.as_str());
            proof {
                base = Set::empty();
                assert(target_cpu_of(s@) is None);
                assert(cpu_base(architecture@, target_cpu_of(s@)) == Some(base));
            }
        }
        // Each named feature, with the features it implies.
        let mut k: usize = 1;
        assert(specified.skip(0) =~= specified);
        while k < n
            invariant
                n == pieces@.len(),
                n == spec_pieces.len(),
                views(pieces@) == spec_pieces,
                specified == spec_pieces.drop_first(),
                1 <= k <= n,
                made_for(collected) == arch_family(architecture@),
                closed_in(architecture@, held_features(collected)),
                resolve_features(architecture@, held_features(collected), specified.skip(k - 1))
                    == resolve_features(architecture@, base, specified),
                forall|m: int| 0 <= m < k - 1 ==> held_features(collected).contains(#[trigger] specified[m]),
            decreases n - k,
        {
            let ghost rest = specified.skip(k - 1);
            assert(rest[0] == pieces@[k as int]@);
            assert(rest.drop_first() =~= specified.skip(k as int));
            match feature_closure(architecture.as_str(), pieces[k].as_str()) {
                None => {
                    assert(resolve_features(architecture@, held_features(collected), rest) == Err::<Set<Seq<char>>, _>(rest[0]));
                    return Err(TargetError::UnknownFeature(pieces[k].clone()));
                },
                Some(names) => {
                    let ghost before = held_features(collected);
                    collected = add_feature(collected, architecture.as_str(), pieces[k].as_str());
                    assert(held_features(collected) == before + views(names@).to_set());
                    assert forall|g: Seq<char>| #[trigger] held_features(collected).contains(g) implies g.len() > 0
                        && !g.contains('+') && match feature_implications(architecture@, g) {
                        None => false,
                        Some(w) => w.len() > 0 && w[0] == g && w.to_set().subset_of(held_features(collected)),
                    } by {
                        if before.contains(g) {
                            assert(before.contains(g));
                        } else {
                            assert(views(names@).to_set().contains(g));
                        }
                    }
                    assert(views(names@)[0] == specified[k - 1]);
                    assert(views(names@).to_set().contains(views(names@)[0]));
                    assert(held_features(collected).contains(specified[k - 1]));
                    assert forall|m: int| 0 <= m < k implies held_features(collected).contains(#[trigger] specified[m]) by {
                        if m < k - 1 {
                            assert(before.contains(specified[m]));
                        }
                    }
                },
            }
            k += 1;
        }
        assert(specified.skip(n - 1) =~= Seq::<Seq<char>>::empty());
        // The features listed and sorted by name.
        let listed = feature_names(&collected);
        let mut features: Vec<String> = Vec::new();
        assert(views(features@).to_set() =~= Set::<Seq<char>>::empty());
        insert_all(&mut features, &listed);
        assert(views(features@).to_set() =~= held_features(collected));
        let t = Target { architecture, features };
        assert(t.features_view() == views(t.features@));
        assert forall|m: int| 0 <= m < specified.len() implies t.features_view().contains(#[trigger] specified[m]) by {
            assert(held_features(collected).contains(specified[m]));
            assert(t.features_view().to_set().contains(specified[m]));
        }
        proof {
            let fv = t.features_view();
            assert(fv.to_set() == held_features(collected));
            assert forall|j: int| 0 <= j < fv.len() implies match feature_implications(architecture@, #[trigger] fv[j]) {
                None => false,
                Some(v) => v.len() > 0 && v[0] == fv[j] && v.to_set().subset_of(fv.to_set()),
            } && fv[j].len() > 0 && !fv[j].contains('+') by {
                assert(fv.to_set().contains(fv[j]));
            }
            assert(!architecture@.contains('+')) by {
                if architecture@.contains('+') {
                    crate::text::lemma_split_piece_chars(head@, '/', 0, '+');
                    crate::text::lemma_split_piece_chars(s@, '+', 0, '+');
                }
            }
            assert(!architecture@.contains('/')) by {
                if architecture@.contains('/') {
                    crate::text::lemma_split_piece_chars(head@, '/', 0, '/');
                }
            }
            lemma_target_string_roundtrip(&t);
        }
        Ok(t)
    }

    /// The architecture's name.
    pub fn arch(&self) -> (r: &str)
        ensures
            r@ == self.arch_view(),
    {
        self.architecture.as_str()
    }

    /// The features, sorted.
    pub fn features(&self) -> (r: &[String])
        ensures
            views(r@) == self.features_view(),
    {
        self.features.as_slice()
    }

    /// Whether any feature is enabled.
    pub fn has_features_specified(&self) -> (r: bool)
        ensures
            r == (self.features_view().len() > 0),
    {
        self.features.len() > 0
    }

    /// The features joined by underscores, with the dots taken out; a
    /// fragment of the names of the generated function versions.
    pub fn features_string(&self) -> (r: String)
        ensures
            r@ == without_char(join_spec(self.features_view(), '_'), '.'),
    {
        let joined = join(self.features.as_slice(), '_');
        remove_char(joined.as_str(), '.')
    }

    /// The features joined by commas.
    pub fn features_list_string(&self) -> (r: String)
        ensures
            r@ == join_spec(self.features_view(), ','),
    {
        join(self.features.as_slice(), ',')
    }

    /// The target written back as a target string: the architecture, then
    /// each feature after a plus sign.
    pub fn target_string(&self) -> (r: String)
        ensures
            r@ == join_spec(seq![self.arch_view()] + self.features_view(), '+'),
    {
        let mut parts: Vec<String> = Vec::new();
        parts.push(self.architecture.clone());
        let n = self.features.len();
        let mut i: usize = 0;
        while i < n
            invariant
                n == self.features@.len(),
                i <= n,
                views(parts@) == seq![self.arch_view()] + self.features_view().take(i as int),
            decreases n - i,
        {
            let ghost before = views(parts@);
            parts.push(self.features[i].clone());
            assert(views(parts@) =~= before.push(self.features@[i as int]@));
            assert(self.features_view().take(i + 1) =~= self.features_view().take(i as int).push(self.features@[i as int]@));
            assert(views(parts@) =~= seq![self.arch_view()] + self.features_view().take(i + 1));
            i += 1;
        }
        assert(self.features_view().take(n as int) =~= self.features_view());
        join(parts.as_slice(), '+')
    }

    /// `#[cfg(target_arch = "arch")]`: the attribute that keeps a function
    /// version to the target's architecture.
    pub fn target_arch(&self) -> (r: String)
        ensures
            r@ == cfg_arch_text(self.arch_view()),
    {
        cfg_arch_attr(self.architecture.as_str())
    }

    /// One `#[target_feature(enable = "feature")]` attribute per feature.
    pub fn target_feature(&self) -> (r: Vec<String>)
        ensures
            views(r@) == self.features_view().map_values(|f: Seq<char>| enable_text(f)),
    {
        enable_attrs(self.features.as_slice())
    }

    /// The attributes of a function version: the feature attributes, then
    /// the architecture attribute.
    pub fn fn_attrs(&self) -> (r: Vec<String>)
        ensures
            views(r@) == self.features_view().map_values(|f: Seq<char>| enable_text(f)).push(
                cfg_arch_text(self.arch_view()),
            ),
    {
        let mut attrs = self.target_feature();
        let a = self.target_arch();
        let ghost before = views(attrs@);
        let ghost av = a@;
        attrs.push(a);
        assert(views(attrs@) =~= before.push(av));
        attrs
    }

    /// The condition that the features are enabled at compile time:
    /// `true && core::cfg!(target_feature = "feature") && ..`.
    pub fn features_enabled(&self) -> (r: String)
        ensures
            r@ == conjunction_text(self.features_view().map_values(|f: Seq<char>| cfg_feature_text(f))),
    {
        let mut terms: Vec<String> = Vec::new();
        let n = self.features.len();
        let mut i: usize = 0;
        while i < n
            invariant
                n == self.features@.len(),
                i <= n,
                views(terms@) == self.features_view().take(i as int).map_values(|f: Seq<char>| cfg_feature_text(f)),
            decreases n - i,
        {
            let t = cfg_feature(self.features[i].as_str());
            let ghost before = views(terms@);
            let ghost tv = t@;
            terms.push(t);
            assert(views(terms@) =~= before.push(tv));
            assert(views(terms@) =~= self.features_view().take(i + 1).map_values(|f: Seq<char>| cfg_feature_text(f)));
            i += 1;
        }
        assert(self.features_view().take(n as int) =~= self.features_view());
        conjunction(terms.as_slice())
    }

    /// The condition that the features are detected at run time:
    /// `true && std::arch::is_x86_feature_detected!("feature") && ..`.
    pub fn features_detected(&self) -> (r: String)
        ensures
            r@ == conjunction_text(self.features_view().map_values(
                |f: Seq<char>| macro_call_text("std::arch::"@ + detector_name_spec(self.arch_view()), f),
            )),
    {
        let mut mac = String::new();
        append_str(&mut mac, "std::arch::");
        let d = feature_detector_name(self.architecture.as_str());
        append_str(&mut mac, d.as_str());
        let ghost m = mac@;
        let mut terms: Vec<String> = Vec::new();
        let n = self.features.len();
        let mut i: usize = 0;
        while i < n
            invariant
                n == self.features@.len(),
                i <= n,
                m == mac@,
                m == "std::arch::"@ + detector_name_spec(self.arch_view()),
                views(terms@) == self.features_view().take(i as int).map_values(|f: Seq<char>| macro_call_text(m, f)),
            decreases n - i,
        {
            let t = macro_call(mac.as_str(), self.features[i].as_str());
            let ghost before = views(terms@);
            let ghost tv = t@;
            terms.push(t);
            assert(views(terms@) =~= before.push(tv));
            assert(views(terms@) =~= self.features_view().take(i + 1).map_values(|f: Seq<char>| macro_call_text(m, f)));
            i += 1;
        }
        assert(self.features_view().take(n as int) =~= self.features_view());
        conjunction(terms.as_slice())
    }

    /// A copy of the target.
    pub fn copy(&self) -> (r: Target)
        ensures
            r.arch_view() == self.arch_view(),
            r.features_view() == self.features_view(),
            self.wf() ==> r.wf(),
    {
        let features = self.features.clone();
        assert(views(features@) =~= views(self.features@)) by {
            assert forall|j: int| 0 <= j < features@.len() implies features@[j]@ == self.features@[j]@ by {
                assert(vstd::pervasive::cloned(self.features@[j], features@[j]));
            }
        }
        Target { architecture: self.architecture.clone(), features }
    }

    /// Whether two targets have the same architecture and the same set of
    /// features.
    pub fn equivalent(&self, other: &Target) -> (r: bool)
        ensures
            r == (self.arch_view() == other.arch_view() && self.features_view().to_set()
                == other.features_view().to_set()),
    {
        if !crate::strings::eq(self.architecture.as_str(), other.architecture.as_str()) {
            return false;
        }
        let a = crate::dispatch::all_available(self.features.as_slice(), other.features.as_slice());
        let b = crate::dispatch::all_available(other.features.as_slice(), self.features.as_slice());
        let ghost x = self.features_view();
        let ghost y = other.features_view();
        proof {
            if a && b {
                assert forall|f: Seq<char>| #[trigger] x.to_set().contains(f) == y.to_set().contains(f) by {
                    if x.contains(f) {
                        let k = choose|k: int| 0 <= k < x.len() && x[k] == f;
                        assert(views(self.features@)[k] == f);
                    }
                    if y.contains(f) {
                        let k = choose|k: int| 0 <= k < y.len() && y[k] == f;
                        assert(views(other.features@)[k] == f);
                    }
                }
                assert(x.to_set() =~= y.to_set());
            } else if !a {
                let k = choose|k: int| 0 <= k < x.len() && !y.contains(#[trigger] x[k]);
                assert(x.to_set().contains(x[k]));
                assert(!y.to_set().contains(x[k]));
            } else {
                let k = choose|k: int| 0 <= k < y.len() && !x.contains(#[trigger] y[k]);
                assert(y.to_set().contains(y[k]));
                assert(!x.to_set().contains(y[k]));
            }
        }
        a && b
    }

    /// Whether two targets have the same architecture and features.
    pub fn same_target(&self, other: &Target) -> (r: bool)
        ensures
            r == (self.arch_view() == other.arch_view() && self.features_view() == other.features_view()),
    {
        if !crate::strings::eq(self.architecture.as_str(), other.architecture.as_str()) {
            return false;
        }
        let n = self.features.len();
        if n != other.features.len() {
            assert(self.features_view().len() != other.features_view().len());
            return false;
        }
        let mut i: usize = 0;
        while i < n
            invariant
                n == self.features@.len(),
                n == other.features@.len(),
                i <= n,
                forall|j: int| 0 <= j < i ==> self.features@[j]@ == other.features@[j]@,
            decreases n - i,
        {
            if self.features[i] != other.features[i] {
                assert(self.features_view()[i as int] != other.features_view()[i as int]);
                return false;
            }
            i += 1;
        }
        assert(self.features_view() =~= other.features_view());
        true
    }
}

/// Two well-formed targets with the same architecture and the same feature
/// set are the same target: a target's feature list is canonical.
pub proof fn lemma_target_canonical(a: &Target, b: &Target)
    requires
        a.wf(),
        b.wf(),
        a.arch_view() == b.arch_view(),
        a.features_view().to_set() == b.features_view().to_set(),
    ensures
        a.features_view() == b.features_view(),
{
    crate::text::lemma_sorted_unique(a.features_view(), b.features_view());
}

/// The features of a version, written with commas (as the version hands them
/// to `target_cfg` and `match_target!`) and split at the commas again, are
/// the version's features, where it has some and no name holds a comma.
pub proof fn lemma_features_list_roundtrip(t: &Target)
    requires
        t.features_view().len() > 0,
        forall|k: int| 0 <= k < t.features_view().len() ==> !(#[trigger] t.features_view()[k]).contains(','),
    ensures
        split_spec(join_spec(t.features_view(), ','), ',') == t.features_view(),
{
    crate::text::lemma_split_join(t.features_view(), ',');
}

/// Each feature of `feats` is known to the database for `arch`, its entry
/// names it first, and every name in its entry belongs to `names`.
pub open spec fn closed_under_implications(
    arch: Seq<char>,
    feats: Seq<Seq<char>>,
    names: Set<Seq<char>>,
) -> bool {
    forall|k: int|
        0 <= k < feats.len() ==> match feature_implications(arch, #[trigger] feats[k]) {
            None => false,
            Some(v) => v.len() > 0 && v[0] == feats[k] && v.to_set().subset_of(names),
        }
}

/// Resolving features whose implications stay inside `names`, starting from a
/// part of `names`, succeeds with a part of `names` that holds the features.
proof fn lemma_resolve_within(
    arch: Seq<char>,
    acc: Set<Seq<char>>,
    feats: Seq<Seq<char>>,
    names: Set<Seq<char>>,
)
    requires
        acc.subset_of(names),
        closed_under_implications(arch, feats, names),
    ensures
        resolve_features(arch, acc, feats) is Ok,
        acc.subset_of(resolve_features(arch, acc, feats)->Ok_0),
        feats.to_set().subset_of(resolve_features(arch, acc, feats)->Ok_0),
        resolve_features(arch, acc, feats)->Ok_0.subset_of(names),
    decreases feats.len(),
{
    if feats.len() > 0 {
        let v = feature_implications(arch, feats[0])->Some_0;
        assert(feature_implications(arch, feats[0]) is Some);
        let rest = feats.drop_first();
        assert forall|k: int| 0 <= k < rest.len() implies match feature_implications(arch, #[trigger] rest[k]) {
            None => false,
            Some(w) => w.len() > 0 && w[0] == rest[k] && w.to_set().subset_of(names),
        } by {
            assert(rest[k] == feats[k + 1]);
        }
        let next = acc + v.to_set();
        assert(v.to_set().contains(v[0]));
        lemma_resolve_within(arch, next, rest, names);
        let r = resolve_features(arch, acc, feats)->Ok_0;
        assert forall|x: Seq<char>| feats.to_set().contains(x) implies r.contains(x) by {
            let i = choose|i: int| 0 <= i < feats.len() && feats[i] == x;
            if i > 0 {
                assert(rest[i - 1] == x);
                assert(rest.to_set().contains(x));
            }
        }
    }
}

/// A target written as a target string is parsed back into the same
/// architecture and feature set, where the architecture is a valid name
/// without '+' or '/', each feature is a non-empty name without '+', and the
/// feature set holds every feature that its features imply. Any well-formed
/// target with that meaning has the same architecture and feature list.
pub proof fn lemma_target_string_roundtrip(t: &Target)
    requires
        t.wf(),
        arch_is_valid(t.arch_view()),
        !t.arch_view().contains('+'),
        !t.arch_view().contains('/'),
        forall|k: int|
            0 <= k < t.features_view().len() ==> (#[trigger] t.features_view()[k]).len() > 0
                && !t.features_view()[k].contains('+'),
        closed_under_implications(t.arch_view(), t.features_view(), t.features_view().to_set()),
    ensures
        parse_spec(join_spec(seq![t.arch_view()] + t.features_view(), '+')) == Ok::<
            _,
            TargetErrorKind,
        >((t.arch_view(), t.features_view().to_set())),
        forall|u: Target|
            u.wf() && parse_spec(join_spec(seq![t.arch_view()] + t.features_view(), '+')) == Ok::<
                _,
                TargetErrorKind,
            >((#[trigger] u.arch_view(), u.features_view().to_set())) ==> u.arch_view()
                == t.arch_view() && u.features_view() == t.features_view(),
{
    let arch = t.arch_view();
    let fv = t.features_view();
    let parts = seq![arch] + fv;
    let s = join_spec(parts, '+');
    assert forall|k: int| 0 <= k < parts.len() implies !(#[trigger] parts[k]).contains('+') by {
        if k > 0 {
            assert(parts[k] == fv[k - 1]);
        }
    }
    crate::text::lemma_split_join(parts, '+');
    assert(split_spec(s, '+')[0] == arch);
    assert(specified_features_of(s) =~= fv);
    crate::text::lemma_split_single(arch, '/');
    assert(arch_and_cpu(arch) == (arch, None::<Seq<char>>));
    assert(target_arch_of(s) == arch);
    assert(target_cpu_of(s) is None);
    assert(!(exists|k: int| 0 <= k < fv.len() && (#[trigger] fv[k]).len() == 0));
    lemma_resolve_within(arch, Set::empty(), fv, fv.to_set());
    let r = resolve_features(arch, Set::empty(), fv)->Ok_0;
    assert(r =~= fv.to_set());
    assert forall|u: Target|
        u.wf() && parse_spec(s) == Ok::<_, TargetErrorKind>(
            (#[trigger] u.arch_view(), u.features_view().to_set()),
        ) implies u.arch_view() == arch && u.features_view() == fv by {
        lemma_target_canonical(&u, t);
    }
}

/// Adds every name of `items` to a strictly sorted list.
pub fn insert_all(v: &mut Vec<String>, items: &Vec<String>)
    requires
        strictly_sorted(views(old(v)@)),
    ensures
        strictly_sorted(views(final(v)@)),
        views(final(v)@).to_set() == views(old(v)@).to_set() + views(items@).to_set(),
{
    let ghost start = views(v@).to_set();
    let mut i: usize = 0;
    while i < items.len()
        invariant
            0 <= i <= items@.len(),
            strictly_sorted(views(v@)),
            views(v@).to_set() == start + views(items@.take(i as int)).to_set(),
        decreases items@.len() - i,
    {
        let ghost before = views(v@).to_set();
        insert_sorted(v, items[i].clone());
        assert(views(items@.take(i + 1)) =~= views(items@.take(i as int)).push(items@[i as int]@));
        proof {
            views(items@.take(i as int)).lemma_push_to_set_commute(items@[i as int]@);
        }
        assert(views(v@).to_set() =~= start + views(items@.take(i + 1)).to_set());
        i += 1;
    }
    assert(items@.take(items@.len() as int) =~= items@);
}

} // verus!
