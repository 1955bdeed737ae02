//! Target strings of the bracketed form, which may name several
//! architectures at once: `"x86"`, `"x86_64+avx2+xsave"`,
//! `"[arm|aarch64]+neon"`.
use vstd::prelude::*;
use crate::stdlib::ascii_alphanumeric;
use crate::strings::eq;
use crate::text::{split, split_spec, views, lemma_split_nonempty};
use crate::dispatch::{FnShape, first_match, lemma_first_match_prefix, all_available};
use crate::attrs::{
    cfg_arch_attr, cfg_arch_text, enable_attrs, enable_text, macro_call, macro_call_text, interleave,
    interleave_strs, quoted,
};

verus! {

/// An architecture that this form of target string knows.
#[derive(PartialEq, Eq, Structural, Clone, Copy, Debug)]
pub enum Architecture {
    X86,
    X86_64,
    Arm,
    Aarch64,
    Mips,
    Mips64,
    PowerPC,
    PowerPC64,
}

/// The name of each architecture.
pub open spec fn arch_name(a: Architecture) -> Seq<char> {
    match a {
        Architecture::X86 => "x86"@,
        Architecture::X86_64 => "x86_64"@,
        Architecture::Arm => "arm"@,
        Architecture::Aarch64 => "aarch64"@,
        Architecture::Mips => "mips"@,
        Architecture::Mips64 => "mips64"@,
        Architecture::PowerPC => "powerpc"@,
        Architecture::PowerPC64 => "powerpc64"@,
    }
}

/// The architecture of a name, if any.
pub open spec fn arch_from_name(n: Seq<char>) -> Option<Architecture> {
    if n == "x86"@ {
        Some(Architecture::X86)
    } else if n == "x86_64"@ {
        Some(Architecture::X86_64)
    } else if n == "arm"@ {
        Some(Architecture::Arm)
    } else if n == "aarch64"@ {
        Some(Architecture::Aarch64)
    } else if n == "mips"@ {
        Some(Architecture::Mips)
    } else if n == "mips64"@ {
        Some(Architecture::Mips64)
    } else if n == "powerpc"@ {
        Some(Architecture::PowerPC)
    } else if n == "powerpc64"@ {
        Some(Architecture::PowerPC64)
    } else {
        None
    }
}

impl Architecture {
    /// The architecture of the given name, or `None` where the name is unknown.
    pub fn new(name: &str) -> (r: Option<Architecture>)
        ensures
            r == arch_from_name(name@),
    {
        if eq(name, "x86") {
            Some(Architecture::X86)
        } else if eq(name, "x86_64") {
            Some(Architecture::X86_64)
        } else if eq(name, "arm") {
            Some(Architecture::Arm)
        } else if eq(name, "aarch64") {
            Some(Architecture::Aarch64)
        } else if eq(name, "mips") {
            Some(Architecture::Mips)
        } else if eq(name, "mips64") {
            Some(Architecture::Mips64)
        } else if eq(name, "powerpc") {
            Some(Architecture::PowerPC)
        } else if eq(name, "powerpc64") {
            Some(Architecture::PowerPC64)
        } else {
            None
        }
    }

    /// The architecture's name, as `cfg(target_arch)` spells it.
    pub fn as_str(&self) -> (r: &'static str)
        ensures
            r@ == arch_name(*self),
    {
        match self {
            Architecture::X86 => "x86",
            Architecture::X86_64 => "x86_64",
            Architecture::Arm => "arm",
            Architecture::Aarch64 => "aarch64",
            Architecture::Mips => "mips",
            Architecture::Mips64 => "mips64",
            Architecture::PowerPC => "powerpc",
            Architecture::PowerPC64 => "powerpc64",
        }
    }

    /// The name of the std macro that detects this architecture's features.
    pub fn feature_detector(&self) -> (r: &'static str)
        ensures
            r@ == detector_name(*self),
    {
        match self {
            Architecture::X86 => "is_x86_feature_detected",
            Architecture::X86_64 => "is_x86_feature_detected",
            Architecture::Arm => "is_arm_feature_detected",
            Architecture::Aarch64 => "is_aarch64_feature_detected",
            Architecture::Mips => "is_mips_feature_detected",
            Architecture::Mips64 => "is_mips64_feature_detected",
            Architecture::PowerPC => "is_powerpc_feature_detected",
            Architecture::PowerPC64 => "is_powerpc64_feature_detected",
        }
    }
}

/// The feature-detection macro of each architecture; both x86 flavours share one.
pub open spec fn detector_name(a: Architecture) -> Seq<char> {
    match a {
        Architecture::X86 => "is_x86_feature_detected"@,
        Architecture::X86_64 => "is_x86_feature_detected"@,
        Architecture::Arm => "is_arm_feature_detected"@,
        Architecture::Aarch64 => "is_aarch64_feature_detected"@,
        Architecture::Mips => "is_mips_feature_detected"@,
        Architecture::Mips64 => "is_mips64_feature_detected"@,
        Architecture::PowerPC => "is_powerpc_feature_detected"@,
        Architecture::PowerPC64 => "is_powerpc64_feature_detected"@,
    }
}

/// What the class `\w` of the `regex` crate matches of a character alone.
pub uninterp spec fn regex_word_char(c: char) -> bool;

/// Whether `c` alone matches `^\w$` with the `regex` crate, the class in which
/// this grammar is written. The crate documents `\w` as the Unicode word
/// characters (Alphabetic, marks, decimal digits, connector punctuation and
/// join controls); among ASCII characters those are exactly the letters, the
/// digits and the underscore, which the contract states. Beyond ASCII the
/// result is only named.
#[verifier::external_body]
fn matches_word_class(c: char) -> (r: bool)
    ensures
        r == regex_word_char(c),
        (c as u32) < 128 ==> (r == (ascii_alphanumeric(c) || c == '_')),
{
    let mut buf = [0u8; 4];
    regex::Regex::new(r"^\w$").unwrap().is_match(c.encode_utf8(&mut buf))
}

/// A character of a word: one that `\w` matches.
pub open spec fn is_word_char(c: char) -> bool {
    regex_word_char(c)
}

/// A non-empty run of word characters.
pub open spec fn is_word(w: Seq<char>) -> bool {
    w.len() > 0 && forall|i: int| 0 <= i < w.len() ==> is_word_char(#[trigger] w[i])
}

/// The architecture names of the part before the first plus sign: one word,
/// or words separated by bars inside square brackets.
pub open spec fn arch_names_spec(head: Seq<char>) -> Option<Seq<Seq<char>>> {
    if is_word(head) {
        Some(seq![head])
    } else if head.len() >= 2 && head[0] == '[' && head.last() == ']' {
        let words = split_spec(head.subrange(1, head.len() - 1), '|');
        if forall|k: int| 0 <= k < words.len() ==> is_word(#[trigger] words[k]) {
            Some(words)
        } else {
            None
        }
    } else {
        None
    }
}

/// Why a target string of this form was refused.
pub enum LegacyErrorKind {
    InvalidTargetString,
    UnknownArchitecture(Seq<char>),
}

/// The first name, in order, that is no known architecture.
pub open spec fn first_unknown_arch(names: Seq<Seq<char>>) -> Option<Seq<char>>
    decreases names.len(),
{
    if names.len() == 0 {
        None
    } else if arch_from_name(names[0]) is None {
        Some(names[0])
    } else {
        first_unknown_arch(names.drop_first())
    }
}

/// The architectures and the features that a target string names, or why it
/// is refused.
pub open spec fn legacy_parse_spec(s: Seq<char>) -> Result<(Seq<Architecture>, Seq<Seq<char>>), LegacyErrorKind> {
    let pieces = split_spec(s, '+');
    let features = pieces.drop_first();
    match arch_names_spec(pieces[0]) {
        None => Err(LegacyErrorKind::InvalidTargetString),
        Some(names) => if exists|k: int| 0 <= k < features.len() && !is_word(#[trigger] features[k]) {
            Err(LegacyErrorKind::InvalidTargetString)
        } else {
            match first_unknown_arch(names) {
                Some(n) => Err(LegacyErrorKind::UnknownArchitecture(n)),
                None => Ok((names.map_values(|n: Seq<char>| arch_from_name(n).unwrap()), features)),
            }
        },
    }
}

/// Why a target string of this form was refused.
#[derive(Debug)]
pub enum LegacyTargetError {
    InvalidTargetString,
    UnknownArchitecture(String),
}

impl LegacyTargetError {
    pub open spec fn kind(&self) -> LegacyErrorKind {
        match self {
            LegacyTargetError::InvalidTargetString => LegacyErrorKind::InvalidTargetString,
            LegacyTargetError::UnknownArchitecture(n) => LegacyErrorKind::UnknownArchitecture(n@),
        }
    }
}

/// One architecture with the features asked for, in the order given.
#[derive(Debug, Clone)]
pub struct Target {
    pub architecture: Architecture,
    pub features: Vec<String>,
}

impl Target {
    /// The architecture's name.
    pub fn arch_as_str(&self) -> (r: &'static str)
        ensures
            r@ == arch_name(self.architecture),
    {
        self.architecture.as_str()
    }

    /// Whether any feature is named.
    pub fn has_features_specified(&self) -> (r: bool)
        ensures
            r == (self.features@.len() > 0),
    {
        self.features.len() > 0
    }

    /// `#[cfg(target_arch = "arch")]`.
    pub fn target_arch(&self) -> (r: String)
        ensures
            r@ == cfg_arch_text(arch_name(self.architecture)),
    {
        cfg_arch_attr(self.architecture.as_str())
    }

    /// The `#[target_feature(enable = "feature")]` attributes of the
    /// features, separated by spaces.
    pub fn target_features(&self) -> (r: String)
        ensures
            r@ == interleave(views(self.features@).map_values(|f: Seq<char>| enable_text(f)), " "@),
    {
        let attrs = enable_attrs(self.features.as_slice());
        interleave_strs(attrs.as_slice(), " ")
    }

    /// The run-time detection of every feature, joined by `&&`:
    /// `is_x86_feature_detected!("avx") && ..`, or `true` where no feature is
    /// named.
    pub fn features_detected(&self) -> (r: String)
        ensures
            self.features@.len() == 0 ==> r@ == "true"@,
            self.features@.len() > 0 ==> r@ == interleave(
                views(self.features@).map_values(|f: Seq<char>| macro_call_text(detector_name(self.architecture), f)),
                " && "@,
            ),
    {
        if self.features.len() == 0 {
            return "true".to_string();
        }
        let mac = self.architecture.feature_detector();
        let mut terms: Vec<String> = Vec::new();
        let n = self.features.len();
        let mut i: usize = 0;
        while i < n
            invariant
                n == self.features@.len(),
                i <= n,
                mac@ == detector_name(self.architecture),
                views(terms@) == views(self.features@).take(i as int).map_values(
                    |f: Seq<char>| macro_call_text(detector_name(self.architecture), f),
                ),
            decreases n - i,
        {
            let t = macro_call(mac, self.features[i].as_str());
            let ghost before = views(terms@);
            let ghost tv = t@;
            terms.push(t);
            assert(views(terms@) =~= before.push(tv));
            assert(views(terms@) =~= views(self.features@).take(i + 1).map_values(
                |f: Seq<char>| macro_call_text(detector_name(self.architecture), f),
            ));
            i += 1;
        }
        assert(views(self.features@).take(n as int) =~= views(self.features@));
        interleave_strs(terms.as_slice(), " && ")
    }
}

/// Whether every character of `s` is a word character and there is one.
fn check_word(s: &str) -> (r: bool)
    ensures
        r == is_word(s@),
{
    let n = s.unicode_len();
    if n == 0 {
        return false;
    }
    let mut i: usize = 0;
    while i < n
        invariant
            n == s@.len(),
            i <= n,
            forall|j: int| 0 <= j < i ==> is_word_char(#[trigger] s@[j]),
        decreases n - i,
    {
        let c = s.get_char(i);
        if !matches_word_class(c) {
            assert(!is_word_char(s@[i as int]));
            return false;
        }
        i += 1;
    }
    true
}

/// Whether every string of the list is a word.
fn all_words(v: &Vec<String>, from: usize) -> (r: bool)
    requires
        from <= v@.len(),
    ensures
        r == forall|k: int| from <= k < v@.len() ==> is_word(#[trigger] views(v@)[k]),
{
    let mut k = from;
    while k < v.len()
        invariant
            from <= k <= v@.len(),
            forall|m: int| from <= m < k ==> is_word(#[trigger] views(v@)[m]),
        decreases v@.len() - k,
    {
        if !check_word(v[k].as_str()) {
            assert(!is_word(views(v@)[k as int]));
            return false;
        }
        k += 1;
    }
    true
}

/// The architecture names of the part before the first plus sign.
fn arch_names(head: &str) -> (r: Option<Vec<String>>)
    ensures
        match r {
            Some(v) => arch_names_spec(head@) == Some(views(v@)),
            None => arch_names_spec(head@) is None,
        },
{
    if check_word(head) {
        let mut v: Vec<String> = Vec::new();
        v.push(head.to_owned());
        assert(views(v@) =~= seq![head@]);
        return Some(v);
    }
    let n = head.unicode_len();
    if n >= 2 && head.get_char(0) == '[' && head.get_char(n - 1) == ']' {
        let inner = head.substring_char(1, n - 1);
        let words = split(inner, '|');
        if all_words(&words, 0) {
            Some(words)
        } else {
            None
        }
    } else {
        None
    }
}

/// Parses a target string that may name several architectures; each gets
/// its own target with the same features.
#[verifier::loop_isolation(false)]
pub fn parse_target_string(s: &str) -> (r: Result<Vec<Target>, LegacyTargetError>)
    ensures
        match r {
            Ok(targets) => legacy_parse_spec(s@) matches Ok((arches, features)) && {
                &&& targets@.len() == arches.len()
                &&& forall|i: int| 0 <= i < arches.len() ==> (#[trigger] targets@[i]).architecture == arches[i]
                    && views(targets@[i].features@) == features
            },
            Err(e) => legacy_parse_spec(s@) == Err::<(Seq<Architecture>, Seq<Seq<char>>), _>(e.kind()),
        },
{
    let pieces = split(s, '+');
    proof {
        lemma_split_nonempty(s@, '+');
    }
    let names = match arch_names(pieces[0].as_str()) {
        None => {
            return Err(LegacyTargetError::InvalidTargetString);
        },
        Some(names) => names,
    };
    if !all_words(&pieces, 1) {
        let ghost features = split_spec(s@, '+').drop_first();
        assert(exists|k: int| 0 <= k < features.len() && !is_word(#[trigger] features[k])) by {
            let m = choose|m: int| 1 <= m < pieces@.len() && !is_word(#[trigger] views(pieces@)[m]);
            assert(features[m - 1] == views(pieces@)[m]);
        }
        return Err(LegacyTargetError::InvalidTargetString);
    }
    let ghost features = split_spec(s@, '+').drop_first();
    assert(!exists|k: int| 0 <= k < features.len() && !is_word(#[trigger] features[k])) by {
        assert forall|k: int| 0 <= k < features.len() implies is_word(#[trigger] features[k]) by {
            assert(features[k] == views(pieces@)[k + 1]);
        }
    }
    let mut feature_list: Vec<String> = Vec::new();
    let n = pieces.len();
    let mut k: usize = 1;
    while k < n
        invariant
            n == pieces@.len(),
            1 <= k <= n,
            features == views(pieces@).drop_first(),
            views(feature_list@) == features.take(k - 1),
        decreases n - k,
    {
        let ghost before = views(feature_list@);
        feature_list.push(pieces[k].clone());
        assert(features[k - 1] == views(pieces@)[k as int]);
        assert(views(feature_list@) =~= before.push(pieces@[k as int]@));
        assert(views(feature_list@) =~= features.take(k as int));
        k += 1;
    }
    assert(features.take(n - 1) =~= features);
    let ghost sn = views(names@);
    let mut targets: Vec<Target> = Vec::new();
    let mut i: usize = 0;
    assert(sn.skip(0) =~= sn);
    while i < names.len()
        invariant
            sn == views(names@),
            i <= names@.len(),
            first_unknown_arch(sn.skip(i as int)) == first_unknown_arch(sn),
            targets@.len() == i,
            views(feature_list@) == features,
            forall|j: int| 0 <= j < i ==> arch_from_name(#[trigger] sn[j]) is Some,
            forall|j: int| 0 <= j < i ==> (#[trigger] targets@[j]).architecture == arch_from_name(sn[j]).unwrap()
                && views(targets@[j].features@) == features,
        decreases names@.len() - i,
    {
        assert(sn.skip(i as int)[0] == sn[i as int]);
        assert(sn.skip(i as int).drop_first() =~= sn.skip(i + 1));
        match Architecture::new(names[i].as_str()) {
            None => {
                assert(first_unknown_arch(sn) == Some(sn[i as int]));
                return Err(LegacyTargetError::UnknownArchitecture(names[i].clone()));
            },
            Some(a) => {
                let fl = feature_list.clone();
                assert(views(fl@) =~= views(feature_list@)) by {
                    assert forall|j: int| 0 <= j < fl@.len() implies fl@[j]@ == feature_list@[j]@ by {
                        assert(vstd::pervasive::cloned(feature_list@[j], fl@[j]));
                    }
                }
                targets.push(Target { architecture: a, features: fl });
            },
        }
        i += 1;
    }
    assert(sn.skip(sn.len() as int) =~= Seq::<Seq<char>>::empty());
    Ok(targets)
}

/// A target as plain values: its architecture's name and its features.
pub open spec fn legacy_tv(t: Target) -> (Seq<char>, Seq<Seq<char>>) {
    (arch_name(t.architecture), views(t.features@))
}

/// The plain values of a list of targets.
pub open spec fn legacy_tvs(ts: Seq<Target>) -> Seq<(Seq<char>, Seq<Seq<char>>)> {
    ts.map_values(|t: Target| legacy_tv(t))
}

/// The specialization that a call runs on a machine of architecture `arch`
/// where the `detected` features were found: the first target, in the order
/// written, that has features, is for `arch`, and whose features were all
/// detected; `None` means the default version.
pub fn select_specialization(targets: &[Target], arch: Architecture, detected: &[String]) -> (r: Option<usize>)
    ensures
        r == match first_match(legacy_tvs(targets@), arch_name(arch), views(detected@)) {
            Some(i) => Some(i as usize),
            None => None::<usize>,
        },
{
    let ghost ts = legacy_tvs(targets@);
    let mut i: usize = 0;
    assert(ts.take(0) =~= Seq::<(Seq<char>, Seq<Seq<char>>)>::empty());
    while i < targets.len()
        invariant
            ts == legacy_tvs(targets@),
            i <= targets@.len(),
            first_match(ts.take(i as int), arch_name(arch), views(detected@)) is None,
        decreases targets@.len() - i,
    {
        let t = &targets[i];
        assert(ts.take(i + 1).drop_last() =~= ts.take(i as int));
        assert(ts.take(i + 1).last() == legacy_tv(*t));
        if t.has_features_specified() && t.architecture == arch && all_available(t.features.as_slice(), detected) {
            assert(first_match(ts.take(i + 1), arch_name(arch), views(detected@)) == Some(i as int));
            proof {
                lemma_first_match_prefix(ts, i + 1, arch_name(arch), views(detected@));
            }
            return Some(i);
        }
        proof {
            if t.architecture != arch {
                lemma_arch_name_injective(t.architecture, arch);
            }
        }
        i += 1;
    }
    assert(ts.take(targets@.len() as int) =~= ts);
    None
}

/// Looking an architecture's name up gives the architecture back.
pub proof fn lemma_arch_name_roundtrip(a: Architecture)
    ensures
        arch_from_name(arch_name(a)) == Some(a),
{
    reveal_strlit("x86");
    reveal_strlit("x86_64");
    reveal_strlit("arm");
    reveal_strlit("aarch64");
    reveal_strlit("mips");
    reveal_strlit("mips64");
    reveal_strlit("powerpc");
    reveal_strlit("powerpc64");
    assert("x86"@.len() == 3 && "x86_64"@.len() == 6 && "arm"@.len() == 3 && "aarch64"@.len() == 7);
    assert("mips"@.len() == 4 && "mips64"@.len() == 6 && "powerpc"@.len() == 7 && "powerpc64"@.len() == 9);
    assert("arm"@[0] != "x86"@[0]);
    assert("mips64"@[0] != "x86_64"@[0]);
    assert("powerpc"@[0] != "aarch64"@[0]);
}

/// Different architectures have different names.
pub proof fn lemma_arch_name_injective(a: Architecture, b: Architecture)
    requires
        a != b,
    ensures
        arch_name(a) != arch_name(b),
{
    lemma_arch_name_roundtrip(a);
    lemma_arch_name_roundtrip(b);
}

/// Whether the dispatcher keeps the selected version in a function pointer
/// rather than branching on each call: only with run-time dispatch, and only
/// for a function that is neither generic, `async`, `impl Trait` nor
/// associated, since only such a function has a pointer type.
pub open spec fn fn_pointer_dispatch_spec(runtime_dispatch: bool, shape: FnShape, associated: bool) -> bool {
    runtime_dispatch && !shape.has_type_params && !shape.is_async && !shape.has_impl_trait && !associated
}

/// Whether the dispatcher keeps the selected version in a function pointer.
pub fn uses_fn_pointer(runtime_dispatch: bool, shape: FnShape, associated: bool) -> (r: bool)
    ensures
        r == fn_pointer_dispatch_spec(runtime_dispatch, shape, associated),
{
    runtime_dispatch && !shape.has_type_params && !shape.is_async && !shape.has_impl_trait && !associated
}

/// The architectures of the targets that name no features, in order: there,
/// such a target's version takes the place of the default one.
pub open spec fn defaulted_spec(ts: Seq<Target>) -> Seq<Architecture>
    decreases ts.len(),
{
    if ts.len() == 0 {
        Seq::empty()
    } else if ts.last().features@.len() == 0 {
        defaulted_spec(ts.drop_last()).push(ts.last().architecture)
    } else {
        defaulted_spec(ts.drop_last())
    }
}

/// `target_arch = "name"`.
pub open spec fn arch_cfg_text(a: Architecture) -> Seq<char> {
    "target_arch = "@ + quoted(arch_name(a))
}

/// The architectures of the targets that name no features.
pub fn defaulted_arches(targets: &[Target]) -> (r: Vec<Architecture>)
    ensures
        r@ == defaulted_spec(targets@),
{
    let mut out: Vec<Architecture> = Vec::new();
    let mut i: usize = 0;
    assert(targets@.take(0) =~= Seq::<Target>::empty());
    while i < targets.len()
        invariant
            i <= targets@.len(),
            out@ == defaulted_spec(targets@.take(i as int)),
        decreases targets@.len() - i,
    {
        assert(targets@.take(i + 1).drop_last() =~= targets@.take(i as int));
        assert(targets@.take(i + 1).last() == targets@[i as int]);
        if targets[i].features.len() == 0 {
            out.push(targets[i].architecture);
        }
        i += 1;
    }
    assert(targets@.take(targets@.len() as int) =~= targets@);
    out
}

/// The attribute on the default version: `#[cfg(not(any(target_arch = "a", ..)))]`
/// over the architectures of the targets that name no features.
pub fn default_version_cfg(targets: &[Target]) -> (r: String)
    ensures
        r@ == "#[cfg(not(any("@ + interleave(defaulted_spec(targets@).map_values(|a: Architecture| arch_cfg_text(a)), ", "@)
            + ")))]"@,
{
    let arches = defaulted_arches(targets);
    let mut parts: Vec<String> = Vec::new();
    let mut i: usize = 0;
    while i < arches.len()
        invariant
            i <= arches@.len(),
            views(parts@) == arches@.take(i as int).map_values(|a: Architecture| arch_cfg_text(a)),
        decreases arches@.len() - i,
    {
        let mut p = String::new();
        crate::text::append_str(&mut p, "target_arch = ");
        crate::stdlib::push_char(&mut p, '"');
        crate::text::append_str(&mut p, arches[i].as_str());
        crate::stdlib::push_char(&mut p, '"');
        assert(p@ =~= arch_cfg_text(arches@[i as int]));
        let ghost before = views(parts@);
        let ghost pv = p@;
        parts.push(p);
        assert(views(parts@) =~= before.push(pv));
        assert(views(parts@) =~= arches@.take(i + 1).map_values(|a: Architecture| arch_cfg_text(a)));
        i += 1;
    }
    assert(arches@.take(arches@.len() as int) =~= arches@);
    let mut out = String::new();
    crate::text::append_str(&mut out, "#[cfg(not(any(");
    let joined = interleave_strs(parts.as_slice(), ", ");
    crate::text::append_str(&mut out, joined.as_str());
    crate::text::append_str(&mut out, ")))]");
    out
}

} // verus!
