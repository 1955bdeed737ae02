//! The Rust source text of the attributes and conditions that the generated
//! function versions carry, such as `#[cfg(target_arch = "x86")]` or
//! `is_x86_feature_detected!("avx")`.
use vstd::prelude::*;
use crate::text::{views, append_str};
use crate::stdlib::push_char;

verus! {

/// The pieces with `sep` between each two of them.
pub open spec fn interleave(parts: Seq<Seq<char>>, sep: Seq<char>) -> Seq<char>
    decreases parts.len(),
{
    if parts.len() == 0 {
        Seq::empty()
    } else if parts.len() == 1 {
        parts[0]
    } else {
        interleave(parts.drop_last(), sep) + sep + parts.last()
    }
}

/// `true`, followed by ` && term` for each term.
pub open spec fn conjunction_text(terms: Seq<Seq<char>>) -> Seq<char>
    decreases terms.len(),
{
    if terms.len() == 0 {
        "true"@
    } else {
        conjunction_text(terms.drop_last()) + " && "@ + terms.last()
    }
}

/// A string literal: the text between double quotes.
pub open spec fn quoted(s: Seq<char>) -> Seq<char> {
    seq!['"'] + s + seq!['"']
}

/// `#[cfg(target_arch = "arch")]`.
pub open spec fn cfg_arch_text(arch: Seq<char>) -> Seq<char> {
    "#[cfg(target_arch = "@ + quoted(arch) + ")]"@
}

/// `#[target_feature(enable = "feature")]`.
pub open spec fn enable_text(feature: Seq<char>) -> Seq<char> {
    "#[target_feature(enable = "@ + quoted(feature) + ")]"@
}

/// `mac!("feature")`: a call of a feature-detection macro.
pub open spec fn macro_call_text(mac: Seq<char>, feature: Seq<char>) -> Seq<char> {
    mac + "!("@ + quoted(feature) + ")"@
}

/// `core::cfg!(target_feature = "feature")`.
pub open spec fn cfg_feature_text(feature: Seq<char>) -> Seq<char> {
    "core::cfg!(target_feature = "@ + quoted(feature) + ")"@
}

/// Appends `"s"` to `out`.
fn append_quoted(out: &mut String, s: &str)
    ensures
        final(out)@ == old(out)@ + quoted(s@),
{
    push_char(out, '"');
    append_str(out, s);
    push_char(out, '"');
    assert(out@ =~= old(out)@ + quoted(s@));
}

/// `#[cfg(target_arch = "arch")]`.
pub fn cfg_arch_attr(arch: &str) -> (r: String)
    ensures
        r@ == cfg_arch_text(arch@),
{
    let mut out = String::new();
    append_str(&mut out, "#[cfg(target_arch = ");
    append_quoted(&mut out, arch);
    append_str(&mut out, ")]");
    assert(out@ =~= cfg_arch_text(arch@));
    out
}

/// `#[target_feature(enable = "feature")]`.
pub fn enable_attr(feature: &str) -> (r: String)
    ensures
        r@ == enable_text(feature@),
{
    let mut out = String::new();
    append_str(&mut out, "#[target_feature(enable = ");
    append_quoted(&mut out, feature);
    append_str(&mut out, ")]");
    assert(out@ =~= enable_text(feature@));
    out
}

/// `mac!("feature")`.
pub fn macro_call(mac: &str, feature: &str) -> (r: String)
    ensures
        r@ == macro_call_text(mac@, feature@),
{
    let mut out = String::new();
    append_str(&mut out, mac);
    append_str(&mut out, "!(");
    append_quoted(&mut out, feature);
    append_str(&mut out, ")");
    assert(out@ =~= macro_call_text(mac@, feature@));
    out
}

/// `core::cfg!(target_feature = "feature")`.
pub fn cfg_feature(feature: &str) -> (r: String)
    ensures
        r@ == cfg_feature_text(feature@),
{
    let mut out = String::new();
    append_str(&mut out, "core::cfg!(target_feature = ");
    append_quoted(&mut out, feature);
    append_str(&mut out, ")");
    assert(out@ =~= cfg_feature_text(feature@));
    out
}

/// One `#[target_feature(enable = ..)]` attribute per feature, in order.
pub fn enable_attrs(features: &[String]) -> (r: Vec<String>)
    ensures
        views(r@) == views(features@).map_values(|f: Seq<char>| enable_text(f)),
{
    let mut out: Vec<String> = Vec::new();
    let mut i: usize = 0;
    while i < features.len()
        invariant
            i <= features@.len(),
            views(out@) == views(features@).take(i as int).map_values(|f: Seq<char>| enable_text(f)),
        decreases features@.len() - i,
    {
        let a = enable_attr(features[i].as_str());
        let ghost before = views(out@);
        let ghost av = a@;
        out.push(a);
        assert(views(out@) =~= before.push(av));
        assert(views(out@) =~= views(features@).take(i + 1).map_values(|f: Seq<char>| enable_text(f)));
        i += 1;
    }
    assert(views(features@).take(features@.len() as int) =~= views(features@));
    out
}

/// The pieces with `sep` between each two of them.
pub fn interleave_strs(parts: &[String], sep: &str) -> (r: String)
    ensures
        r@ == interleave(views(parts@), sep@),
{
    let mut out = String::new();
    let mut i: usize = 0;
    assert(views(parts@).take(0) =~= Seq::<Seq<char>>::empty());
    while i < parts.len()
        invariant
            i <= parts@.len(),
            out@ == interleave(views(parts@).take(i as int), sep@),
        decreases parts@.len() - i,
    {
        if i > 0 {
            append_str(&mut out, sep);
        }
        append_str(&mut out, parts[i].as_str());
        let ghost t = views(parts@).take(i + 1);
        assert(t.drop_last() =~= views(parts@).take(i as int));
        assert(t.last() == parts@[i as int]@);
        assert(out@ =~= interleave(t, sep@));
        i += 1;
    }
    assert(views(parts@).take(parts@.len() as int) =~= views(parts@));
    out
}

/// `true`, followed by ` && term` for each term.
pub fn conjunction(terms: &[String]) -> (r: String)
    ensures
        r@ == conjunction_text(views(terms@)),
{
    let mut out = String::new();
    append_str(&mut out, "true");
    let mut i: usize = 0;
    assert(views(terms@).take(0) =~= Seq::<Seq<char>>::empty());
    while i < terms.len()
        invariant
            i <= terms@.len(),
            out@ == conjunction_text(views(terms@).take(i as int)),
        decreases terms@.len() - i,
    {
        append_str(&mut out, " && ");
        append_str(&mut out, terms[i].as_str());
        let ghost t = views(terms@).take(i + 1);
        assert(t.drop_last() =~= views(terms@).take(i as int));
        assert(t.last() == terms@[i as int]@);
        assert(out@ =~= conjunction_text(t));
        i += 1;
    }
    assert(views(terms@).take(terms@.len() as int) =~= views(terms@));
    out
}

} // verus!
