use multiversion::dispatch::DispatchMethod;
use multiversion::options::{parse_options, simd_preset, Lit, MetaArg, Nested, OptionEntry, OptionsError};

fn entry(key: &str, arg: MetaArg) -> OptionEntry {
    OptionEntry::Meta { key: Some(key.to_string()), arg }
}

fn targets(specs: &[&str]) -> OptionEntry {
    entry("targets", MetaArg::List(specs.iter().map(|s| Nested::Lit(Lit::Str(s.to_string()))).collect()))
}

fn str_value(key: &str, v: &str) -> OptionEntry {
    entry(key, MetaArg::NameValue(Lit::Str(v.to_string())))
}

#[test]
fn options_read_targets_attrs_and_dispatcher() {
    let entries = vec![
        targets(&["x86_64+avx2", "x86+sse"]),
        entry("attrs", MetaArg::List(vec![Nested::Meta])),
        str_value("dispatcher", "direct"),
    ];
    let c = parse_options(false, false, &entries).unwrap();
    assert_eq!(c.targets.len(), 2);
    assert_eq!(c.targets[0].arch(), "x86_64");
    assert!(c.targets[0].features().iter().any(|f| f == "avx2"));
    assert_eq!(c.targets[1].arch(), "x86");
    assert_eq!(c.attrs_entry, Some(1));
    assert_eq!(c.dispatcher, DispatchMethod::Direct);
}

#[test]
fn options_defaults() {
    let c = parse_options(false, false, &vec![targets(&["aarch64+neon"])]).unwrap();
    assert_eq!(c.attrs_entry, None);
    assert_eq!(c.dispatcher, DispatchMethod::Default);
    for (name, method) in [
        ("default", DispatchMethod::Default),
        ("static", DispatchMethod::Static),
        ("direct", DispatchMethod::Direct),
        ("indirect", DispatchMethod::Indirect),
    ] {
        let c = parse_options(false, false, &vec![targets(&["aarch64+neon"]), str_value("dispatcher", name)]).unwrap();
        assert_eq!(c.dispatcher, method);
    }
}

#[test]
fn simd_targets() {
    let c = parse_options(false, false, &vec![str_value("targets", "simd")]).unwrap();
    let preset = simd_preset().unwrap();
    assert_eq!(c.targets.len(), 6);
    let arches: Vec<&str> = c.targets.iter().map(|t| t.arch()).collect();
    assert_eq!(arches, vec!["x86_64", "x86_64", "x86", "x86", "x86", "aarch64"]);
    for (a, b) in c.targets.iter().zip(preset.iter()) {
        assert!(a.same_target(b));
    }
    assert!(c.targets[0].features().iter().any(|f| f == "fma"));
    assert!(c.targets[1].features().iter().any(|f| f == "sse4.2"));
}

#[test]
fn options_errors() {
    let t = || targets(&["x86_64+avx"]);
    assert!(matches!(parse_options(true, false, &vec![t()]), Err(OptionsError::ImplTraitReturn)));
    assert!(matches!(parse_options(false, false, &vec![t(), OptionEntry::Lit]), Err(OptionsError::ExpectedMeta(1))));
    assert!(matches!(
        parse_options(false, false, &vec![OptionEntry::Meta { key: None, arg: MetaArg::Path }, t()]),
        Err(OptionsError::ExpectedIdentifier(0))
    ));
    assert!(matches!(parse_options(false, false, &vec![t(), t()]), Err(OptionsError::DuplicateKey(1))));
    assert!(matches!(parse_options(false, false, &vec![]), Err(OptionsError::ExpectedTargets)));
    assert!(matches!(parse_options(false, false, &vec![targets(&["x86_64+bogus"])]), Err(OptionsError::BadTarget(_))));
    assert!(matches!(parse_options(false, false, &vec![targets(&["x86_64"])]), Err(OptionsError::TargetWithoutFeatures)));
    assert!(matches!(
        parse_options(false, false, &vec![entry("targets", MetaArg::List(vec![Nested::Lit(Lit::Other)]))]),
        Err(OptionsError::ExpectedString)
    ));
    assert!(matches!(
        parse_options(false, false, &vec![entry("targets", MetaArg::List(vec![Nested::Meta]))]),
        Err(OptionsError::ExpectedTargetString)
    ));
    assert!(matches!(parse_options(false, false, &vec![str_value("targets", "avx")]), Err(OptionsError::ExpectedSimd)));
    assert!(matches!(parse_options(false, false, &vec![entry("targets", MetaArg::Path)]), Err(OptionsError::ExpectedTargetList)));
    assert!(matches!(
        parse_options(false, false, &vec![t(), entry("attrs", MetaArg::Path)]),
        Err(OptionsError::ExpectedAttributeList)
    ));
    assert!(matches!(
        parse_options(false, false, &vec![t(), entry("dispatcher", MetaArg::Path)]),
        Err(OptionsError::ExpectedNameValue)
    ));
    assert!(matches!(parse_options(false, false, &vec![t(), str_value("dispatcher", "fast")]), Err(OptionsError::UnknownDispatcher)));
    assert!(matches!(
        parse_options(false, false, &vec![t(), entry("dispatcher", MetaArg::NameValue(Lit::Other))]),
        Err(OptionsError::ExpectedString)
    ));
    assert!(matches!(parse_options(false, false, &vec![t(), str_value("selected_target", "X")]), Err(OptionsError::UnexpectedKey(1))));
}

#[test]
fn bare_attribute_with_specializations() {
    let c = parse_options(false, true, &vec![]).unwrap();
    assert!(c.targets.is_empty());
    assert!(c.attrs_entry.is_none());
    assert!(matches!(parse_options(false, false, &vec![]), Err(OptionsError::ExpectedTargets)));
    let with_targets = parse_options(false, true, &vec![targets(&["x86_64+avx"])]).unwrap();
    assert_eq!(with_targets.targets.len(), 1);
}
