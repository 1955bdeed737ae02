use multiversion::target::{Target, TargetError};

fn has(t: &Target, f: &str) -> bool {
    t.features().iter().any(|x| x == f)
}

#[test]
fn parse_architecture() {
    let target = Target::parse("x86_64").unwrap();
    assert_eq!(target.arch(), "x86_64");
    assert!(Target::parse("x86-64").is_err());
}

#[test]
fn parse_no_features() {
    let target = Target::parse("x86").unwrap();
    assert_eq!(target.arch(), "x86");
    assert!(target.features().is_empty());
}

#[test]
fn parse_features() {
    let target = Target::parse("x86_64+sse4.2+xsave").unwrap();
    assert_eq!(target.arch(), "x86_64");
    assert!(has(&target, "sse4.2"));
    assert!(has(&target, "xsave"));
}

#[test]
fn parse_extra_plus_start() {
    Target::parse("+x86+sse4.2+xsave").unwrap_err();
}

#[test]
fn parse_extra_plus_end() {
    Target::parse("x86+sse4.2+xsave+").unwrap_err();
}

#[test]
fn parse_cpu() {
    let target = Target::parse("powerpc64/pwr7").unwrap();
    assert_eq!(target.arch(), "powerpc64");
    assert!(has(&target, "altivec"));
    assert!(has(&target, "vsx"));
}

#[test]
fn parse_cpu_features() {
    let target = Target::parse("x86/i686+xsave").unwrap();
    assert_eq!(target.arch(), "x86");
    assert!(has(&target, "sse2"));
    assert!(has(&target, "xsave"));
}

#[test]
fn target_generate_target_arch() {
    let target = Target::parse("x86+avx").unwrap();
    assert_eq!(target.target_arch(), "#[cfg(target_arch = \"x86\")]");
}

#[test]
fn generate_target_feature() {
    let target = Target::parse("x86+avx+xsave").unwrap();
    let attrs = target.target_feature();
    assert!(attrs.iter().any(|a| a == "#[target_feature(enable = \"avx\")]"));
    assert!(attrs.iter().any(|a| a == "#[target_feature(enable = \"xsave\")]"));
}

#[test]
fn parse_errors_name_their_cause() {
    assert!(matches!(Target::parse(""), Err(TargetError::InvalidArchitecture)));
    assert!(matches!(Target::parse("x86/"), Err(TargetError::UnknownCpu(_))));
    assert!(matches!(Target::parse("x86+"), Err(TargetError::EmptyFeature)));
    assert!(matches!(Target::parse("x86++avx"), Err(TargetError::EmptyFeature)));
    match Target::parse("x86_64/not-a-cpu") {
        Err(TargetError::UnknownCpu(cpu)) => assert_eq!(cpu, "not-a-cpu"),
        other => panic!("unexpected result {:?}", other),
    }
    match Target::parse("x86_64+avx+nonsense") {
        Err(TargetError::UnknownFeature(f)) => assert_eq!(f, "nonsense"),
        other => panic!("unexpected result {:?}", other),
    }
}

#[test]
fn features_are_sorted_and_closed_under_implication() {
    let target = Target::parse("x86_64+avx2").unwrap();
    let fs = target.features();
    for w in fs.windows(2) {
        assert!(w[0] < w[1]);
    }
    assert!(has(&target, "avx2"));
    assert!(has(&target, "avx"));
    assert!(has(&target, "sse2"));
}

#[test]
fn same_feature_set_gives_same_target() {
    let a = Target::parse("x86_64+avx2+avx").unwrap();
    let b = Target::parse("x86_64+avx+avx2").unwrap();
    let c = Target::parse("x86_64+avx2").unwrap();
    assert!(a.same_target(&b));
    assert!(a.same_target(&c));
    assert_eq!(a.features(), c.features());
}

#[test]
fn features_string_joins_and_drops_dots() {
    let target = Target::parse("x86_64+sse4.2").unwrap();
    let s = target.features_string();
    assert!(!s.contains('.'));
    assert!(s.contains("sse42"));
    assert_eq!(target.features_list_string(), target.features().join(","));
    let mut expected = String::from("x86_64");
    for f in target.features() {
        expected.push('+');
        expected.push_str(f);
    }
    assert_eq!(target.target_string(), expected);
}

#[test]
fn generated_conditions() {
    let target = Target::parse("aarch64+neon").unwrap();
    let features = target.features().to_vec();
    let mut enabled = String::from("true");
    let mut detected = String::from("true");
    for f in &features {
        enabled.push_str(&format!(" && core::cfg!(target_feature = \"{}\")", f));
        detected.push_str(&format!(" && std::arch::is_aarch64_feature_detected!(\"{}\")", f));
    }
    assert_eq!(target.features_enabled(), enabled);
    assert_eq!(target.features_detected(), detected);
    let x = Target::parse("x86_64").unwrap();
    assert_eq!(x.features_enabled(), "true");
    assert_eq!(x.features_detected(), "true");
    let attrs = target.fn_attrs();
    assert_eq!(attrs.last().unwrap(), "#[cfg(target_arch = \"aarch64\")]");
    assert_eq!(attrs.len(), features.len() + 1);
}

#[test]
fn x86_64_detection_uses_the_x86_macro() {
    let target = Target::parse("x86_64+avx").unwrap();
    assert!(target.features_detected().contains("std::arch::is_x86_feature_detected!(\"avx\")"));
}

#[test]
fn features_list_reads_back() {
    let target = Target::parse("x86_64+avx2+fma").unwrap();
    let list = target.features_list_string();
    let back: Vec<String> = multiversion::text::split(&list, ',');
    assert_eq!(back, target.features().to_vec());
    let none = Target::parse("x86_64").unwrap();
    assert_eq!(multiversion::text::split(&none.features_list_string(), ','), vec![String::new()]);
}

#[test]
fn split_and_join_undo_each_other() {
    use_split_join("a,,b,");
    use_split_join("");
    use_split_join("abc");
}

fn use_split_join(s: &str) {
    let pieces = multiversion::text::split(s, ',');
    assert_eq!(pieces, s.split(',').map(|p| p.to_string()).collect::<Vec<_>>());
    assert_eq!(multiversion::text::join(&pieces, ','), s);
}

#[test]
fn riscv_detection_uses_the_riscv_macro() {
    for arch in ["riscv64", "riscv32"] {
        let target = Target::parse(&format!("{}+v", arch)).unwrap();
        let detected = target.features_detected();
        assert!(detected.contains("std::arch::is_riscv_feature_detected!(\"v\")"));
        assert!(!detected.contains(&format!("is_{}_feature_detected", arch)));
    }
}

#[test]
fn target_string_parses_back() {
    for spec in ["x86_64+avx2+fma", "x86/i686+xsave", "aarch64+neon", "riscv64+v", "x86_64"] {
        let target = Target::parse(spec).unwrap();
        let again = Target::parse(&target.target_string()).unwrap();
        assert_eq!(again.arch(), target.arch());
        assert_eq!(again.features(), target.features());
        assert!(again.same_target(&target));
    }
}

#[test]
fn parsed_features_are_sorted_and_closed() {
    for spec in ["x86_64+avx2+fma", "x86/i686+xsave", "aarch64+neon", "x86_64/x86-64-v2"] {
        let target = Target::parse(spec).unwrap();
        let features = target.features();
        for w in features.windows(2) {
            assert!(w[0] < w[1]);
        }
        // Each feature's implications are already in the list: adding them
        // again changes nothing.
        let mut again = String::from(target.arch());
        for f in features {
            again.push('+');
            again.push_str(f);
        }
        assert_eq!(Target::parse(&again).unwrap().features(), features);
    }
}
