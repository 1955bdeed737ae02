use multiversion::implied::{
    disable_flags, entry_line, feature_flags, feature_from_line, get_implied_features, implied_by_table, implied_entry,
    lines, parse_cfg_features, parse_entry_line, triple,
};

fn strings(v: &[&str]) -> Vec<String> {
    v.iter().map(|s| s.to_string()).collect()
}

#[test]
fn triples() {
    assert_eq!(triple("x86"), "x86_64-unknown-linux-gnu");
    assert_eq!(triple("x86_64"), "x86_64-unknown-linux-gnu");
    assert_eq!(triple("arm"), "arm-unknown-linux-gnueabi");
    assert_eq!(triple("mips64"), "mips64-unknown-linux-gnuabi64");
    assert_eq!(triple("riscv64"), "riscv64gc-unknown-linux-gnu");
}

#[test]
fn lines_like_str_lines() {
    for text in ["a\nb\r\nc", "a\n", "", "\n\n", "x\r\n", "one"] {
        let expected: Vec<String> = text.lines().map(|l| l.to_string()).collect();
        assert_eq!(lines(text), expected);
    }
}

#[test]
fn cfg_output_features() {
    assert_eq!(feature_from_line("target_feature=\"avx\""), Some("avx".to_string()));
    assert_eq!(feature_from_line("target_arch=\"x86_64\""), None);
    assert_eq!(feature_from_line("target_feature=\"avx"), None);
    assert_eq!(feature_from_line("target_feature=\""), None);
    let output = "debug_assertions\ntarget_arch=\"x86_64\"\ntarget_feature=\"fxsr\"\r\ntarget_feature=\"llvm14-builtins-abi\"\ntarget_feature=\"sse\"\nunix\n";
    assert_eq!(parse_cfg_features(output), strings(&["fxsr", "sse"]));
}

#[test]
fn compiler_flags() {
    let disable = disable_flags(&strings(&["fxsr", "sse", "sse2"]));
    assert_eq!(disable, "-fxsr,-sse,-sse2");
    assert_eq!(disable_flags(&[]), "");
    assert_eq!(feature_flags(&disable, "avx", "x86_64"), "-fxsr,-sse,-sse2,+avx");
    assert_eq!(feature_flags("-fpxx", "msa", "mips64"), "-fpxx,+msa,+fp64");
}

#[test]
fn entries_keep_possible_features_sorted() {
    let possible = strings(&["sse", "sse2", "avx", "fma"]);
    let reported = strings(&["avx", "sse2", "sse", "fxsr", "avx"]);
    let (name, implied) = implied_entry("avx", &reported, &possible).unwrap();
    assert_eq!(name, "avx");
    assert_eq!(implied, strings(&["avx", "sse", "sse2"]));
    assert_eq!(implied_entry("fma", &strings(&["fma", "fxsr"]), &possible), None);
}

#[test]
fn implied_table() {
    let possible = strings(&["sse2", "avx", "sse", "fma"]);
    let reported = vec![
        strings(&["sse2", "sse"]),
        strings(&["sse2", "avx", "sse"]),
        strings(&["sse"]),
        strings(&["fma", "avx", "sse", "sse2"]),
    ];
    let table = get_implied_features(&possible, &reported);
    let names: Vec<&str> = table.iter().map(|(n, _)| n.as_str()).collect();
    assert_eq!(names, vec!["avx", "fma", "sse2"]);
    assert_eq!(table[0].1, strings(&["avx", "sse", "sse2"]));
    assert_eq!(table[1].1, strings(&["avx", "fma", "sse", "sse2"]));
    assert_eq!(table[2].1, strings(&["sse", "sse2"]));
    let line = entry_line("x86", &table[0].0, &table[0].1);
    assert_eq!(line, "x86 avx: avx sse sse2");
}

#[test]
fn table_lines_read_back() {
    let implied = strings(&["avx", "sse", "sse2"]);
    let line = entry_line("x86_64", "avx", &implied);
    assert_eq!(parse_entry_line(&line), Some(("x86_64".to_string(), "avx".to_string(), implied)));
    assert_eq!(parse_entry_line("x86 avx"), None);
    assert_eq!(parse_entry_line("x86"), None);
    assert_eq!(parse_entry_line("x86 avx: "), Some(("x86".to_string(), "avx".to_string(), strings(&[""]))));
}

#[test]
fn table_lookup() {
    let table = "x86 avx: avx sse\nx86 avx2: avx avx2 sse\nx86 avx: never\n";
    assert_eq!(implied_by_table(table, "x86", "avx"), Some(strings(&["avx", "sse"])));
    assert_eq!(implied_by_table(table, "x86", "avx2"), Some(strings(&["avx", "avx2", "sse"])));
    assert_eq!(implied_by_table(table, "arm", "avx"), Some(strings(&["avx"])));
    assert_eq!(implied_by_table(table, "x86", "fma"), Some(strings(&["fma"])));
    assert_eq!(implied_by_table("x86 avx: avx\nbroken\n", "x86", "avx"), None);
    assert_eq!(implied_by_table("", "x86", "avx"), Some(strings(&["avx"])));
}
