use clang_shim::resolver::accept_probe;
use clang_shim::resolver::base_name;
use clang_shim::resolver::candidates;
use clang_shim::resolver::default_major_versions;
use clang_shim::resolver::find_bin;
use clang_shim::resolver::has_path_separator;
use clang_shim::resolver::logical_name;
use clang_shim::resolver::parse_version;
use clang_shim::resolver::resolution_failure_message;
use clang_shim::resolver::trim_spaces;
use clang_shim::resolver::version_has_major;
use clang_shim::resolver::Candidate;
use clang_shim::strings::u32_to_string;

fn invocations(cands: &[Candidate]) -> Vec<(String, u32)> {
    cands.iter().map(|c| (c.invocation.clone(), c.major)).collect()
}

fn pairs(v: &[(&str, u32)]) -> Vec<(String, u32)> {
    v.iter().map(|(s, m)| (s.to_string(), *m)).collect()
}

#[test]
fn parse_version_reads_the_token_after_the_marker() {
    assert_eq!(
        parse_version("clang version 15.0.7 (Fedora 15.0.7-2.fc37)"),
        Some("15.0.7".to_string())
    );
    assert_eq!(
        parse_version("Ubuntu clang version 14.0.0-1ubuntu1\nTarget: x86_64"),
        Some("14.0.0-1ubuntu1".to_string())
    );
    assert_eq!(parse_version("version 16.0.6"), Some("16.0.6".to_string()));
}

#[test]
fn parse_version_finds_the_marker_anywhere() {
    // substring occurrences count, as a plain pattern scan would find them
    assert_eq!(parse_version("subversion 1.2.3"), Some("1.2.3".to_string()));
}

#[test]
fn parse_version_token_ends_at_whitespace() {
    assert_eq!(parse_version("clang version 15.0.7\n"), Some("15.0.7".to_string()));
    assert_eq!(parse_version("clang version 15.0.7\tx"), Some("15.0.7".to_string()));
}

#[test]
fn parse_version_needs_a_token_after_the_marker() {
    assert_eq!(parse_version("no marker here"), None);
    assert_eq!(parse_version(""), None);
    assert_eq!(parse_version("version "), None);
    assert_eq!(parse_version("version  16"), None);
}

#[test]
fn version_match_accepts_exact_major() {
    assert!(version_has_major("16.0.0", 16));
    assert!(version_has_major("15.0.7", 15));
    assert!(version_has_major("14.0.0-1ubuntu1", 14));
}

#[test]
fn version_match_is_dot_bounded() {
    // a longer reported major must not match a shorter accepted one
    assert!(!version_has_major("160.0.0", 16));
    assert!(!version_has_major("1.0.0", 16));
    assert!(!version_has_major("16", 16));
    assert!(!version_has_major("15.0.7", 16));
}

#[test]
fn candidates_without_prefix_hint() {
    let cands = candidates("clang", &vec![16, 15], &None);
    assert_eq!(
        invocations(&cands),
        pairs(&[("clang", 16), ("clang-16", 16), ("clang", 15), ("clang-15", 15)])
    );
}

#[test]
fn candidates_with_prefix_hint_keep_the_fixed_order() {
    let cands = candidates("clang", &vec![16], &Some("/opt/homebrew".to_string()));
    assert_eq!(
        invocations(&cands),
        pairs(&[
            ("/opt/homebrew/opt/llvm/bin/clang", 16),
            ("/opt/homebrew/opt/llvm@16/bin/clang", 16),
            ("clang", 16),
            ("clang-16", 16),
        ])
    );
}

#[test]
fn earlier_candidate_wins_when_both_match() {
    // both the package-manager path and the bare name report version 16
    let cands = candidates("clang", &vec![16], &Some("/opt/homebrew".to_string()));
    let report = Some("clang version 16.0.4".to_string());
    let outcomes = vec![report.clone(), report.clone(), report.clone(), report];
    assert_eq!(find_bin(&cands, &outcomes), Some(0));
}

#[test]
fn search_selects_lower_priority_version_when_higher_is_absent() {
    // the binary on the search path reports 15.0.7 while 16 is preferred
    let cands = candidates("clang", &default_major_versions(), &None);
    let report = Some("clang version 15.0.7".to_string());
    let outcomes = vec![report.clone(), None, report.clone(), None, report, None];
    let chosen = find_bin(&cands, &outcomes);
    assert_eq!(chosen, Some(2));
    let c = &cands[chosen.unwrap()];
    assert_eq!(c.invocation, "clang");
    assert_eq!(c.major, 15);
}

#[test]
fn search_fails_when_nothing_matches() {
    let majors = default_major_versions();
    let name = logical_name("cc", "cc");
    assert_eq!(name, "clang");
    let cands = candidates(&name, &majors, &None);
    let outcomes = vec![None; cands.len()];
    assert_eq!(find_bin(&cands, &outcomes), None);
    let msg = resolution_failure_message(&name, &majors);
    assert_eq!(
        msg,
        "Cannot find clang with major versions: [16, 15, 14], \
         make sure you have LLVM properly installed!"
    );
    assert!(msg.contains("clang"));
}

#[test]
fn accept_probe_needs_a_matching_report() {
    assert!(accept_probe(&Some("clang version 16.0.0".to_string()), 16));
    assert!(!accept_probe(&Some("clang version 16.0.0".to_string()), 15));
    assert!(!accept_probe(&Some("no version marker".to_string()), 16));
    assert!(!accept_probe(&None, 16));
}

#[test]
fn default_versions_in_priority_order() {
    assert_eq!(default_major_versions(), vec![16, 15, 14]);
}

#[test]
fn failure_message_with_one_version() {
    assert_eq!(
        resolution_failure_message("clang++", &vec![16]),
        "Cannot find clang++ with major versions: [16], \
         make sure you have LLVM properly installed!"
    );
}

#[test]
fn logical_name_aliases_only_the_shim_name() {
    assert_eq!(logical_name("cc", "cc"), "clang");
    assert_eq!(logical_name("c++", "cc"), "c++");
    assert_eq!(logical_name("clang++", "cc"), "clang++");
}

#[test]
fn base_name_takes_the_last_component() {
    assert_eq!(base_name("/usr/bin/cc"), "cc");
    assert_eq!(base_name("cc"), "cc");
    assert_eq!(base_name("./clang++"), "clang++");
    assert_eq!(base_name("a\\b"), "b");
    assert_eq!(base_name(""), "");
}

#[test]
fn path_separator_decides_the_lookup_strategy() {
    assert!(has_path_separator("/usr/bin/clang"));
    assert!(has_path_separator("a\\b"));
    assert!(!has_path_separator("clang-16"));
}

#[test]
fn trim_strips_surrounding_whitespace() {
    assert_eq!(trim_spaces("/opt/homebrew\n"), "/opt/homebrew");
    assert_eq!(trim_spaces("  /usr/local \t\n"), "/usr/local");
    assert_eq!(trim_spaces(""), "");
    assert_eq!(trim_spaces("   "), "");
    assert_eq!(trim_spaces("a b"), "a b");
}

#[test]
fn decimal_rendering_is_exact() {
    assert_eq!(u32_to_string(0), "0");
    assert_eq!(u32_to_string(16), "16");
    assert_eq!(u32_to_string(160), "160");
    assert_eq!(u32_to_string(4294967295), "4294967295");
}
