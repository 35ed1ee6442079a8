use proj2tree::policy::{
    Policy, get_file_extension, is_binary_file, is_file_too_large, any_pattern_matches,
};

fn policy_with(
    dirs: &[&str],
    files: &[&str],
    exts: &[&str],
    max: Option<u64>,
    mapping: &[(&str, &str)],
) -> Policy {
    let mut p = Policy::empty();
    p.exclude_dirs = dirs.iter().map(|s| s.to_string()).collect();
    p.exclude_files = files.iter().map(|s| s.to_string()).collect();
    p.exclude_extensions = exts.iter().map(|s| s.to_string()).collect();
    p.max_file_size = max;
    p.extension_mapping = mapping.iter().map(|(k, v)| (k.to_string(), v.to_string())).collect();
    p
}

#[test]
fn language_tag_defaults_to_text() {
    let p = Policy::empty();
    assert_eq!(get_file_extension("a.txt", &p), "text");
    assert_eq!(get_file_extension("README", &p), "text");
    assert_eq!(get_file_extension(".gitignore", &p), "text");
}

#[test]
fn language_tag_from_mapping() {
    let p = policy_with(&[], &[], &[], None, &[("rs", "rust"), ("py", "python")]);
    assert_eq!(get_file_extension("main.rs", &p), "rust");
    assert_eq!(get_file_extension("tool.py", &p), "python");
    assert_eq!(get_file_extension("notes.org", &p), "text");
}

#[test]
fn language_tag_lowercases_extension() {
    let p = policy_with(&[], &[], &[], None, &[("rs", "rust")]);
    assert_eq!(get_file_extension("MAIN.RS", &p), "rust");
}

#[test]
fn binary_file_by_extension() {
    let p = policy_with(&[], &[], &["png", "bin"], None, &[]);
    assert!(is_binary_file("logo.png", &p));
    assert!(is_binary_file("LOGO.PNG", &p));
    assert!(!is_binary_file("a.txt", &p));
    assert!(!is_binary_file("noext", &p));
    assert!(!is_binary_file(".png", &p));
}

#[test]
fn too_large_only_with_ceiling() {
    let p = policy_with(&[], &[], &[], Some(10), &[]);
    assert!(is_file_too_large(11, &p));
    assert!(!is_file_too_large(10, &p));
    let q = Policy::empty();
    assert!(!is_file_too_large(u64::MAX, &q));
}

#[test]
fn file_patterns_match_by_suffix_and_containment() {
    let pats: Vec<String> = vec!["*.log".to_string(), "Makefile".to_string()];
    assert!(any_pattern_matches(&pats, "app.log"));
    assert!(any_pattern_matches(&pats, "app.log.bak"));
    assert!(any_pattern_matches(&pats, "catalog"));
    assert!(any_pattern_matches(&pats, "Makefile"));
    assert!(!any_pattern_matches(&pats, "makefile"));
    assert!(!any_pattern_matches(&pats, "app.rs"));
}
