use ignore::gitignore::GitignoreBuilder;
use proj2tree::classify::{
    Classification, ScanContext, classify, output_exclusion_name,
};
use proj2tree::policy::Policy;

fn ctx_plain() -> ScanContext {
    ScanContext { policy: Policy::empty(), matcher: None, output_name: None }
}

#[test]
fn dotfiles_are_hidden() {
    let ctx = ctx_plain();
    assert_eq!(classify(&ctx, "proj/.env", ".env", false), Classification::ExcludedHidden);
    assert_eq!(classify(&ctx, "proj/.git", ".git", true), Classification::ExcludedHidden);
}

#[test]
fn ignore_file_itself_is_kept() {
    let ctx = ctx_plain();
    assert_eq!(classify(&ctx, "proj/.gitignore", ".gitignore", false), Classification::Included);
}

#[test]
fn excluded_directory_is_visible() {
    let mut ctx = ctx_plain();
    ctx.policy.exclude_dirs = vec!["node_modules".to_string()];
    assert_eq!(
        classify(&ctx, "proj/node_modules", "node_modules", true),
        Classification::ExcludedVisible
    );
    // the same name as a file is not an excluded directory
    assert_eq!(classify(&ctx, "proj/node_modules", "node_modules", false), Classification::Included);
}

#[test]
fn excluded_file_pattern_hides() {
    let mut ctx = ctx_plain();
    ctx.policy.exclude_files = vec!["*.lock".to_string()];
    assert_eq!(classify(&ctx, "proj/Cargo.lock", "Cargo.lock", false), Classification::ExcludedHidden);
}

#[test]
fn output_file_excludes_itself() {
    let mut ctx = ctx_plain();
    ctx.output_name = Some("tree.md".to_string());
    assert_eq!(classify(&ctx, "proj/tree.md", "tree.md", false), Classification::ExcludedHidden);
    assert_eq!(classify(&ctx, "proj/tree.txt", "tree.txt", false), Classification::Included);
}

#[test]
fn matcher_verdict_comes_first() {
    let mut builder = GitignoreBuilder::new("proj");
    builder.add_line(None, "*.secret").unwrap();
    builder.add_line(None, "target/").unwrap();
    let matcher = builder.build().unwrap();
    let mut ctx = ctx_plain();
    ctx.matcher = Some(matcher);
    assert_eq!(classify(&ctx, "proj/a.secret", "a.secret", false), Classification::ExcludedHidden);
    assert_eq!(classify(&ctx, "proj/target", "target", true), Classification::ExcludedVisible);
    assert_eq!(classify(&ctx, "proj/a.txt", "a.txt", false), Classification::Included);
}

#[test]
fn output_exclusion_name_choices() {
    let given = output_exclusion_name(Some("out.md".to_string()), false);
    assert_eq!(given, Some("out.md".to_string()));
    let default_file = output_exclusion_name(None, false);
    assert_eq!(default_file, Some("tree.md".to_string()));
    let console = output_exclusion_name(None, true);
    assert_eq!(console, None);
}
