//! The entry classifier: given one entry's path, basename and kind, decides
//! whether the walk renders it, marks it with an ellipsis, or omits it. Both
//! renderers apply it identically.

use vstd::prelude::*;
use vstd::string::*;
use ignore::gitignore::Gitignore;
use crate::ignorefile::{matcher_ignores, matcher_ignored};
use crate::policy::{Policy, has_name, spec_any_pattern, list_contains, any_pattern_matches};
use crate::text::str_eq;

verus! {

/// The three-way outcome: render and descend; show the name with a trailing
/// ellipsis and do not descend (directories only); or leave no trace.
#[derive(PartialEq, Eq, Structural, Clone, Copy, Debug)]
pub enum Classification {
    Included,
    ExcludedVisible,
    ExcludedHidden,
}

/// Everything a walk threads through unchanged: the policy, the optional
/// ignore matcher built at the scan root, and the output file's basename to
/// self-exclude (when output is file-based).
pub struct ScanContext {
    pub policy: Policy,
    pub matcher: Option<Gitignore>,
    pub output_name: Option<String>,
}

pub open spec fn spec_matcher_says_ignore(m: Option<Gitignore>, path: Seq<char>, is_dir: bool) -> bool {
    match m {
        Some(g) => matcher_ignores(g, path, is_dir),
        None => false,
    }
}

pub open spec fn spec_output_excluded(out: Option<String>, name: Seq<char>) -> bool {
    match out {
        Some(o) => o@ == name,
        None => false,
    }
}

/// The classification of one entry, rules in fixed priority order: the ignore
/// matcher first; then the dotfile rule, which never hides the ignore-file
/// itself; then excluded directory names; then excluded file patterns; then
/// the output file's self-exclusion; otherwise the entry is included.
pub open spec fn spec_classify(ctx: ScanContext, path: Seq<char>, name: Seq<char>, is_dir: bool) -> Classification {
    if spec_matcher_says_ignore(ctx.matcher, path, is_dir) {
        if is_dir {
            Classification::ExcludedVisible
        } else {
            Classification::ExcludedHidden
        }
    } else if name.len() > 0 && name[0] == '.' && name != ".gitignore"@ {
        Classification::ExcludedHidden
    } else if is_dir && has_name(ctx.policy.exclude_dirs@, name) {
        Classification::ExcludedVisible
    } else if !is_dir && spec_any_pattern(ctx.policy.exclude_files@, name) {
        Classification::ExcludedHidden
    } else if spec_output_excluded(ctx.output_name, name) {
        Classification::ExcludedHidden
    } else {
        Classification::Included
    }
}

/// Classifies one entry.
pub fn classify(ctx: &ScanContext, path: &str, name: &str, is_dir: bool) -> (r: Classification)
    ensures
        r == spec_classify(*ctx, path@, name@, is_dir),
{
    let ignored = match &ctx.matcher {
        Some(g) => matcher_ignored(g, path, is_dir),
        None => false,
    };
    if ignored {
        if is_dir {
            return Classification::ExcludedVisible;
        } else {
            return Classification::ExcludedHidden;
        }
    }
    let nlen = name.unicode_len();
    if nlen > 0 && name.get_char(0) == '.' && !str_eq(name, ".gitignore") {
        return Classification::ExcludedHidden;
    }
    if is_dir && list_contains(&ctx.policy.exclude_dirs, name) {
        return Classification::ExcludedVisible;
    }
    if !is_dir && any_pattern_matches(&ctx.policy.exclude_files, name) {
        return Classification::ExcludedHidden;
    }
    let self_excluded = match &ctx.output_name {
        Some(o) => str_eq(o.as_str(), name),
        None => false,
    };
    if self_excluded {
        return Classification::ExcludedHidden;
    }
    Classification::Included
}

/// Self-exclusion: a file bearing the output document's own basename is
/// classified as hidden whatever the matcher, the policy and the other rules
/// say of it, so a rerun pointed at its own earlier output never picks the
/// output file up.
pub proof fn lemma_output_file_hidden(ctx: ScanContext, path: Seq<char>, name: Seq<char>)
    requires
        spec_output_excluded(ctx.output_name, name),
    ensures
        spec_classify(ctx, path, name, false) == Classification::ExcludedHidden,
{
}

/// Dotfile rule: a dot-named file other than the ignore-file's own name is
/// hidden, whatever the matcher, the policy and the output name say.
pub proof fn lemma_dotfile_hidden(ctx: ScanContext, path: Seq<char>, name: Seq<char>)
    requires
        name.len() > 0,
        name[0] == '.',
        name != ".gitignore"@,
    ensures
        spec_classify(ctx, path, name, false) == Classification::ExcludedHidden,
{
}

/// Dotfile rule for directories: a dot-named directory other than the
/// ignore-file's name is hidden as long as the matcher itself does not report
/// it ignored (a matcher-ignored directory is shown with an ellipsis
/// instead, since the matcher outranks the dotfile rule).
pub proof fn lemma_dot_dir_hidden(ctx: ScanContext, path: Seq<char>, name: Seq<char>)
    requires
        name.len() > 0,
        name[0] == '.',
        name != ".gitignore"@,
        !spec_matcher_says_ignore(ctx.matcher, path, true),
    ensures
        spec_classify(ctx, path, name, true) == Classification::ExcludedHidden,
{
}

/// Dotfile exception: the ignore-file's own name is never hidden by the
/// dotfile rule even though it starts with a dot. When no other rule claims
/// it — no matcher verdict, no matching exclusion pattern, no output-name
/// collision — it is included.
pub proof fn lemma_ignore_file_survives_dotfile_rule(ctx: ScanContext, path: Seq<char>)
    requires
        !spec_matcher_says_ignore(ctx.matcher, path, false),
        !spec_any_pattern(ctx.policy.exclude_files@, ".gitignore"@),
        !spec_output_excluded(ctx.output_name, ".gitignore"@),
    ensures
        spec_classify(ctx, path, ".gitignore"@, false) == Classification::Included,
{
}

/// The basename both renderers must leave out of the document: the configured
/// output file's own, or the default output name when no output file was
/// named and the document goes to a file rather than to the console.
pub open spec fn spec_output_exclusion(output_basename: Option<String>, print_to_console: bool) -> Option<Seq<char>> {
    match output_basename {
        Some(b) => Some(b@),
        None => if print_to_console {
            None
        } else {
            Some("tree.md"@)
        },
    }
}

pub fn output_exclusion_name(output_basename: Option<String>, print_to_console: bool) -> (r: Option<String>)
    ensures
        match r {
            Some(s) => spec_output_exclusion(output_basename, print_to_console) == Some(s@),
            None => spec_output_exclusion(output_basename, print_to_console) is None,
        },
{
    match output_basename {
        Some(b) => Some(b),
        None => if print_to_console {
            None
        } else {
            Some(String::from_str("tree.md"))
        },
    }
}

} // verus!
