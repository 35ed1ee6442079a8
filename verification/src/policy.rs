//! The exclusion policy: the static rule set that decides which entries are
//! hidden from the tree and which file contents are left out of the document.

use vstd::prelude::*;
use vstd::string::*;
use crate::text::{
    str_eq, ends_with, contains_sub, lowercase, lower_of, spec_ends_with, spec_contains_sub,
};

verus! {

/// The immutable rule set, loaded once before any rendering begins.
///
/// `extension_mapping` is an association list from lowercased extension to the
/// language tag used as the fence's info string; the first pair whose key
/// matches wins (keys coming from a configuration map are unique anyway).
pub struct Policy {
    pub exclude_dirs: Vec<String>,
    pub exclude_files: Vec<String>,
    pub exclude_extensions: Vec<String>,
    pub max_file_size: Option<u64>,
    pub extension_mapping: Vec<(String, String)>,
}

impl Policy {
    /// The all-empty policy: the fallback when no configuration payload is
    /// available or it cannot be parsed. Nothing is excluded by policy; only
    /// the ignore matcher, the dotfile rule and the output self-exclusion
    /// still apply.
    pub fn empty() -> (r: Policy)
        ensures
            r.exclude_dirs@ =~= Seq::<String>::empty(),
            r.exclude_files@ =~= Seq::<String>::empty(),
            r.exclude_extensions@ =~= Seq::<String>::empty(),
            r.max_file_size is None,
            r.extension_mapping@ =~= Seq::<(String, String)>::empty(),
    {
        Policy {
            exclude_dirs: Vec::new(),
            exclude_files: Vec::new(),
            exclude_extensions: Vec::new(),
            max_file_size: None,
            extension_mapping: Vec::new(),
        }
    }
}

/// Whether a list of strings holds `name`.
pub open spec fn has_name(list: Seq<String>, name: Seq<char>) -> bool {
    exists|i: int| 0 <= i < list.len() && #[trigger] list[i]@ == name
}

#[verifier::loop_isolation(false)]
pub fn list_contains(list: &Vec<String>, name: &str) -> (r: bool)
    ensures
        r == has_name(list@, name@),
{
    let mut i: usize = 0;
    while i < list.len()
        invariant
            i <= list@.len(),
            forall|j: int| 0 <= j < i ==> #[trigger] list@[j]@ != name@,
        decreases list@.len() - i,
    {
        if str_eq(list[i].as_str(), name) {
            return true;
        }
        i = i + 1;
    }
    false
}

/// The position of the last dot in a name, or -1 when there is none.
pub open spec fn spec_last_dot(s: Seq<char>) -> int
    decreases s.len(),
{
    if s.len() == 0 {
        -1
    } else if s.last() == '.' {
        s.len() - 1
    } else {
        spec_last_dot(s.drop_last())
    }
}

/// The extension of a basename: what follows the last dot, except that a name
/// whose only dot is its first character (a plain dotfile) has none.
pub open spec fn spec_extension_of(s: Seq<char>) -> Option<Seq<char>> {
    let i = spec_last_dot(s);
    if i <= 0 {
        None
    } else {
        Some(s.skip(i + 1))
    }
}

/// Finds the extension of a basename, as `spec_extension_of` describes it.
#[verifier::loop_isolation(false)]
pub fn extension_of(name: &str) -> (r: Option<&str>)
    ensures
        match r {
            Some(e) => spec_extension_of(name@) == Some(e@),
            None => spec_extension_of(name@) is None,
        },
{
    let n = name.unicode_len();
    let mut i: usize = n;
    proof {
        assert(name@.take(n as int) =~= name@);
    }
    while i > 0
        invariant
            i <= n,
            spec_last_dot(name@) == spec_last_dot(name@.take(i as int)),
        decreases i,
    {
        let c = name.get_char(i - 1);
        proof {
            assert(name@.take(i as int).last() == name@[i - 1]);
            assert(name@.take(i as int).drop_last() =~= name@.take(i - 1));
        }
        if c == '.' {
            if i - 1 == 0 {
                return None;
            }
            let ext = name.substring_char(i, n);
            proof {
                assert(ext@ =~= name@.skip(i as int));
            }
            return Some(ext);
        }
        i = i - 1;
    }
    None
}

/// The language tag for a basename: the mapping's entry for the lowercased
/// extension, or the default tag when the extension is absent or unmapped.
pub open spec fn spec_lookup(pairs: Seq<(String, String)>, key: Seq<char>) -> Option<Seq<char>>
    decreases pairs.len(),
{
    if pairs.len() == 0 {
        None
    } else if pairs[0].0@ == key {
        Some(pairs[0].1@)
    } else {
        spec_lookup(pairs.drop_first(), key)
    }
}

pub open spec fn spec_language_of(name: Seq<char>, policy: Policy) -> Seq<char> {
    match spec_extension_of(name) {
        None => "text"@,
        Some(e) => match spec_lookup(policy.extension_mapping@, lower_of(e)) {
            Some(lang) => lang,
            None => "text"@,
        },
    }
}

/// Maps a file's basename to the language tag its fenced block is opened
/// with.
#[verifier::loop_isolation(false)]
pub fn get_file_extension(name: &str, policy: &Policy) -> (r: String)
    ensures
        r@ == spec_language_of(name@, *policy),
{
    match extension_of(name) {
        None => String::from_str("text"),
        Some(ext) => {
            let key = lowercase(ext);
            let pairs = &policy.extension_mapping;
            proof {
                assert(pairs@.skip(0) =~= pairs@);
            }
            let mut i: usize = 0;
            while i < pairs.len()
                invariant
                    i <= pairs@.len(),
                    spec_lookup(pairs@, key@) == spec_lookup(pairs@.skip(i as int), key@),
                decreases pairs@.len() - i,
            {
                proof {
                    assert(pairs@.skip(i as int)[0] == pairs@[i as int]);
                    assert(pairs@.skip(i as int).drop_first() =~= pairs@.skip(i + 1));
                }
                if str_eq(pairs[i].0.as_str(), key.as_str()) {
                    return pairs[i].1.clone();
                }
                i = i + 1;
            }
            String::from_str("text")
        },
    }
}

/// Whether the policy treats a file as binary or otherwise unreadable: its
/// lowercased extension stands in the extension blacklist. Content-only: such
/// a file still appears in the tree.
pub open spec fn spec_is_binary(name: Seq<char>, policy: Policy) -> bool {
    match spec_extension_of(name) {
        None => false,
        Some(e) => has_name(policy.exclude_extensions@, lower_of(e)),
    }
}

pub fn is_binary_file(name: &str, policy: &Policy) -> (r: bool)
    ensures
        r == spec_is_binary(name@, *policy),
{
    match extension_of(name) {
        None => false,
        Some(ext) => {
            let key = lowercase(ext);
            list_contains(&policy.exclude_extensions, key.as_str())
        },
    }
}

/// Whether a file's byte size exceeds the configured ceiling. Content-only as
/// well.
pub open spec fn spec_too_large(size: u64, policy: Policy) -> bool {
    match policy.max_file_size {
        Some(m) => size > m,
        None => false,
    }
}

pub fn is_file_too_large(size: u64, policy: &Policy) -> (r: bool)
    ensures
        r == spec_too_large(size, *policy),
{
    match policy.max_file_size {
        Some(m) => size > m,
        None => false,
    }
}

/// Whether one exclusion pattern matches a file basename: a `*.` pattern
/// matches by suffix or by dotted containment, any other pattern by exact
/// name.
pub open spec fn spec_pattern_matches(pat: Seq<char>, name: Seq<char>) -> bool {
    if pat.len() >= 2 && pat[0] == '*' && pat[1] == '.' {
        spec_ends_with(name, pat.skip(2)) || spec_contains_sub(name, seq!['.'] + pat.skip(2))
    } else {
        name == pat
    }
}

pub open spec fn spec_any_pattern(pats: Seq<String>, name: Seq<char>) -> bool {
    exists|i: int| 0 <= i < pats.len() && spec_pattern_matches(#[trigger] pats[i]@, name)
}

fn pattern_matches(pat: &str, name: &str) -> (r: bool)
    ensures
        r == spec_pattern_matches(pat@, name@),
{
    let plen = pat.unicode_len();
    if plen >= 2 && pat.get_char(0) == '*' && pat.get_char(1) == '.' {
        let ext = pat.substring_char(2, plen);
        proof {
            assert(ext@ =~= pat@.skip(2));
        }
        if ends_with(name, ext) {
            return true;
        }
        let mut dotted = String::new();
        dotted.append(".");
        dotted.append(ext);
        proof {
            reveal_strlit(".");
            assert(dotted@ =~= seq!['.'] + pat@.skip(2));
        }
        contains_sub(name, dotted.as_str())
    } else {
        str_eq(name, pat)
    }
}

#[verifier::loop_isolation(false)]
pub fn any_pattern_matches(pats: &Vec<String>, name: &str) -> (r: bool)
    ensures
        r == spec_any_pattern(pats@, name@),
{
    let mut i: usize = 0;
    while i < pats.len()
        invariant
            i <= pats@.len(),
            forall|j: int| 0 <= j < i ==> !spec_pattern_matches(#[trigger] pats@[j]@, name@),
        decreases pats@.len() - i,
    {
        if pattern_matches(pats[i].as_str(), name) {
            return true;
        }
        i = i + 1;
    }
    false
}

} // verus!
