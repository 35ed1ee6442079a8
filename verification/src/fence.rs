//! The safe code-fencing calculator: the number of backticks a fence needs so
//! that it can never collide with backtick runs inside the text it wraps.

use vstd::prelude::*;
use vstd::string::*;
use crate::text::spec_contains_sub;
use crate::text::contains_sub;

verus! {

/// Length of the run of backticks that `s` ends with.
pub open spec fn spec_trailing_run(s: Seq<char>) -> nat
    decreases s.len(),
{
    if s.len() == 0 {
        0
    } else if s.last() == '`' {
        spec_trailing_run(s.drop_last()) + 1
    } else {
        0
    }
}

/// Length of the longest contiguous run of backticks in `s`.
pub open spec fn spec_max_run(s: Seq<char>) -> nat
    decreases s.len(),
{
    if s.len() == 0 {
        0
    } else {
        let rest = spec_max_run(s.drop_last());
        let tr = spec_trailing_run(s);
        if tr > rest {
            tr
        } else {
            rest
        }
    }
}

/// The base minimum fence length: 4 when the text holds a three-backtick
/// substring or a backtick followed by a template-literal interpolation
/// opener, else 3.
pub open spec fn spec_base_minimum(s: Seq<char>) -> nat {
    if spec_contains_sub(s, seq!['`', '`', '`']) || spec_contains_sub(s, seq!['`', '$', '{']) {
        4
    } else {
        3
    }
}

/// The fence length chosen for a text: one more than its longest backtick
/// run, and never below the base minimum.
pub open spec fn spec_fence_length(s: Seq<char>) -> nat {
    if spec_max_run(s) + 1 > spec_base_minimum(s) {
        spec_max_run(s) + 1
    } else {
        spec_base_minimum(s)
    }
}

/// Scans a text once and returns the fence length that delimits it safely.
#[verifier::loop_isolation(false)]
pub fn calculate_fence_length(content: &str) -> (r: usize)
    requires
        content@.len() < usize::MAX,
    ensures
        r == spec_fence_length(content@),
        r >= 3,
        r > spec_max_run(content@),
{
    let n = content.unicode_len();
    let mut maxr: usize = 0;
    let mut cur: usize = 0;
    let mut i: usize = 0;
    while i < n
        invariant
            i <= n,
            cur <= i,
            maxr <= i,
            cur == spec_trailing_run(content@.take(i as int)),
            maxr == spec_max_run(content@.take(i as int)),
        decreases n - i,
    {
        let c = content.get_char(i);
        proof {
            assert(content@.take(i + 1).drop_last() =~= content@.take(i as int));
            assert(content@.take(i + 1).last() == content@[i as int]);
        }
        if c == '`' {
            cur = cur + 1;
            if cur > maxr {
                maxr = cur;
            }
        } else {
            cur = 0;
        }
        i = i + 1;
    }
    proof {
        assert(content@.take(n as int) =~= content@);
    }
    let has_triple = contains_sub(content, "```");
    let has_template = contains_sub(content, "`${");
    proof {
        reveal_strlit("```");
        reveal_strlit("`${");
        assert("```"@ =~= seq!['`', '`', '`']);
        assert("`${"@ =~= seq!['`', '$', '{']);
    }
    let base: usize = if has_triple || has_template {
        4
    } else {
        3
    };
    if maxr + 1 > base {
        maxr + 1
    } else {
        base
    }
}

/// Any run of `k` backticks in a text is strictly shorter than the longest
/// run the scanner accounts for.
proof fn lemma_run_le_max(s: Seq<char>, start: int, k: int)
    requires
        0 <= start,
        0 <= k,
        start + k <= s.len(),
        forall|j: int| start <= j < start + k ==> s[j] == '`',
    ensures
        spec_max_run(s) >= k,
    decreases s.len(),
{
    if k == 0 {
    } else if start + k == s.len() {
        lemma_trailing_covers(s, k);
    } else {
        assert(forall|j: int| start <= j < start + k ==> s.drop_last()[j] == s[j]);
        lemma_run_le_max(s.drop_last(), start, k);
    }
}

/// When the last `k` characters of `s` are backticks, the trailing run is at
/// least `k`.
proof fn lemma_trailing_covers(s: Seq<char>, k: int)
    requires
        0 <= k <= s.len(),
        forall|j: int| s.len() - k <= j < s.len() ==> s[j] == '`',
    ensures
        spec_trailing_run(s) >= k,
    decreases k,
{
    if k > 0 {
        assert(s.last() == '`');
        assert(forall|j: int|
            s.drop_last().len() - (k - 1) <= j < s.drop_last().len() ==> s.drop_last()[j] == s[j]);
        lemma_trailing_covers(s.drop_last(), k - 1);
    }
}

/// Fence safety: for any text holding a run of `k` consecutive backticks, the
/// chosen fence length is strictly greater than `k`.
pub proof fn lemma_fence_exceeds_any_run(s: Seq<char>, start: int, k: int)
    requires
        0 <= start,
        0 <= k,
        start + k <= s.len(),
        forall|j: int| start <= j < start + k ==> s[j] == '`',
    ensures
        spec_fence_length(s) > k,
{
    lemma_run_le_max(s, start, k);
}

/// Fence safety, base-minimum half: a text holding a three-backtick substring
/// or a backtick-dollar-brace marker gets a fence of at least 4; every fence
/// is at least 3.
pub proof fn lemma_fence_base_minimum(s: Seq<char>)
    ensures
        spec_contains_sub(s, seq!['`', '`', '`']) || spec_contains_sub(s, seq!['`', '$', '{'])
            ==> spec_fence_length(s) >= 4,
        spec_fence_length(s) >= 3,
{
}

} // verus!
