//! Verified text primitives the renderers and the classifier are built on:
//! equality, suffix and substring tests, lexicographic order, path joining,
//! and the one lowercase conversion taken on trust from std.

use vstd::prelude::*;
use vstd::string::*;

verus! {

/// Character-for-character equality of two strings.
#[verifier::loop_isolation(false)]
pub fn str_eq(a: &str, b: &str) -> (r: bool)
    ensures
        r == (a@ == b@),
{
    let alen = a.unicode_len();
    let blen = b.unicode_len();
    if alen != blen {
        return false;
    }
    let mut i: usize = 0;
    while i < alen
        invariant
            i <= alen,
            forall|j: int| 0 <= j < i ==> a@[j] == b@[j],
        decreases alen - i,
    {
        if a.get_char(i) != b.get_char(i) {
            return false;
        }
        i = i + 1;
    }
    proof {
        assert(a@ =~= b@);
    }
    true
}

pub open spec fn spec_ends_with(s: Seq<char>, suffix: Seq<char>) -> bool {
    suffix.len() <= s.len() && s.subrange(s.len() - suffix.len(), s.len() as int) == suffix
}

/// Whether `s` ends with `suffix`, character-wise.
#[verifier::loop_isolation(false)]
pub fn ends_with(s: &str, suffix: &str) -> (r: bool)
    ensures
        r == spec_ends_with(s@, suffix@),
{
    let slen = s.unicode_len();
    let xlen = suffix.unicode_len();
    if xlen > slen {
        return false;
    }
    let off = slen - xlen;
    let mut j: usize = 0;
    while j < xlen
        invariant
            j <= xlen,
            off == slen - xlen,
            forall|m: int| 0 <= m < j ==> s@[off + m] == suffix@[m],
        decreases xlen - j,
    {
        if s.get_char(off + j) != suffix.get_char(j) {
            proof {
                if spec_ends_with(s@, suffix@) {
                    assert(s@.subrange(off as int, slen as int)[j as int] == s@[off + j]);
                }
            }
            return false;
        }
        j = j + 1;
    }
    proof {
        assert(s@.subrange(off as int, slen as int) =~= suffix@);
    }
    true
}

pub open spec fn spec_contains_sub(s: Seq<char>, sub: Seq<char>) -> bool {
    exists|k: int| 0 <= k <= s.len() - sub.len() && #[trigger] s.subrange(k, k + sub.len()) == sub
}

/// Whether `s` matches `sub` at position `k`.
#[verifier::loop_isolation(false)]
fn matches_at(s: &str, sub: &str, k: usize) -> (r: bool)
    requires
        k + sub@.len() <= s@.len(),
    ensures
        r == (s@.subrange(k as int, k + sub@.len()) == sub@),
{
    let slen = s.unicode_len();
    let xlen = sub.unicode_len();
    let mut j: usize = 0;
    while j < xlen
        invariant
            j <= xlen,
            forall|m: int| 0 <= m < j ==> s@[k + m] == sub@[m],
        decreases xlen - j,
    {
        if s.get_char(k + j) != sub.get_char(j) {
            proof {
                if s@.subrange(k as int, k + sub@.len()) == sub@ {
                    assert(s@.subrange(k as int, k + sub@.len())[j as int] == s@[k + j]);
                }
            }
            return false;
        }
        j = j + 1;
    }
    proof {
        assert(s@.subrange(k as int, k + sub@.len()) =~= sub@);
    }
    true
}

/// Whether `sub` occurs as a contiguous substring of `s`.
#[verifier::loop_isolation(false)]
pub fn contains_sub(s: &str, sub: &str) -> (r: bool)
    ensures
        r == spec_contains_sub(s@, sub@),
{
    let slen = s.unicode_len();
    let xlen = sub.unicode_len();
    if xlen > slen {
        return false;
    }
    if xlen == 0 {
        proof {
            let k: int = 0;
            assert(s@.subrange(k, k + sub@.len()) =~= sub@);
            assert(spec_contains_sub(s@, sub@));
        }
        return true;
    }
    let limit = slen - xlen;
    let mut k: usize = 0;
    while k <= limit
        invariant
            0 < xlen <= slen,
            limit == slen - xlen,
            k <= limit + 1,
            forall|kk: int| 0 <= kk < k ==> #[trigger] s@.subrange(kk, kk + sub@.len()) != sub@,
        decreases limit - k + 1,
    {
        if matches_at(s, sub, k) {
            return true;
        }
        k = k + 1;
    }
    false
}

/// Lexicographic order on character sequences (by code point, which for
/// UTF-8 text coincides with byte order).
pub open spec fn lex_le(a: Seq<char>, b: Seq<char>) -> bool
    decreases a.len(),
{
    if a.len() == 0 {
        true
    } else if b.len() == 0 {
        false
    } else if (a[0] as u32) < (b[0] as u32) {
        true
    } else if (a[0] as u32) > (b[0] as u32) {
        false
    } else {
        lex_le(a.drop_first(), b.drop_first())
    }
}

/// Whether `a` sorts at or before `b` in lexicographic order.
#[verifier::loop_isolation(false)]
pub fn lex_le_str(a: &str, b: &str) -> (r: bool)
    ensures
        r == lex_le(a@, b@),
{
    let alen = a.unicode_len();
    let blen = b.unicode_len();
    proof {
        assert(a@.skip(0) =~= a@);
        assert(b@.skip(0) =~= b@);
    }
    let mut i: usize = 0;
    while i < alen && i < blen
        invariant
            i <= alen,
            i <= blen,
            lex_le(a@, b@) == lex_le(a@.skip(i as int), b@.skip(i as int)),
        decreases alen - i,
    {
        let ca = a.get_char(i) as u32;
        let cb = b.get_char(i) as u32;
        proof {
            assert(a@.skip(i as int)[0] == a@[i as int]);
            assert(b@.skip(i as int)[0] == b@[i as int]);
            assert(a@.skip(i as int).drop_first() =~= a@.skip(i + 1));
            assert(b@.skip(i as int).drop_first() =~= b@.skip(i + 1));
        }
        if ca < cb {
            return true;
        }
        if ca > cb {
            return false;
        }
        i = i + 1;
    }
    proof {
        assert(a@.skip(i as int).len() == alen - i);
        assert(b@.skip(i as int).len() == blen - i);
    }
    i >= alen
}

/// The lexicographic order is total: of any two strings, one sorts at or
/// before the other.
pub proof fn lemma_lex_le_total(a: Seq<char>, b: Seq<char>)
    ensures
        lex_le(a, b) || lex_le(b, a),
    decreases a.len(),
{
    if a.len() > 0 && b.len() > 0 && (a[0] as u32) == (b[0] as u32) {
        lemma_lex_le_total(a.drop_first(), b.drop_first());
    }
}

/// The lexicographic order is transitive.
pub proof fn lemma_lex_le_trans(a: Seq<char>, b: Seq<char>, c: Seq<char>)
    requires
        lex_le(a, b),
        lex_le(b, c),
    ensures
        lex_le(a, c),
    decreases a.len(),
{
    if a.len() > 0 {
        if (a[0] as u32) == (b[0] as u32) && (b[0] as u32) == (c[0] as u32) {
            lemma_lex_le_trans(a.drop_first(), b.drop_first(), c.drop_first());
        }
    }
}

/// The rendered form of a child path: parent, slash, basename.
pub open spec fn spec_join(dir: Seq<char>, name: Seq<char>) -> Seq<char> {
    dir + seq!['/'] + name
}

pub fn join_path(dir: &str, name: &str) -> (r: String)
    ensures
        r@ == spec_join(dir@, name@),
{
    let mut out = String::new();
    out.append(dir);
    out.append("/");
    out.append(name);
    proof {
        reveal_strlit("/");
        assert(out@ =~= spec_join(dir@, name@));
    }
    out
}

/// The lowercase form of a string, as std computes it.
pub uninterp spec fn lower_of(s: Seq<char>) -> Seq<char>;

/// Relies on str::to_lowercase: the result is a function of the input
/// characters alone (Unicode lowercase conversion).
#[verifier::external_body]
pub(crate) fn lowercase(s: &str) -> (r: String)
    ensures
        r@ == lower_of(s@),
{
    s.to_lowercase()
}

} // verus!
