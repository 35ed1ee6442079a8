//! The in-memory model of a directory tree: what the renderers walk.
//!
//! A `Node` is either a file (with its basename, byte size and, when it could
//! be read as text, its content) or a directory with child nodes. Building a
//! model from a real filesystem is I/O and happens outside the library; every
//! decision taken on the model is verified here.

use vstd::prelude::*;
use crate::text::{lex_le, lex_le_str, lemma_lex_le_total, lemma_lex_le_trans};

verus! {

pub enum Node {
    File { name: String, size: u64, content: Option<String> },
    Dir { name: String, children: Vec<Node> },
}

/// The basename of an entry.
pub open spec fn spec_name(n: Node) -> Seq<char> {
    match n {
        Node::File { name, .. } => name@,
        Node::Dir { name, .. } => name@,
    }
}

pub open spec fn spec_is_dir(n: Node) -> bool {
    n is Dir
}

/// The children of a directory; a file has none.
pub open spec fn spec_children(n: Node) -> Seq<Node> {
    match n {
        Node::File { .. } => Seq::empty(),
        Node::Dir { children, .. } => children@,
    }
}

/// Machine-limit well-formedness: every readable file content has fewer
/// characters than `usize::MAX`, so a fence one longer than its longest
/// backtick run can always be counted in a `usize`.
pub open spec fn node_wf(n: Node) -> bool
    decreases n,
{
    match n {
        Node::File { content, .. } => match content {
            Some(c) => c@.len() < usize::MAX,
            None => true,
        },
        Node::Dir { children, .. } => forall|i: int|
            0 <= i < children@.len() ==> node_wf(#[trigger] children@[i]),
    }
}

impl Node {
    pub fn name(&self) -> (r: &String)
        ensures
            r@ == spec_name(*self),
    {
        match self {
            Node::File { name, .. } => name,
            Node::Dir { name, .. } => name,
        }
    }

    pub fn is_dir(&self) -> (r: bool)
        ensures
            r == spec_is_dir(*self),
    {
        match self {
            Node::File { .. } => false,
            Node::Dir { .. } => true,
        }
    }
}

/// Stable insertion of a node into a name-sorted sequence: the node goes
/// after every earlier node whose name sorts at or before its own.
pub open spec fn insert_sorted(s: Seq<Node>, x: Node) -> Seq<Node>
    decreases s.len(),
{
    if s.len() == 0 {
        seq![x]
    } else if lex_le(spec_name(s[0]), spec_name(x)) {
        seq![s[0]] + insert_sorted(s.drop_first(), x)
    } else {
        seq![x] + s
    }
}

/// The canonical name-sorted ordering of a directory listing: stable
/// insertion sort by basename. This single total ordering is what makes the
/// rendered document a function of the tree alone.
pub open spec fn sort_by_name(s: Seq<Node>) -> Seq<Node>
    decreases s.len(),
{
    if s.len() == 0 {
        Seq::empty()
    } else {
        insert_sorted(sort_by_name(s.drop_last()), s.last())
    }
}

pub proof fn lemma_insert_sorted_len(s: Seq<Node>, x: Node)
    ensures
        insert_sorted(s, x).len() == s.len() + 1,
    decreases s.len(),
{
    if s.len() > 0 && lex_le(spec_name(s[0]), spec_name(x)) {
        lemma_insert_sorted_len(s.drop_first(), x);
    }
}

pub proof fn lemma_sort_by_name_len(s: Seq<Node>)
    ensures
        sort_by_name(s).len() == s.len(),
    decreases s.len(),
{
    if s.len() > 0 {
        lemma_sort_by_name_len(s.drop_last());
        lemma_insert_sorted_len(sort_by_name(s.drop_last()), s.last());
    }
}

/// Where the insertion lands: at the first position whose node's name does
/// not sort at or before the inserted node's name.
proof fn lemma_insert_sorted_at(s: Seq<Node>, x: Node, j: int)
    requires
        0 <= j <= s.len(),
        forall|m: int| 0 <= m < j ==> lex_le(spec_name(#[trigger] s[m]), spec_name(x)),
        j < s.len() ==> !lex_le(spec_name(s[j]), spec_name(x)),
    ensures
        insert_sorted(s, x) == s.take(j) + seq![x] + s.skip(j),
    decreases j,
{
    if j == 0 {
        assert(insert_sorted(s, x) =~= s.take(0) + seq![x] + s.skip(0));
    } else {
        let rest = s.drop_first();
        assert(forall|m: int| 0 <= m < j - 1 ==> #[trigger] rest[m] == s[m + 1]);
        lemma_insert_sorted_at(rest, x, j - 1);
        assert(lex_le(spec_name(s[0]), spec_name(x)));
        assert(insert_sorted(s, x) =~= s.take(j) + seq![x] + s.skip(j));
    }
}

/// Finds where node `k` of the listing belongs among the already ordered
/// indices `ord`.
#[verifier::loop_isolation(false)]
fn find_insert_pos(children: &Vec<Node>, ord: &Vec<usize>, k: usize) -> (j: usize)
    requires
        k < children@.len(),
        forall|i: int| 0 <= i < ord@.len() ==> (#[trigger] ord@[i]) < children@.len(),
    ensures
        j <= ord@.len(),
        forall|m: int| 0 <= m < j ==> lex_le(
            spec_name(children@[#[trigger] ord@[m] as int]),
            spec_name(children@[k as int]),
        ),
        j < ord@.len() ==> !lex_le(
            spec_name(children@[ord@[j as int] as int]),
            spec_name(children@[k as int]),
        ),
{
    let mut j: usize = 0;
    while j < ord.len()
        invariant
            j <= ord@.len(),
            forall|m: int| 0 <= m < j ==> lex_le(
                spec_name(children@[#[trigger] ord@[m] as int]),
                spec_name(children@[k as int]),
            ),
        decreases ord@.len() - j,
    {
        if !lex_le_str(children[ord[j]].name().as_str(), children[k].name().as_str()) {
            return j;
        }
        j = j + 1;
    }
    j
}

/// Computes the order in which a listing's entries are walked: indices into
/// `children`, arranged so that the nodes they pick out are the name-sorted
/// listing.
#[verifier::loop_isolation(false)]
pub fn sorted_order(children: &Vec<Node>) -> (ord: Vec<usize>)
    ensures
        ord@.len() == children@.len(),
        forall|i: int| 0 <= i < ord@.len() ==> (#[trigger] ord@[i]) < children@.len(),
        ord@.map_values(|u: usize| children@[u as int]) == sort_by_name(children@),
{
    let ghost f = |u: usize| children@[u as int];
    let mut ord: Vec<usize> = Vec::new();
    let mut k: usize = 0;
    proof {
        assert(ord@.map_values(f) =~= sort_by_name(children@.take(0)));
    }
    while k < children.len()
        invariant
            k <= children@.len(),
            ord@.len() == k,
            forall|i: int| 0 <= i < ord@.len() ==> (#[trigger] ord@[i]) < children@.len(),
            ord@.map_values(f) == sort_by_name(children@.take(k as int)),
        decreases children@.len() - k,
    {
        let j = find_insert_pos(children, &ord, k);
        proof {
            let sorted = ord@.map_values(f);
            assert(forall|m: int| 0 <= m < j ==> spec_name(#[trigger] sorted[m])
                == spec_name(children@[ord@[m] as int]));
            lemma_insert_sorted_at(sorted, children@[k as int], j as int);
            assert(children@.take(k + 1).drop_last() =~= children@.take(k as int));
            assert(children@.take(k + 1).last() == children@[k as int]);
        }
        ord.insert(j, k);
        proof {
            assert(ord@.map_values(f) =~= sort_by_name(children@.take(k + 1)));
        }
        k = k + 1;
    }
    proof {
        assert(children@.take(k as int) =~= children@);
    }
    ord
}

/// Every element of an insertion is the inserted node or one of the old
/// ones.
pub proof fn lemma_insert_sorted_membership(s: Seq<Node>, x: Node, i: int)
    requires
        0 <= i < insert_sorted(s, x).len(),
    ensures
        insert_sorted(s, x)[i] == x || s.contains(insert_sorted(s, x)[i]),
    decreases s.len(),
{
    if s.len() == 0 {
    } else if lex_le(spec_name(s[0]), spec_name(x)) {
        if i == 0 {
            assert(s.contains(s[0]));
        } else {
            lemma_insert_sorted_membership(s.drop_first(), x, i - 1);
            let e = insert_sorted(s, x)[i];
            if e != x {
                let k = choose|k: int| 0 <= k < s.drop_first().len() && s.drop_first()[k] == e;
                assert(s[k + 1] == e);
                assert(s.contains(e));
            }
        }
    } else {
        if i > 0 {
            assert(s.contains(s[i - 1]));
        }
    }
}

/// Every element of the sorted listing is an element of the listing.
pub proof fn lemma_sort_membership(s: Seq<Node>, i: int)
    requires
        0 <= i < sort_by_name(s).len(),
    ensures
        exists|j: int| 0 <= j < s.len() && s[j] == sort_by_name(s)[i],
    decreases s.len(),
{
    let e = sort_by_name(s)[i];
    lemma_insert_sorted_membership(sort_by_name(s.drop_last()), s.last(), i);
    if e == s.last() {
        assert(s[s.len() - 1] == e);
    } else {
        let k = choose|k: int|
            0 <= k < sort_by_name(s.drop_last()).len() && sort_by_name(s.drop_last())[k] == e;
        lemma_sort_membership(s.drop_last(), k);
        let j = choose|j: int| 0 <= j < s.drop_last().len() && s.drop_last()[j] == e;
        assert(s[j] == e);
    }
}

/// A listing in which every earlier name sorts at or before every later one.
pub open spec fn spec_sorted_by_name(s: Seq<Node>) -> bool {
    forall|i: int, j: int|
        0 <= i < j < s.len() ==> lex_le(spec_name(#[trigger] s[i]), spec_name(#[trigger] s[j]))
}

proof fn lemma_insert_sorted_keeps_sorted(s: Seq<Node>, x: Node)
    requires
        spec_sorted_by_name(s),
    ensures
        spec_sorted_by_name(insert_sorted(s, x)),
    decreases s.len(),
{
    if s.len() == 0 {
    } else if lex_le(spec_name(s[0]), spec_name(x)) {
        let rest = s.drop_first();
        assert(forall|i: int| 0 <= i < rest.len() ==> #[trigger] rest[i] == s[i + 1]);
        lemma_insert_sorted_keeps_sorted(rest, x);
        let r = insert_sorted(s, x);
        let tail = insert_sorted(rest, x);
        assert(forall|k: int| 0 <= k < tail.len() ==> #[trigger] r[k + 1] == tail[k]);
        assert forall|i: int, j: int| 0 <= i < j < r.len() implies lex_le(
            spec_name(#[trigger] r[i]),
            spec_name(#[trigger] r[j]),
        ) by {
            if i == 0 {
                lemma_insert_sorted_membership(rest, x, j - 1);
                if tail[j - 1] == x {
                } else {
                    let k = choose|k: int| 0 <= k < rest.len() && rest[k] == tail[j - 1];
                    assert(s[k + 1] == tail[j - 1]);
                }
            }
        }
    } else {
        lemma_lex_le_total(spec_name(s[0]), spec_name(x));
        let r = insert_sorted(s, x);
        assert forall|i: int, j: int| 0 <= i < j < r.len() implies lex_le(
            spec_name(#[trigger] r[i]),
            spec_name(#[trigger] r[j]),
        ) by {
            if i == 0 {
                if j > 1 {
                    lemma_lex_le_trans(spec_name(x), spec_name(s[0]), spec_name(s[j - 1]));
                }
            }
        }
    }
}

/// What makes the walk's ordering canonical, and with it the whole document
/// deterministic: the sorted listing really is sorted under the total
/// lexicographic order on names.
pub proof fn lemma_sort_by_name_sorted(s: Seq<Node>)
    ensures
        spec_sorted_by_name(sort_by_name(s)),
    decreases s.len(),
{
    if s.len() > 0 {
        lemma_sort_by_name_sorted(s.drop_last());
        lemma_insert_sorted_keeps_sorted(sort_by_name(s.drop_last()), s.last());
    }
}

/// The byte size recorded for a file; directories carry none.
pub open spec fn spec_file_size(n: Node) -> u64 {
    match n {
        Node::File { size, .. } => size,
        Node::Dir { .. } => 0,
    }
}

/// The text recorded for a file, when it could be read.
pub open spec fn spec_file_content(n: Node) -> Option<String> {
    match n {
        Node::File { content, .. } => content,
        Node::Dir { .. } => None,
    }
}

} // verus!
