//! The two renderers and the document assembler: a depth-first,
//! name-sorted walk over the tree model, emitting the ASCII tree and the
//! fenced file contents, with every entry run through the classifier.

use vstd::prelude::*;
use vstd::string::*;
use crate::classify::{ScanContext, Classification, spec_classify, classify};
use crate::fence::{spec_fence_length, calculate_fence_length};
use crate::model::{
    Node, spec_name, spec_children, node_wf, sort_by_name, sorted_order, lemma_sort_by_name_len,
    lemma_sort_membership, spec_file_size, spec_file_content,
};
use crate::policy::{
    Policy, spec_is_binary, spec_too_large, spec_language_of, is_binary_file, is_file_too_large,
    get_file_extension,
};
use crate::text::{spec_join, join_path, str_eq};

verus! {

/// A fence of `k` backticks.
pub open spec fn spec_backticks(k: nat) -> Seq<char>
    decreases k,
{
    if k == 0 {
        Seq::empty()
    } else {
        spec_backticks((k - 1) as nat) + "`"@
    }
}

/// The branch glyph before an entry's name: one form for the last entry of a
/// listing, another for the rest.
pub open spec fn spec_branch(last: bool) -> Seq<char> {
    if last {
        "└── "@
    } else {
        "├── "@
    }
}

/// The tree lines for the children of `n` from sorted position `i` on.
///
/// The listing is walked in name-sorted order; a hidden entry leaves no line,
/// a visible-excluded directory leaves one line with a trailing ellipsis and
/// is not descended into, an included directory leaves its line and then its
/// own subtree one indent unit deeper.
pub open spec fn spec_tree_entries(
    n: Node,
    dir_path: Seq<char>,
    indent: Seq<char>,
    ctx: ScanContext,
    i: int,
) -> Seq<char>
    decreases n, sort_by_name(spec_children(n)).len() - i,
{
    let s = spec_children(n);
    let sorted = sort_by_name(s);
    if i < 0 || i >= sorted.len() {
        Seq::empty()
    } else {
        if exists|jj: int| 0 <= jj < s.len() && s[jj] == sorted[i] {
            let j = choose|jj: int| 0 <= jj < s.len() && s[jj] == sorted[i];
            let c = s[j];
            let name = spec_name(c);
            let path = spec_join(dir_path, name);
            let cls = spec_classify(ctx, path, name, c is Dir);
            let head = indent + spec_branch(i == sorted.len() - 1) + name;
            let here = if cls is ExcludedHidden {
                Seq::<char>::empty()
            } else if cls is ExcludedVisible {
                head + "/ ...\n"@
            } else if c is Dir {
                head + "/\n"@ + spec_tree_entries(c, path, indent + "    "@, ctx, 0)
            } else {
                head + "\n"@
            };
            here + spec_tree_entries(n, dir_path, indent, ctx, i + 1)
        } else {
            Seq::empty()
        }
    }
}

/// The relative path of a child: the bare name at the top level, else the
/// parent's relative path, a slash and the name.
pub open spec fn spec_child_rel(rel: Seq<char>, name: Seq<char>) -> Seq<char> {
    if rel.len() == 0 {
        name
    } else {
        spec_join(rel, name)
    }
}

/// The contents block of one included file: nothing when the policy calls it
/// binary or oversized; otherwise a heading with the relative path and a
/// fenced block — the text behind a fence long enough never to collide with
/// it, newline-terminated, or a fixed placeholder when the file could not be
/// read as text.
pub open spec fn spec_file_block(
    name: Seq<char>,
    rel: Seq<char>,
    size: u64,
    content: Option<String>,
    policy: Policy,
) -> Seq<char> {
    if spec_is_binary(name, policy) || spec_too_large(size, policy) {
        Seq::empty()
    } else {
        "\n### `"@ + rel + "`\n\n"@ + match content {
            Some(text) => {
                let f = spec_fence_length(text@);
                spec_backticks(f) + spec_language_of(name, policy) + "\n"@ + text@ + (if text@.len()
                    > 0 && text@.last() == '\n' {
                    Seq::<char>::empty()
                } else {
                    "\n"@
                }) + spec_backticks(f) + "\n"@
            },
            None => "```\n[Не удалось прочитать файл]\n```\n"@,
        }
    }
}

/// Emits one included file's contents block onto `out`.
#[verifier::loop_isolation(false)]
#[verifier::rlimit(60)]
fn append_file_block(
    out: &mut String,
    fname: &String,
    child_rel: &String,
    size: u64,
    content: &Option<String>,
    policy: &Policy,
)
    requires
        (match *content {
            Some(text) => text@.len() < usize::MAX,
            None => true,
        }),
    ensures
        final(out)@ == old(out)@ + spec_file_block(fname@, child_rel@, size, *content, *policy),
{
    let ghost pre = out@;
    if is_binary_file(fname.as_str(), policy) || is_file_too_large(size, policy) {
        proof {
            assert(out@ =~= pre + spec_file_block(fname@, child_rel@, size, *content, *policy));
        }
        return ;
    }
    out.append("\n### `");
    out.append(child_rel.as_str());
    out.append("`\n\n");
    match content {
        Some(text) => {
            let f = calculate_fence_length(text.as_str());
            append_backticks(out, f);
            let lang = get_file_extension(fname.as_str(), policy);
            out.append(lang.as_str());
            out.append("\n");
            out.append(text.as_str());
            let tlen = text.as_str().unicode_len();
            let terminated = tlen > 0 && text.as_str().get_char(tlen - 1) == '\n';
            if !terminated {
                out.append("\n");
            }
            append_backticks(out, f);
            out.append("\n");
        },
        None => {
            out.append("```\n[Не удалось прочитать файл]\n```\n");
        },
    }
    proof {
        assert(out@ =~= pre + spec_file_block(fname@, child_rel@, size, *content, *policy));
    }
}

/// The contents section for the children of `n` from sorted position `i` on:
/// the same ordering and classification as the tree, but both excluded forms
/// alike leave nothing, and included directories contribute only their
/// descendants' blocks.
pub open spec fn spec_contents_entries(
    n: Node,
    dir_path: Seq<char>,
    rel: Seq<char>,
    ctx: ScanContext,
    i: int,
) -> Seq<char>
    decreases n, sort_by_name(spec_children(n)).len() - i,
{
    let s = spec_children(n);
    let sorted = sort_by_name(s);
    if i < 0 || i >= sorted.len() {
        Seq::empty()
    } else {
        if exists|jj: int| 0 <= jj < s.len() && s[jj] == sorted[i] {
            let j = choose|jj: int| 0 <= jj < s.len() && s[jj] == sorted[i];
            let c = s[j];
            let name = spec_name(c);
            let path = spec_join(dir_path, name);
            let cls = spec_classify(ctx, path, name, c is Dir);
            let here = if !(cls is Included) {
                Seq::<char>::empty()
            } else {
                match c {
                    Node::Dir { .. } => spec_contents_entries(
                        c,
                        path,
                        spec_child_rel(rel, name),
                        ctx,
                        0,
                    ),
                    Node::File { name: _, size, content } => spec_file_block(
                        name,
                        spec_child_rel(rel, name),
                        size,
                        content,
                        ctx.policy,
                    ),
                }
            };
            here + spec_contents_entries(n, dir_path, rel, ctx, i + 1)
        } else {
            Seq::empty()
        }
    }
}

/// Appends a fence of `k` backticks.
#[verifier::loop_isolation(false)]
fn append_backticks(out: &mut String, k: usize)
    ensures
        final(out)@ == old(out)@ + spec_backticks(k as nat),
{
    let mut i: usize = 0;
    proof {
        assert(out@ =~= old(out)@ + spec_backticks(0));
    }
    while i < k
        invariant
            i <= k,
            out@ == old(out)@ + spec_backticks(i as nat),
        decreases k - i,
    {
        out.append("`");
        i = i + 1;
        proof {
            assert(out@ =~= old(out)@ + spec_backticks(i as nat));
        }
    }
}

/// Emits the tree lines for the children of `n`, in name-sorted order, onto
/// `out`.
#[verifier::loop_isolation(false)]
pub fn render_tree_into(n: &Node, dir_path: &str, indent: &str, ctx: &ScanContext, out: &mut String)
    ensures
        final(out)@ == old(out)@ + spec_tree_entries(*n, dir_path@, indent@, *ctx, 0),
    decreases *n,
{
    let children: &Vec<Node> = match n {
        Node::File { .. } => {
            proof {
                assert(old(out)@ + spec_tree_entries(*n, dir_path@, indent@, *ctx, 0) =~= out@);
            }
            return ;
        },
        Node::Dir { children, .. } => children,
    };
    let ord = sorted_order(children);
    proof {
        lemma_sort_by_name_len(children@);
    }
    let ghost sorted = sort_by_name(children@);
    let total = ord.len();
    let mut i: usize = 0;
    while i < total
        invariant
            i <= total,
            out@ + spec_tree_entries(*n, dir_path@, indent@, *ctx, i as int) == old(out)@
                + spec_tree_entries(*n, dir_path@, indent@, *ctx, 0),
        decreases total - i,
    {
        let idx = ord[i];
        let c = &children[idx];
        let ghost s = children@;
        proof {
            assert(ord@.map_values(|u: usize| children@[u as int])[i as int] == sorted[i as int]);
            assert(s[idx as int] == sorted[i as int]);
        }
        let ghost pre = out@;
        let ghost mut here: Seq<char> = Seq::empty();
        let name = c.name();
        let path = join_path(dir_path, name.as_str());
        let is_dir = c.is_dir();
        let cls = classify(ctx, path.as_str(), name.as_str(), is_dir);
        let last = i == total - 1;
        let ghost head = indent@ + spec_branch(last) + name@;
        match cls {
            Classification::ExcludedHidden => {},
            Classification::ExcludedVisible => {
                out.append(indent);
                out.append(if last { "└── " } else { "├── " });
                out.append(name.as_str());
                out.append("/ ...\n");
                proof {
                    here = head + "/ ...\n"@;
                    assert(out@ =~= pre + here);
                }
            },
            Classification::Included => {
                out.append(indent);
                out.append(if last { "└── " } else { "├── " });
                out.append(name.as_str());
                if is_dir {
                    out.append("/\n");
                    let mut child_indent = String::new();
                    child_indent.append(indent);
                    child_indent.append("    ");
                    proof {
                        assert(child_indent@ =~= indent@ + "    "@);
                        assert(decreases_to!(*n => s[idx as int]));
                    }
                    render_tree_into(c, path.as_str(), child_indent.as_str(), ctx, out);
                    proof {
                        here = head + "/\n"@ + spec_tree_entries(
                            *c,
                            path@,
                            indent@ + "    "@,
                            *ctx,
                            0,
                        );
                        assert(out@ =~= pre + here);
                    }
                } else {
                    out.append("\n");
                    proof {
                        here = head + "\n"@;
                        assert(out@ =~= pre + here);
                    }
                }
            },
        }
        proof {
            let jj = choose|jj: int| 0 <= jj < s.len() && s[jj] == sorted[i as int];
            assert(0 <= jj < s.len() && s[jj] == sorted[i as int]);
            assert(s[jj] == *c);
            assert(spec_tree_entries(*n, dir_path@, indent@, *ctx, i as int) == here
                + spec_tree_entries(*n, dir_path@, indent@, *ctx, i + 1));
            assert(out@ + spec_tree_entries(*n, dir_path@, indent@, *ctx, i + 1) =~= (pre + here)
                + spec_tree_entries(*n, dir_path@, indent@, *ctx, i + 1));
            assert((pre + here) + spec_tree_entries(*n, dir_path@, indent@, *ctx, i + 1) =~= pre + (
            here + spec_tree_entries(*n, dir_path@, indent@, *ctx, i + 1)));
        }
        i = i + 1;
    }
    proof {
        assert(spec_tree_entries(*n, dir_path@, indent@, *ctx, total as int) =~= Seq::<
            char,
        >::empty());
        assert(out@ =~= out@ + spec_tree_entries(*n, dir_path@, indent@, *ctx, total as int));
    }
}

/// Emits the contents blocks for every included, readable-by-policy file
/// under `n`, in the same name-sorted order the tree uses, onto `out`.
#[verifier::loop_isolation(false)]
#[verifier::rlimit(60)]
pub fn render_contents_into(
    n: &Node,
    dir_path: &str,
    rel: &str,
    ctx: &ScanContext,
    out: &mut String,
)
    requires
        node_wf(*n),
    ensures
        final(out)@ == old(out)@ + spec_contents_entries(*n, dir_path@, rel@, *ctx, 0),
    decreases *n,
{
    let children: &Vec<Node> = match n {
        Node::File { .. } => {
            proof {
                assert(old(out)@ + spec_contents_entries(*n, dir_path@, rel@, *ctx, 0) =~= out@);
            }
            return ;
        },
        Node::Dir { children, .. } => children,
    };
    let ord = sorted_order(children);
    proof {
        lemma_sort_by_name_len(children@);
    }
    let ghost sorted = sort_by_name(children@);
    let total = ord.len();
    let mut i: usize = 0;
    while i < total
        invariant
            i <= total,
            out@ + spec_contents_entries(*n, dir_path@, rel@, *ctx, i as int) == old(out)@
                + spec_contents_entries(*n, dir_path@, rel@, *ctx, 0),
        decreases total - i,
    {
        let idx = ord[i];
        let c = &children[idx];
        let ghost s = children@;
        proof {
            assert(ord@.map_values(|u: usize| children@[u as int])[i as int] == sorted[i as int]);
            assert(s[idx as int] == sorted[i as int]);
            assert(node_wf(s[idx as int]));
        }
        let ghost pre = out@;
        let ghost mut here: Seq<char> = Seq::empty();
        let name = c.name();
        let path = join_path(dir_path, name.as_str());
        let is_dir = c.is_dir();
        let cls = classify(ctx, path.as_str(), name.as_str(), is_dir);
        if matches!(cls, Classification::Included) {
            let child_rel = if rel.unicode_len() == 0 {
                String::from_str(name.as_str())
            } else {
                join_path(rel, name.as_str())
            };
            proof {
                assert(child_rel@ == spec_child_rel(rel@, name@));
            }
            match c {
                Node::Dir { .. } => {
                    proof {
                        assert(decreases_to!(*n => s[idx as int]));
                    }
                    render_contents_into(c, path.as_str(), child_rel.as_str(), ctx, out);
                    proof {
                        here = spec_contents_entries(
                            *c,
                            path@,
                            spec_child_rel(rel@, name@),
                            *ctx,
                            0,
                        );
                        assert(out@ =~= pre + here);
                    }
                },
                Node::File { name: fname, size, content } => {
                    append_file_block(out, fname, &child_rel, *size, content, &ctx.policy);
                    proof {
                        here = spec_file_block(
                            fname@,
                            spec_child_rel(rel@, name@),
                            *size,
                            *content,
                            ctx.policy,
                        );
                        assert(out@ =~= pre + here);
                    }
                },
            }
        }
        proof {
            let jj = choose|jj: int| 0 <= jj < s.len() && s[jj] == sorted[i as int];
            assert(0 <= jj < s.len() && s[jj] == sorted[i as int]);
            assert(s[jj] == *c);
            assert(spec_contents_entries(*n, dir_path@, rel@, *ctx, i as int) == here
                + spec_contents_entries(*n, dir_path@, rel@, *ctx, i + 1));
            assert(out@ + spec_contents_entries(*n, dir_path@, rel@, *ctx, i + 1) =~= (pre + here)
                + spec_contents_entries(*n, dir_path@, rel@, *ctx, i + 1));
            assert((pre + here) + spec_contents_entries(*n, dir_path@, rel@, *ctx, i + 1) =~= pre
                + (here + spec_contents_entries(*n, dir_path@, rel@, *ctx, i + 1)));
        }
        i = i + 1;
    }
    proof {
        assert(spec_contents_entries(*n, dir_path@, rel@, *ctx, total as int) =~= Seq::<
            char,
        >::empty());
        assert(out@ =~= out@ + spec_contents_entries(*n, dir_path@, rel@, *ctx, total as int));
    }
}

/// The whole document: the title line naming the scan root (with a human
/// label for the current directory), then, as asked for, the tree section and
/// the contents section.
pub open spec fn spec_document(
    root: Node,
    target: Seq<char>,
    ctx: ScanContext,
    include_tree: bool,
    include_contents: bool,
) -> Seq<char> {
    let label = if target == "."@ {
        "текущая директория"@
    } else {
        target
    };
    "# Структура проекта: "@ + label + "\n\n"@ + (if include_tree {
        "## Дерево файлов\n\n"@ + "```\n"@ + spec_tree_entries(
            root,
            target,
            Seq::empty(),
            ctx,
            0,
        ) + "```\n\n"@
    } else {
        Seq::<char>::empty()
    }) + (if include_contents {
        "## Содержимое файлов\n\n"@ + spec_contents_entries(
            root,
            target,
            Seq::empty(),
            ctx,
            0,
        )
    } else {
        Seq::<char>::empty()
    })
}

/// An entry classified as hidden leaves no trace: neither a tree line nor
/// anything in the contents section, for it or anything below it.
pub proof fn lemma_hidden_entry_leaves_no_trace(
    n: Node,
    dir_path: Seq<char>,
    indent: Seq<char>,
    rel: Seq<char>,
    ctx: ScanContext,
    i: int,
)
    requires
        0 <= i < sort_by_name(spec_children(n)).len(),
        ({
            let c = sort_by_name(spec_children(n))[i];
            spec_classify(ctx, spec_join(dir_path, spec_name(c)), spec_name(c), c is Dir)
                == Classification::ExcludedHidden
        }),
    ensures
        spec_tree_entries(n, dir_path, indent, ctx, i) == spec_tree_entries(
            n,
            dir_path,
            indent,
            ctx,
            i + 1,
        ),
        spec_contents_entries(n, dir_path, rel, ctx, i) == spec_contents_entries(
            n,
            dir_path,
            rel,
            ctx,
            i + 1,
        ),
{
    let s = spec_children(n);
    let sorted = sort_by_name(s);
    lemma_sort_membership(s, i);
    let jj = choose|jj: int| 0 <= jj < s.len() && s[jj] == sorted[i];
    assert(s[jj] == sorted[i]);
    assert(Seq::<char>::empty() + spec_tree_entries(n, dir_path, indent, ctx, i + 1)
        =~= spec_tree_entries(n, dir_path, indent, ctx, i + 1));
    assert(Seq::<char>::empty() + spec_contents_entries(n, dir_path, rel, ctx, i + 1)
        =~= spec_contents_entries(n, dir_path, rel, ctx, i + 1));
}

/// Visibility against inclusion: a directory classified as visibly excluded
/// appears in the tree as one line with a trailing slash and ellipsis and is
/// not descended into, and neither it nor any of its descendants contributes
/// anything to the contents section.
pub proof fn lemma_visible_exclusion(
    n: Node,
    dir_path: Seq<char>,
    indent: Seq<char>,
    rel: Seq<char>,
    ctx: ScanContext,
    i: int,
)
    requires
        0 <= i < sort_by_name(spec_children(n)).len(),
        sort_by_name(spec_children(n))[i] is Dir,
        ({
            let c = sort_by_name(spec_children(n))[i];
            spec_classify(ctx, spec_join(dir_path, spec_name(c)), spec_name(c), true)
                == Classification::ExcludedVisible
        }),
    ensures
        spec_tree_entries(n, dir_path, indent, ctx, i) == indent + spec_branch(
            i == sort_by_name(spec_children(n)).len() - 1,
        ) + spec_name(sort_by_name(spec_children(n))[i]) + "/ ...\n"@ + spec_tree_entries(
            n,
            dir_path,
            indent,
            ctx,
            i + 1,
        ),
        spec_contents_entries(n, dir_path, rel, ctx, i) == spec_contents_entries(
            n,
            dir_path,
            rel,
            ctx,
            i + 1,
        ),
{
    let s = spec_children(n);
    let sorted = sort_by_name(s);
    lemma_sort_membership(s, i);
    let jj = choose|jj: int| 0 <= jj < s.len() && s[jj] == sorted[i];
    assert(s[jj] == sorted[i]);
    let head = indent + spec_branch(i == sorted.len() - 1) + spec_name(sorted[i]);
    assert(spec_tree_entries(n, dir_path, indent, ctx, i) == (head + "/ ...\n"@)
        + spec_tree_entries(n, dir_path, indent, ctx, i + 1));
    assert((head + "/ ...\n"@) + spec_tree_entries(n, dir_path, indent, ctx, i + 1) =~= head
        + "/ ...\n"@ + spec_tree_entries(n, dir_path, indent, ctx, i + 1));
    assert(Seq::<char>::empty() + spec_contents_entries(n, dir_path, rel, ctx, i + 1)
        =~= spec_contents_entries(n, dir_path, rel, ctx, i + 1));
}

/// Size and extension exclusion is content-only: an included file the policy
/// calls binary or oversized keeps its plain leaf line in the tree, but
/// produces neither heading nor fenced block in the contents section.
pub proof fn lemma_content_only_exclusion(
    n: Node,
    dir_path: Seq<char>,
    indent: Seq<char>,
    rel: Seq<char>,
    ctx: ScanContext,
    i: int,
)
    requires
        0 <= i < sort_by_name(spec_children(n)).len(),
        sort_by_name(spec_children(n))[i] is File,
        ({
            let c = sort_by_name(spec_children(n))[i];
            spec_classify(ctx, spec_join(dir_path, spec_name(c)), spec_name(c), false)
                == Classification::Included
        }),
        ({
            let c = sort_by_name(spec_children(n))[i];
            spec_is_binary(spec_name(c), ctx.policy) || spec_too_large(
                spec_file_size(c),
                ctx.policy,
            )
        }),
    ensures
        spec_tree_entries(n, dir_path, indent, ctx, i) == indent + spec_branch(
            i == sort_by_name(spec_children(n)).len() - 1,
        ) + spec_name(sort_by_name(spec_children(n))[i]) + "\n"@ + spec_tree_entries(
            n,
            dir_path,
            indent,
            ctx,
            i + 1,
        ),
        spec_contents_entries(n, dir_path, rel, ctx, i) == spec_contents_entries(
            n,
            dir_path,
            rel,
            ctx,
            i + 1,
        ),
{
    let s = spec_children(n);
    let sorted = sort_by_name(s);
    lemma_sort_membership(s, i);
    let jj = choose|jj: int| 0 <= jj < s.len() && s[jj] == sorted[i];
    assert(s[jj] == sorted[i]);
    let head = indent + spec_branch(i == sorted.len() - 1) + spec_name(sorted[i]);
    assert(spec_tree_entries(n, dir_path, indent, ctx, i) == (head + "\n"@) + spec_tree_entries(
        n,
        dir_path,
        indent,
        ctx,
        i + 1,
    ));
    assert((head + "\n"@) + spec_tree_entries(n, dir_path, indent, ctx, i + 1) =~= head + "\n"@
        + spec_tree_entries(n, dir_path, indent, ctx, i + 1));
    assert(spec_file_block(
        spec_name(sorted[i]),
        spec_child_rel(rel, spec_name(sorted[i])),
        spec_file_size(sorted[i]),
        spec_file_content(sorted[i]),
        ctx.policy,
    ) =~= Seq::<char>::empty());
    assert(Seq::<char>::empty() + spec_contents_entries(n, dir_path, rel, ctx, i + 1)
        =~= spec_contents_entries(n, dir_path, rel, ctx, i + 1));
}

/// Determinism: the document is a function of the tree model, the context
/// and the section flags alone, so two runs over equal inputs produce
/// byte-identical output.
pub proof fn lemma_document_deterministic(
    root_a: Node,
    root_b: Node,
    target_a: Seq<char>,
    target_b: Seq<char>,
    ctx_a: ScanContext,
    ctx_b: ScanContext,
    include_tree: bool,
    include_contents: bool,
)
    requires
        root_a == root_b,
        target_a == target_b,
        ctx_a == ctx_b,
    ensures
        spec_document(root_a, target_a, ctx_a, include_tree, include_contents) == spec_document(
            root_b,
            target_b,
            ctx_b,
            include_tree,
            include_contents,
        ),
{
}

/// Renders the whole Markdown document for a tree model rooted at
/// `target_dir`. Repeated calls on one model and context return the same
/// text: the result is pinned, character for character, by the model, the
/// context and the two section flags alone.
pub fn render_document(
    root: &Node,
    target_dir: &str,
    ctx: &ScanContext,
    include_tree: bool,
    include_contents: bool,
) -> (r: String)
    requires
        node_wf(*root),
    ensures
        r@ == spec_document(*root, target_dir@, *ctx, include_tree, include_contents),
{
    let mut out = String::new();
    out.append("# Структура проекта: ");
    if str_eq(target_dir, ".") {
        out.append("текущая директория");
    } else {
        out.append(target_dir);
    }
    out.append("\n\n");
    let ghost title = "# Структура проекта: "@ + (if target_dir@ == "."@ {
        "текущая директория"@
    } else {
        target_dir@
    }) + "\n\n"@;
    proof {
        assert(out@ =~= title);
    }
    if include_tree {
        out.append("## Дерево файлов\n\n");
        out.append("```\n");
        render_tree_into(root, target_dir, "", &ctx, &mut out);
        out.append("```\n\n");
        proof {
            reveal_strlit("");
            assert(""@ =~= Seq::<char>::empty());
        }
    }
    let ghost with_tree = out@;
    if include_contents {
        out.append("## Содержимое файлов\n\n");
        render_contents_into(root, target_dir, "", &ctx, &mut out);
        proof {
            reveal_strlit("");
            assert(""@ =~= Seq::<char>::empty());
        }
    }
    proof {
        assert(out@ =~= spec_document(*root, target_dir@, *ctx, include_tree, include_contents));
    }
    out
}

} // verus!
