use proj2tree::Node;
use proj2tree::classify::ScanContext;
use proj2tree::policy::Policy;
use proj2tree::render::render_document;

fn file(name: &str, content: &str) -> Node {
    Node::File {
        name: name.to_string(),
        size: content.len() as u64,
        content: Some(content.to_string()),
    }
}

fn dir(name: &str, children: Vec<Node>) -> Node {
    Node::Dir { name: name.to_string(), children }
}

fn ctx_with_dirs(dirs: &[&str]) -> ScanContext {
    let mut policy = Policy::empty();
    policy.exclude_dirs = dirs.iter().map(|s| s.to_string()).collect();
    ScanContext { policy, matcher: None, output_name: None }
}

#[test]
fn scenario_tree_and_contents() {
    let root = dir(
        "proj",
        vec![
            file("a.txt", "hello"),
            file(".hidden", "whatever"),
            dir("node_modules", vec![file("x.js", "var x;")]),
        ],
    );
    let ctx = ctx_with_dirs(&["node_modules"]);
    let doc = render_document(&root, "proj", &ctx, true, true);
    let expected = "# Структура проекта: proj\n\n\
                    ## Дерево файлов\n\n\
                    ```\n\
                    ├── a.txt\n\
                    └── node_modules/ ...\n\
                    ```\n\n\
                    ## Содержимое файлов\n\n\
                    \n### `a.txt`\n\n\
                    ```text\nhello\n```\n";
    assert_eq!(doc, expected);
}

#[test]
fn repeated_runs_are_identical() {
    let root = dir("p", vec![file("b.txt", "two"), file("a.txt", "one")]);
    let ctx = ctx_with_dirs(&[]);
    let first = render_document(&root, "p", &ctx, true, true);
    let second = render_document(&root, "p", &ctx, true, true);
    assert_eq!(first, second);
}

#[test]
fn listing_order_does_not_matter() {
    let one = dir("p", vec![file("b.txt", "two"), file("a.txt", "one"), file("c.txt", "three")]);
    let two = dir("p", vec![file("c.txt", "three"), file("a.txt", "one"), file("b.txt", "two")]);
    let ctx = ctx_with_dirs(&[]);
    assert_eq!(
        render_document(&one, "p", &ctx, true, true),
        render_document(&two, "p", &ctx, true, true)
    );
}

#[test]
fn own_output_leaves_document_unchanged() {
    let without = dir("p", vec![file("a.txt", "hi")]);
    let with_output = dir("p", vec![file("a.txt", "hi"), file("tree.md", "old output")]);
    let ctx = ScanContext {
        policy: Policy::empty(),
        matcher: None,
        output_name: Some("tree.md".to_string()),
    };
    // the hidden entry still counts for the last-entry glyph, so compare the
    // contents sections and check the output file leaves no trace of its own
    let doc_without = render_document(&without, "p", &ctx, false, true);
    let doc_with = render_document(&with_output, "p", &ctx, false, true);
    assert_eq!(doc_with, doc_without);
    let tree_doc = render_document(&with_output, "p", &ctx, true, true);
    assert!(!tree_doc.contains("tree.md"));
    assert!(!tree_doc.contains("old output"));
}

#[test]
fn binary_extension_stays_in_tree_only() {
    let root = dir("p", vec![file("img.png", "PNGDATA"), file("a.txt", "hi")]);
    let mut ctx = ctx_with_dirs(&[]);
    ctx.policy.exclude_extensions = vec!["png".to_string()];
    let doc = render_document(&root, "p", &ctx, true, true);
    assert!(doc.contains("├── a.txt\n└── img.png\n"));
    assert!(!doc.contains("### `img.png`"));
    assert!(doc.contains("### `a.txt`"));
}

#[test]
fn oversized_file_stays_in_tree_only() {
    let root = dir("p", vec![file("big.txt", "0123456789"), file("small.txt", "ok")]);
    let mut ctx = ctx_with_dirs(&[]);
    ctx.policy.max_file_size = Some(3);
    let doc = render_document(&root, "p", &ctx, true, true);
    assert!(doc.contains("├── big.txt\n"));
    assert!(!doc.contains("### `big.txt`"));
    assert!(doc.contains("### `small.txt`"));
}

#[test]
fn unreadable_file_gets_placeholder() {
    let root = dir(
        "p",
        vec![Node::File { name: "weird.bin".to_string(), size: 4, content: None }],
    );
    let ctx = ctx_with_dirs(&[]);
    let doc = render_document(&root, "p", &ctx, false, true);
    assert!(doc.contains("\n### `weird.bin`\n\n```\n[Не удалось прочитать файл]\n```\n"));
}

#[test]
fn content_gets_newline_terminated() {
    let root = dir("p", vec![file("a.txt", "abc")]);
    let ctx = ctx_with_dirs(&[]);
    let doc = render_document(&root, "p", &ctx, false, true);
    assert!(doc.ends_with("```text\nabc\n```\n"));
}

#[test]
fn fence_grows_past_content_backticks() {
    let root = dir("p", vec![file("doc.md", "````\n")]);
    let ctx = ctx_with_dirs(&[]);
    let doc = render_document(&root, "p", &ctx, false, true);
    assert!(doc.contains("`````text\n````\n`````\n"));
}

#[test]
fn nested_directories_indent_and_prefix() {
    let root = dir(
        "p",
        vec![dir("src", vec![file("main.rs", "fn main() {}\n")]), file("README", "r")],
    );
    let ctx = ctx_with_dirs(&[]);
    let doc = render_document(&root, "p", &ctx, true, true);
    assert!(doc.contains("├── README\n└── src/\n    └── main.rs\n"));
    assert!(doc.contains("### `src/main.rs`"));
}

#[test]
fn current_directory_label() {
    let root = dir(".", vec![]);
    let ctx = ctx_with_dirs(&[]);
    let doc = render_document(&root, ".", &ctx, false, false);
    assert_eq!(doc, "# Структура проекта: текущая директория\n\n");
}

#[test]
fn sections_can_be_disabled() {
    let root = dir("p", vec![file("a.txt", "hi")]);
    let ctx = ctx_with_dirs(&[]);
    let no_tree = render_document(&root, "p", &ctx, false, true);
    assert!(!no_tree.contains("## Дерево файлов"));
    assert!(no_tree.contains("## Содержимое файлов"));
    let no_contents = render_document(&root, "p", &ctx, true, false);
    assert!(no_contents.contains("## Дерево файлов"));
    assert!(!no_contents.contains("## Содержимое файлов"));
}

#[test]
fn matcher_prunes_subtree_everywhere() {
    let mut builder = ignore::gitignore::GitignoreBuilder::new("p");
    builder.add_line(None, "vendor/").unwrap();
    let matcher = builder.build().unwrap();
    let root = dir(
        "p",
        vec![dir("vendor", vec![file("lib.rs", "x")]), file("a.txt", "hi")],
    );
    let ctx = ScanContext { policy: Policy::empty(), matcher: Some(matcher), output_name: None };
    let doc = render_document(&root, "p", &ctx, true, true);
    assert!(doc.contains("└── vendor/ ...\n"));
    assert!(!doc.contains("lib.rs"));
}
