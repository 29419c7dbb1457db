use ferrocyanide::page::{build_tree, Page, PageHeading};

fn heading(level: u8, title: &str) -> PageHeading {
    PageHeading {
        level,
        id: title.to_lowercase(),
        title: title.to_string(),
        children: Vec::new(),
    }
}

#[test]
fn test_page_from_string() {
    let content = r#"---
title: "Test Title"
description: "Test Description"
---

# Test Heading
Hello, world
"#;

    let page = Page::from_string(content).unwrap();
    assert_eq!(page.frontmatter.title, Some("Test Title".to_string()));
    assert_eq!(page.frontmatter.description, Some("Test Description".to_string()));
    assert_eq!(page.outline.len(), 1);
    assert_eq!(page.outline[0].level, 1);
    assert_eq!(page.outline[0].title, "Test Heading");
    assert_eq!(page.outline[0].id, "test-heading");
}

#[test]
fn test_page_auto_title() {
    let content = "---\ndescription: \"Test Description\"\n---\n\n# Test Heading\nHello, world\n";

    let page = Page::from_string(content).unwrap();
    assert_eq!(page.frontmatter.title, Some("Test Heading".to_string()));
    assert_eq!(page.frontmatter.description, Some("Test Description".to_string()));
}

#[test]
fn test_page_untitled() {
    // no metadata block and no level-1 heading
    let page = Page::from_string("Hello, world\n").unwrap();
    assert_eq!(page.frontmatter.title, Some("Untitled Document".to_string()));
}

#[test]
fn test_outline_shape() {
    // [(1,"A"),(2,"B"),(3,"C"),(1,"D")]: two top-level entries; B and C
    // are flat children of A, C not nested under B
    let flat = vec![heading(1, "A"), heading(2, "B"), heading(3, "C"), heading(1, "D")];
    let tree = build_tree(flat);
    assert_eq!(tree.len(), 2);
    assert_eq!(tree[0].title, "A");
    assert_eq!(tree[1].title, "D");
    assert_eq!(tree[0].children.len(), 2);
    assert_eq!(tree[0].children[0].title, "B");
    assert_eq!(tree[0].children[1].title, "C");
    assert_eq!(tree[0].children[0].children.len(), 0);
    assert_eq!(tree[0].children[1].children.len(), 0);
    assert_eq!(tree[1].children.len(), 0);
}

#[test]
fn test_outline_equal_levels_stay_top() {
    let flat = vec![heading(2, "A"), heading(2, "B")];
    let tree = build_tree(flat);
    assert_eq!(tree.len(), 2);
    assert_eq!(tree[0].children.len(), 0);
}

#[test]
fn test_anchor_uniqueness() {
    // two headings with identical text get distinct ids, the second
    // suffixed
    let page = Page::from_string("## Same\n\ntext\n\n## Same\n").unwrap();
    assert_eq!(page.outline.len(), 2);
    assert_eq!(page.outline[0].id, "same");
    assert_eq!(page.outline[1].id, "same-1");
}

#[test]
fn test_link_rewrite_in_html() {
    // the literal substring `guide.md` comes out as `guide/`
    let page = Page::from_string("See guide.md for more.\n").unwrap();
    assert!(page.content.contains("guide/"));
    assert!(!page.content.contains("guide.md"));
}

#[test]
fn test_frontmatter_block_not_in_output() {
    let page = Page::from_string("---\ntitle: \"T\"\n---\n\nBody text\n").unwrap();
    assert!(!page.content.contains("title:"));
    assert!(page.content.contains("Body text"));
}

#[test]
fn test_malformed_frontmatter_degrades() {
    // a malformed metadata block never aborts rendering
    let page = Page::from_string("---\ntitle: [unclosed\n---\n\n# H\n").unwrap();
    assert_eq!(page.frontmatter.title, Some("H".to_string()));
    assert!(page.frontmatter.description.is_none());
}

#[test]
fn test_code_fence_highlighting() {
    let page = Page::from_string("# T\n\n```rust\nfn main() {}\n```\n").unwrap();
    // the fixed syntect theme produces inline styles for the fence
    assert!(page.content.contains("<pre"));
    assert!(page.content.contains("style="));
}
