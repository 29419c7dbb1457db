use ferrocyanide::markdown::rewrite_links;
use ferrocyanide::resolve::{
    filename_to_url, is_markdown_path, output_path, redirect_target, resolve_filename,
    resolve_path, resolve_request,
};

#[test]
fn test_resolve_path_roundtrip() {
    // source path -> canonical URL
    assert_eq!(resolve_path("content/posts/hello.md", ""), "/posts/hello");
    // canonical URL -> source path, when the direct file exists
    assert_eq!(resolve_filename("/posts/hello", "", true), "content/posts/hello.md");
    // the root request maps to the index document
    assert_eq!(resolve_filename("/", "", true), "content/index.md");
}

#[test]
fn test_resolve_path_strips_index() {
    assert_eq!(resolve_path("content/posts/index.md", ""), "/posts");
    assert_eq!(resolve_path("content/index.md", ""), "/");
}

#[test]
fn test_index_strip_is_per_segment() {
    // only a whole `index` segment is stripped: a name that merely ends in
    // the letters `index` keeps them, and the round trip holds
    assert_eq!(resolve_path("content/myindex.md", ""), "/myindex");
    assert_eq!(resolve_path("content/appendix.md", ""), "/appendix");
    assert_eq!(resolve_filename("/myindex", "", true), "content/myindex.md");
}

#[test]
fn test_resolve_filename_fallback() {
    // when `<path>.md` does not exist, fall back to `<path>/index.md`
    assert_eq!(resolve_filename("/posts", "", false), "content/posts/index.md");
}

#[test]
fn test_resolve_request_missing_is_not_found() {
    // a URL with no corresponding file is a miss, never an error
    assert!(resolve_request("/no/such/page", "", false, false).is_none());
    assert_eq!(
        resolve_request("/posts/hello", "", true, false),
        Some("content/posts/hello.md".to_string())
    );
    assert_eq!(
        resolve_request("/posts", "", false, true),
        Some("content/posts/index.md".to_string())
    );
}

#[test]
fn test_resolve_with_root_dir() {
    assert_eq!(resolve_filename("/a", "site", true), "site/content/a.md");
    assert_eq!(resolve_path("site/content/a.md", "site"), "/a");
}

#[test]
fn test_filename_to_url() {
    assert_eq!(filename_to_url("content/posts/hello.md", ""), "/posts/hello");
    // the canonical URL strips a trailing `index` segment, in navigation too
    assert_eq!(filename_to_url("content/docs/index.md", ""), "/docs");
    assert_eq!(filename_to_url("content/index.md", ""), "/");
}

#[test]
fn test_output_path() {
    assert_eq!(output_path("posts/hello.md"), "posts/hello.html");
    assert_eq!(output_path("index.md"), "index.html");
}

#[test]
fn test_is_markdown_path() {
    assert!(is_markdown_path("content/a.md"));
    assert!(is_markdown_path("a.md"));
    assert!(!is_markdown_path("content/a.txt"));
    assert!(!is_markdown_path("content/.md"));
    assert!(!is_markdown_path("content/amd"));
}

#[test]
fn test_rewrite_links() {
    assert_eq!(rewrite_links("guide.md"), "guide/");
    assert_eq!(rewrite_links("see a.md and b.md."), "see a/ and b/.");
    assert_eq!(rewrite_links("nothing here"), "nothing here");
}

#[test]
fn test_parent_dir_of() {
    let (parent, name) = ferrocyanide::resolve::parent_dir_of("content/posts/hello.md");
    assert_eq!(parent, "content/posts");
    assert_eq!(name, "posts");
    assert!(ferrocyanide::resolve::has_named_parent("content/posts/hello.md"));
    assert!(!ferrocyanide::resolve::has_named_parent("hello.md"));
}

#[test]
fn test_redirect_target() {
    assert_eq!(redirect_target("/posts/index"), Some("/posts/".to_string()));
    assert_eq!(redirect_target("/posts/index/"), Some("/posts/".to_string()));
    assert_eq!(redirect_target("/index"), Some("/".to_string()));
    assert_eq!(redirect_target("/posts/hello"), None);
}
