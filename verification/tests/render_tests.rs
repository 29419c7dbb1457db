use ferrocyanide::config::{AppConfig, ProjectConfig};
use ferrocyanide::library::{site_nav, Library};
use ferrocyanide::page::Page;
use ferrocyanide::render::{apply_base_url, render_plan, select_template_from, Mode, RenderFailure};

fn sample_config() -> AppConfig {
    let mut library = Library::new();
    library.insert(
        "content/posts/hello.md".to_string(),
        Page::from_string("---\ntitle: \"Hello\"\n---\n\nHi\n").unwrap(),
    );
    library.insert(
        "content/posts/world.md".to_string(),
        Page::from_string("# World\n").unwrap(),
    );
    library.insert(
        "content/about.md".to_string(),
        Page::from_string("# About\n").unwrap(),
    );
    AppConfig {
        folder: "".to_string(),
        project_config: ProjectConfig { project: None, nav: None },
        library,
    }
}

#[test]
fn test_overlay_layout_precedence() {
    // a directory overlay that sets `layout` overrides the default
    let config = sample_config();
    let plan = render_plan(
        &config,
        "content/posts/hello.md",
        Some("layout: \"special.html\"\nbanner: big\n"),
    )
    .unwrap();
    assert_eq!(plan.template, "special.html");
    // every overlay key is passed through to the context
    assert_eq!(plan.extra.len(), 2);
}

#[test]
fn test_default_layout() {
    let config = sample_config();
    let plan = render_plan(&config, "content/posts/hello.md", None).unwrap();
    assert_eq!(plan.template, "layout.html");
    assert!(plan.extra.is_empty());
    assert_eq!(plan.path, "/posts/hello");
}

#[test]
fn test_render_plan_nav() {
    let config = sample_config();
    let plan = render_plan(&config, "content/posts/hello.md", None).unwrap();
    let mut nav: Vec<(String, String)> =
        plan.nav.iter().map(|n| (n.url.clone(), n.title.clone())).collect();
    nav.sort();
    assert_eq!(
        nav,
        vec![
            ("/posts/hello".to_string(), "Hello".to_string()),
            ("/posts/world".to_string(), "World".to_string()),
        ]
    );
}

#[test]
fn test_render_plan_unknown_page() {
    let config = sample_config();
    let r = render_plan(&config, "content/posts/missing.md", None);
    assert!(matches!(r, Err(RenderFailure::UnknownPage)));
}

#[test]
fn test_render_plan_bad_overlay() {
    let config = sample_config();
    let r = render_plan(&config, "content/posts/hello.md", Some("]["));
    assert!(matches!(r, Err(RenderFailure::BadOverlay)));
    // a non-string overlay key fails the overlay too
    let r = render_plan(&config, "content/posts/hello.md", Some("1: x"));
    assert!(matches!(r, Err(RenderFailure::BadOverlay)));
}

#[test]
fn test_apply_base_url() {
    assert_eq!(apply_base_url("/assets/x.css", "/mysite", Mode::Build), "/mysite/assets/x.css");
    assert_eq!(apply_base_url("/assets/x.css", "/mysite", Mode::Serve), "/assets/x.css");
}

#[test]
fn test_site_nav_filters_by_directory() {
    let config = sample_config();
    let nav = site_nav(&config.library, "content/posts", "");
    assert_eq!(nav.len(), 2);
    let all = site_nav(&config.library, "content", "");
    assert_eq!(all.len(), 3);
}

#[test]
fn test_library_get_and_replace() {
    let mut library = Library::new();
    library.insert(
        "content/a.md".to_string(),
        Page::from_string("# One\n").unwrap(),
    );
    library.insert(
        "content/a.md".to_string(),
        Page::from_string("# Two\n").unwrap(),
    );
    assert_eq!(library.len(), 1);
    let page = library.get("content/a.md").unwrap();
    assert_eq!(page.frontmatter.title, Some("Two".to_string()));
    assert!(library.get("content/b.md").is_none());
}

#[test]
fn test_assemble_library() {
    let files = vec![
        ("content/a.md".to_string(), "# A\n".to_string()),
        ("content/notes.txt".to_string(), "not a page".to_string()),
        ("content/sub/b.md".to_string(), "# B\n".to_string()),
    ];
    let lib = ferrocyanide::library::assemble_library(&files).unwrap();
    assert_eq!(lib.len(), 2);
    assert!(lib.get("content/a.md").is_some());
    assert!(lib.get("content/notes.txt").is_none());
    assert!(lib.get("content/sub/b.md").is_some());
}

#[test]
fn test_select_template_from() {
    assert_eq!(select_template_from(&vec![]), "layout.html");
    assert_eq!(
        select_template_from(&vec![("banner".to_string(), Some("big".to_string()))]),
        "layout.html"
    );
    assert_eq!(
        select_template_from(&vec![("layout".to_string(), Some("special.html".to_string()))]),
        "special.html"
    );
    // a non-string `layout` value keeps the default
    assert_eq!(select_template_from(&vec![("layout".to_string(), None)]), "layout.html");
}
