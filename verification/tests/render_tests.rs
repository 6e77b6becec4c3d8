use belong::builder::Builder;
use belong::config::Config;
use belong::date::Date;
use belong::project::Project;
use belong::renderer::{Renderer, fix_markdown_url};
use belong::theme::{DEFAULT_BASE, DEFAULT_CSS, DEFAULT_INDEX, Theme, ThemeDir};

#[test]
fn theme_from_path_overrides_only_present_files() {
    let dir = ThemeDir {
        base: None,
        index: None,
        page: Some("override".to_string()),
        custom_css: None,
    };
    let theme = Theme::from_path(dir);
    assert_eq!(theme.templates.len(), 3);
    assert_eq!(theme.templates[0].name, "base.html");
    assert_eq!(theme.templates[0].contents, DEFAULT_BASE);
    assert_eq!(theme.templates[1].name, "index.html");
    assert_eq!(theme.templates[1].contents, DEFAULT_INDEX);
    assert_eq!(theme.templates[2].name, "page.html");
    assert_eq!(theme.templates[2].contents, "override");
    assert_eq!(theme.stylesheets.len(), 1);
    assert_eq!(theme.stylesheets[0].path, "css/custom.css");
    assert_eq!(theme.stylesheets[0].contents, DEFAULT_CSS);
}

#[test]
fn empty_project_renders_index_and_stylesheet() {
    let config = Config::from_text("root".to_string(), None).unwrap();
    let theme = Theme::from_path(ThemeDir::empty());
    let project = Project::assemble(config, theme, Vec::new()).unwrap();
    let output = project.render().unwrap();
    assert_eq!(output.files().len(), 2);
    assert_eq!(output.files()[0].path, "index.html");
    assert_eq!(output.files()[1].path, "css/custom.css");
    assert_eq!(output.files()[1].contents, DEFAULT_CSS);
    assert_eq!(output.config().output_dir(), "root/output");
}

#[test]
fn bad_page_metadata_fails_with_line_and_column() {
    let config = Config::from_text("root".to_string(), None).unwrap();
    let theme = Theme::from_path(ThemeDir::empty());
    let raw_pages = vec![(
        "test.md".to_string(),
        "\n+++\nbad toml\n+++\ntesting...\n".to_string(),
    )];
    let err = Project::assemble(config, theme, raw_pages).unwrap_err();
    assert_eq!(err.chain()[0], "failed to load page `root/src/test.md`");
    assert_eq!(err.chain()[1], "failed to parse file contents");
    assert_eq!(err.chain()[2], "failed to parse front matter");
    let detail = &err.chain()[3];
    assert!(detail.contains("line 2"), "{}", detail);
    assert!(detail.contains("column"), "{}", detail);
    let described = err.describe();
    assert!(described.contains("failed to load page `root/src/test.md`"));
    assert!(described.contains("Caused by:"));
}

#[test]
fn pages_render_to_their_urls_with_markdown_html() {
    let config = Config::from_text("root".to_string(), None).unwrap();
    let theme = Theme::from_path(ThemeDir::empty());
    let raw_pages = vec![
        (
            "sub/post.md".to_string(),
            "+++\ntitle = \"P\"\n+++\n# Heading\n\nSee [next](other.md#top).\n".to_string(),
        ),
        ("top.md".to_string(), "plain *text*\n".to_string()),
    ];
    let project = Project::assemble(config, theme, raw_pages).unwrap();
    let output = project.render().unwrap();
    assert_eq!(output.files().len(), 4);
    assert_eq!(output.files()[0].path, "sub/post.html");
    assert_eq!(output.files()[1].path, "top.html");
    assert_eq!(output.files()[2].path, "index.html");
    assert_eq!(output.files()[3].path, "css/custom.css");
    let post = &output.files()[0].contents;
    assert!(post.contains("<h1>Heading</h1>"), "{}", post);
    assert!(post.contains("other.html#top"), "{}", post);
    assert!(post.contains("../"), "{}", post);
    let index = &output.files()[2].contents;
    assert!(index.contains("sub/post.html"), "{}", index);
    assert!(index.contains("top.html"), "{}", index);
}

#[test]
fn markdown_renderer_produces_html() {
    let html = Renderer::new("some *emphasis*").render();
    assert!(html.contains("<em>emphasis</em>"), "{}", html);
}

#[test]
fn markdown_url_rewriting() {
    assert_eq!(
        fix_markdown_url("path/to/file.md#heading"),
        Some("path/to/file.html#heading".to_string())
    );
    assert_eq!(
        fix_markdown_url("path/to/file.md"),
        Some("path/to/file.html".to_string())
    );
    assert_eq!(fix_markdown_url("https://host/page.html"), None);
}

#[test]
fn builder_init_plans_the_project_files() {
    let today = Date {
        year: 2020,
        month: 3,
        day: 21,
    };
    let files = Builder::new("root".to_string())
        .title("My Blog".to_string())
        .author("Me".to_string())
        .init(&today)
        .unwrap();
    assert_eq!(files.len(), 3);
    assert_eq!(files[0].0, ".gitignore");
    assert_eq!(files[0].1, "public\n");
    assert_eq!(files[1].0, "belong.toml");
    assert!(files[1].1.contains("My Blog"), "{}", files[1].1);
    assert!(files[1].1.contains("Me"), "{}", files[1].1);
    assert_eq!(files[2].0, "src/hello-world.md");
    assert!(files[2].1.starts_with("+++\n"), "{}", files[2].1);
    assert!(files[2].1.contains("2020-03-21"), "{}", files[2].1);
    assert!(files[2].1.contains("Hello World!"), "{}", files[2].1);
}

#[test]
fn builder_without_gitignore() {
    let today = Date {
        year: 2020,
        month: 3,
        day: 21,
    };
    let files = Builder::new("root".to_string())
        .gitignore(false)
        .init(&today)
        .unwrap();
    assert_eq!(files.len(), 2);
    assert_eq!(files[0].0, "belong.toml");
    assert_eq!(files[1].0, "src/hello-world.md");
}

#[test]
fn project_preprocess_runs_every_page() {
    let config = Config::from_text("root".to_string(), None).unwrap();
    let theme = Theme::from_path(ThemeDir::empty());
    let raw_pages = vec![(
        "p.md".to_string(),
        "before {{ #include f.txt }} after".to_string(),
    )];
    let project = Project::assemble(config, theme, raw_pages).unwrap();
    let requests = project.include_requests();
    assert_eq!(requests.len(), 1);
    assert_eq!(requests[0], vec!["root/src/f.txt".to_string()]);
    let reads = vec![vec![Ok("inserted".to_string())]];
    let project = project.preprocess(&reads).unwrap();
    assert_eq!(project.pages()[0].contents, "before inserted after");
}

#[test]
fn broken_template_override_fails_registration() {
    let config = Config::from_text("root".to_string(), None).unwrap();
    let dir = ThemeDir {
        base: None,
        index: None,
        page: Some("{% block content %}{% bad".to_string()),
        custom_css: None,
    };
    let theme = Theme::from_path(dir);
    let project = Project::assemble(config, theme, Vec::new()).unwrap();
    let err = project.render().unwrap_err();
    assert_eq!(err.chain()[0], "failed to render project");
    assert_eq!(err.chain()[1], "failed to register templates");
}

#[test]
fn parent_relative_page_path_is_rejected() {
    let config = Config::from_text("root".to_string(), None).unwrap();
    let theme = Theme::from_path(ThemeDir::empty());
    let raw_pages = vec![("../escape.md".to_string(), "x".to_string())];
    let err = Project::assemble(config, theme, raw_pages).unwrap_err();
    assert_eq!(err.chain()[0], "failed to load page `root/src/../escape.md`");
    assert_eq!(err.chain()[1], "invalid page path");
}
