use belong::front_matter::FrontMatter;
use belong::page::Page;

fn page_at(path: &str) -> Page {
    Page {
        path: path.to_string(),
        front_matter: FrontMatter::default(),
        contents: String::new(),
    }
}

#[test]
fn project_page_url_path_multi_dir() {
    let page = page_at("path/segment/index.html");
    assert_eq!(page.url_path(), "path/segment/index.html");
}

#[test]
fn theme_page_url_path_multi_dir() {
    let page = page_at("path/segment/index.html");
    assert_eq!(page.url_path(), "path/segment/index.html");
}

#[test]
fn project_page_url_path_no_dir() {
    let page = page_at("index.html");
    assert_eq!(page.url_path(), "index.html");
}

#[test]
fn theme_page_url_path_no_dir() {
    let page = page_at("index.html");
    assert_eq!(page.url_path(), "index.html");
}

#[test]
fn project_page_url_path_to_root_no_dir() {
    let page = page_at("index.html");
    assert_eq!(page.url_path_to_root(), "");
}

#[test]
fn theme_page_url_path_to_root_no_dir() {
    let page = page_at("index.html");
    assert_eq!(page.url_path_to_root(), "");
}

#[test]
fn project_page_url_path_to_root_multi_dir() {
    let page = page_at("path/segment/index.html");
    assert_eq!(page.url_path_to_root(), "../../");
}

#[test]
fn theme_page_url_path_to_root_multi_dir() {
    let page = page_at("path/segment/index.html");
    assert_eq!(page.url_path_to_root(), "../../");
}

#[test]
fn page_url_path_swaps_markdown_extension() {
    assert_eq!(page_at("index.md").url_path(), "index.html");
    assert_eq!(
        page_at("path/segment/index.md").url_path(),
        "path/segment/index.html"
    );
    assert_eq!(page_at("no-extension").url_path(), "no-extension.html");
    assert_eq!(page_at(".gitignore").url_path(), ".gitignore.html");
}
