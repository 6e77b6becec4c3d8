use belong::config::Config;
use belong::front_matter::FrontMatter;
use belong::line_range::LineRange;
use belong::page::Page;
use belong::preprocess::find_directives;

fn page_with(path: &str, contents: &str) -> Page {
    Page {
        path: path.to_string(),
        front_matter: FrontMatter::default(),
        contents: contents.to_string(),
    }
}

#[test]
fn find_directives_parses_spans_and_ranges() {
    let contents = "a\n{{#include ../listing.rs:3:5}}\nb";
    let (dirs, warns) = find_directives(contents);
    assert_eq!(dirs.len(), 1);
    assert_eq!(dirs[0].inc.path, "../listing.rs");
    assert_eq!(dirs[0].inc.line_range, LineRange::Range { start: 2, end: 5 });
    assert_eq!(dirs[0].start, 2);
    assert_eq!(dirs[0].end, 32);
    assert_eq!(warns.len(), 0);
}

#[test]
fn find_directives_tolerates_whitespace() {
    let contents = "{{  #include   listing.rs  }}";
    let (dirs, warns) = find_directives(contents);
    assert_eq!(dirs.len(), 1);
    assert_eq!(dirs[0].inc.path, "listing.rs");
    assert_eq!(dirs[0].inc.line_range, LineRange::RangeFull);
    assert_eq!(warns.len(), 0);
}

#[test]
fn find_directives_warns_on_unrecognized_name() {
    let (dirs, warns) = find_directives("x {{ #other arg }} y");
    assert_eq!(dirs.len(), 0);
    assert_eq!(warns.len(), 1);
    assert_eq!(warns[0], "unrecognized directive `other`");
}

#[test]
fn find_directives_warns_on_bad_line_numbers() {
    let (dirs, warns) = find_directives("{{ #include f.rs:bad }}");
    assert_eq!(dirs.len(), 0);
    assert_eq!(warns.len(), 1);
    assert_eq!(
        warns[0],
        "failed to parse include directive `{{ #include f.rs:bad }}`"
    );
}

#[test]
fn page_preprocess() {
    let config = Config::from_text("root".to_string(), None).unwrap();
    let page_contents = "\n\n```rust\n{{#include ../listing.rs:3:5}}\n```\n";
    let page = page_with("page.md", page_contents);
    let wanted = page.include_paths(&config);
    assert_eq!(wanted, vec!["root/src/../listing.rs".to_string()]);
    let listing = "\n\nfn main() {\n    println!(\"Hello World!\");\n}\n\n";
    let reads = vec![Ok(listing.to_string())];
    let page = page.preprocess(&config, &reads).unwrap();
    assert_eq!(
        page.contents,
        "\n\n```rust\nfn main() {\n    println!(\"Hello World!\");\n}\n```\n"
    );
}

#[test]
fn page_preprocess_keeps_malformed_directive_text() {
    let config = Config::from_text("r".to_string(), None).unwrap();
    let contents = "a {{ #include f.rs:bad }} b {{ #other x }} c";
    let page = page_with("p.md", contents);
    assert_eq!(page.include_paths(&config).len(), 0);
    let page = page.preprocess(&config, &Vec::new()).unwrap();
    assert_eq!(page.contents, contents);
}

#[test]
fn page_preprocess_unreadable_file_is_fatal() {
    let config = Config::from_text("r".to_string(), None).unwrap();
    let page = page_with("sub/p.md", "{{ #include f.rs }}");
    let reads = vec![Err("No such file or directory (os error 2)".to_string())];
    let err = page.preprocess(&config, &reads).unwrap_err();
    assert_eq!(err.chain()[0], "failed to preprocess page `sub/p.md`");
    assert_eq!(err.chain()[1], "failed to read from `r/src/sub/f.rs`");
    assert_eq!(err.chain()[2], "No such file or directory (os error 2)");
}

#[test]
fn page_preprocess_multiple_directives_in_order() {
    let config = Config::from_text("r".to_string(), None).unwrap();
    let contents = "[{{ #include a.txt:1 }}|{{ #include b.txt:2 }}]";
    let page = page_with("p.md", contents);
    let reads = vec![
        Ok("a1\na2".to_string()),
        Ok("b1\nb2".to_string()),
    ];
    let page = page.preprocess(&config, &reads).unwrap();
    assert_eq!(page.contents, "[a1|b2]");
}
