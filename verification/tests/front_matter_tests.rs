use belong::date::Date;
use belong::front_matter::{FrontMatter, RawPage};
use belong::toml_data::TomlLeaf;

#[test]
fn app_raw_page_from_str_empty() {
    let raw_page = RawPage::from_str("").unwrap();
    assert_eq!(raw_page, RawPage::default());
}

#[test]
fn project_raw_page_from_str_empty() {
    let raw_page = RawPage::from_str("").unwrap();
    assert_eq!(raw_page, RawPage::default());
}

#[test]
fn app_raw_page_from_str_no_front_matter() {
    let raw_page = RawPage::from_str("testing...").unwrap();
    assert_eq!(
        raw_page,
        RawPage {
            contents: "testing...".to_string(),
            ..Default::default()
        }
    );
}

#[test]
fn project_raw_page_from_str_no_front_matter() {
    let raw_page = RawPage::from_str("testing...").unwrap();
    assert_eq!(
        raw_page,
        RawPage {
            contents: "testing...".to_string(),
            ..Default::default()
        }
    );
}

#[test]
fn app_raw_page_from_str_empty_front_matter() {
    let contents = "\n+++\n+++\ntesting...\n";
    let raw_page = RawPage::from_str(contents).unwrap();
    assert_eq!(
        raw_page,
        RawPage {
            contents: "testing...\n".to_string(),
            ..Default::default()
        }
    );
}

#[test]
fn project_raw_page_from_str_empty_front_matter() {
    let contents = "\n+++\n+++\ntesting...\n";
    let raw_page = RawPage::from_str(contents).unwrap();
    assert_eq!(
        raw_page,
        RawPage {
            contents: "testing...\n".to_string(),
            ..Default::default()
        }
    );
}

#[test]
fn app_raw_page_from_str_basic_front_matter() {
    let contents = "\n+++\ntitle = \"Hello World!\"\ndate = \"2020-03-21\"\n+++\ntesting...\n";
    let raw_page = RawPage::from_str(contents).unwrap();
    assert_eq!(
        raw_page,
        RawPage {
            contents: "testing...\n".to_string(),
            front_matter: FrontMatter {
                title: Some("Hello World!".to_string()),
                date: Some(Date {
                    year: 2020,
                    month: 3,
                    day: 21,
                }),
                ..Default::default()
            }
        }
    );
}

#[test]
fn project_raw_page_from_str_basic_front_matter() {
    let contents = "\n+++\ntitle = \"Hello World!\"\ndate = \"2020-03-21\"\n+++\ntesting...\n";
    let raw_page = RawPage::from_str(contents).unwrap();
    assert_eq!(
        raw_page,
        RawPage {
            contents: "testing...\n".to_string(),
            front_matter: FrontMatter {
                title: Some("Hello World!".to_string()),
                date: Some(Date {
                    year: 2020,
                    month: 3,
                    day: 21,
                }),
                ..Default::default()
            }
        }
    );
}

#[test]
fn app_raw_page_from_str_extra_front_matter() {
    let contents = "\n+++\ntitle = \"Hello World!\"\ndescription = \"My first post!\"\ndate = \"2020-03-21\"\ntesting_int = 5\ntesting_str = \"hello\"\n+++\ntesting...\n";
    let raw_page = RawPage::from_str(contents).unwrap();
    assert_eq!(
        raw_page,
        RawPage {
            contents: "testing...\n".to_string(),
            front_matter: FrontMatter {
                title: Some("Hello World!".to_string()),
                description: Some("My first post!".to_string()),
                date: Some(Date {
                    year: 2020,
                    month: 3,
                    day: 21,
                }),
                kind: None,
                rest: vec![
                    (
                        "testing_int".to_string(),
                        TomlLeaf::Other(toml::Value::Integer(5))
                    ),
                    ("testing_str".to_string(), TomlLeaf::Text("hello".to_string())),
                ],
            }
        }
    );
}

#[test]
fn project_raw_page_from_str_extra_front_matter() {
    let contents = "\n+++\ntitle = \"Hello World!\"\ndescription = \"My first post!\"\ndate = \"2020-03-21\"\ntesting_int = 5\ntesting_str = \"hello\"\n+++\ntesting...\n";
    let raw_page = RawPage::from_str(contents).unwrap();
    assert_eq!(
        raw_page,
        RawPage {
            contents: "testing...\n".to_string(),
            front_matter: FrontMatter {
                title: Some("Hello World!".to_string()),
                description: Some("My first post!".to_string()),
                date: Some(Date {
                    year: 2020,
                    month: 3,
                    day: 21,
                }),
                kind: None,
                rest: vec![
                    (
                        "testing_int".to_string(),
                        TomlLeaf::Other(toml::Value::Integer(5))
                    ),
                    ("testing_str".to_string(), TomlLeaf::Text("hello".to_string())),
                ],
            }
        }
    );
}

#[test]
fn raw_page_from_str_wrong_title_type() {
    let err = RawPage::from_str("+++\ntitle = 5\n+++\nx").unwrap_err();
    assert_eq!(err.chain()[0], "failed to parse front matter");
    assert_eq!(err.chain()[1], "invalid type for key `title`");
}

#[test]
fn raw_page_from_str_bad_date() {
    let err = RawPage::from_str("+++\ndate = \"2021-02-29\"\n+++\nx").unwrap_err();
    assert_eq!(err.chain()[0], "failed to parse front matter");
    assert_eq!(err.chain()[1], "invalid date for key `date`");
}

#[test]
fn raw_page_from_str_embedded_delimiters_stay_in_body() {
    // plus-sign triples inside the metadata body do not close it early:
    // the last closing delimiter wins
    let contents = "+++\ntitle = \"a\"\n+++\nmiddle\n+++\ntail";
    let raw_page = RawPage::from_str(contents).unwrap_err();
    // the body up to the *last* `+++` line is metadata, and `title = "a"
    // +++ middle` is not valid TOML
    assert_eq!(raw_page.chain()[0], "failed to parse front matter");
}

#[test]
fn front_matter_round_trip() {
    let make = || FrontMatter {
        title: Some("Hello World!".to_string()),
        description: Some("desc".to_string()),
        date: Some(Date {
            year: 2020,
            month: 3,
            day: 2,
        }),
        kind: Some("post".to_string()),
        rest: vec![
            (
                "testing_int".to_string(),
                TomlLeaf::Other(toml::Value::Integer(5)),
            ),
            ("testing_str".to_string(), TomlLeaf::Text("hello".to_string())),
        ],
    };
    let page = RawPage {
        front_matter: make(),
        contents: "testing...\n".to_string(),
    };
    let text = page.to_text().unwrap();
    let reparsed = RawPage::from_str(&text).unwrap();
    assert_eq!(reparsed.front_matter, make());
    assert_eq!(reparsed.contents, "testing...\n");
}

#[test]
fn date_parse_and_format() {
    assert_eq!(
        Date::parse("2020-03-21"),
        Some(Date {
            year: 2020,
            month: 3,
            day: 21,
        })
    );
    assert_eq!(
        Date::parse("2020-03-2"),
        Some(Date {
            year: 2020,
            month: 3,
            day: 2,
        })
    );
    assert_eq!(Date::parse("2020-02-29").map(|d| d.day), Some(29));
    assert_eq!(Date::parse("2021-02-29"), None);
    assert_eq!(Date::parse("2020-13-01"), None);
    assert_eq!(Date::parse("2020-00-01"), None);
    assert_eq!(Date::parse("2020-03"), None);
    assert_eq!(Date::parse("not a date"), None);
    assert_eq!(
        Date {
            year: 2020,
            month: 3,
            day: 2,
        }
        .format(),
        "2020-03-02"
    );
}
