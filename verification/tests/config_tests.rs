use belong::config::{Config, ProjectConfig, RawConfig};
use belong::toml_data::TomlLeaf;

fn parse_config(content: &str) -> RawConfig {
    Config::from_text(String::new(), Some(&content.to_string()))
        .unwrap()
        .inner
}

fn default_raw() -> RawConfig {
    RawConfig {
        project: ProjectConfig {
            title: None,
            authors: None,
        },
        rest: Vec::new(),
    }
}

#[test]
fn raw_config_from_str_empty() {
    assert_eq!(parse_config(""), default_raw());
}

#[test]
fn raw_config_from_str_project() {
    let content = "\n            [project]\n            title = \"My Blog\"\n        ";
    assert_eq!(
        parse_config(content),
        RawConfig {
            project: ProjectConfig {
                title: Some("My Blog".to_string()),
                authors: None,
            },
            ..default_raw()
        }
    );
}

#[test]
fn raw_config_from_str_rest() {
    let content = "\n            [plugin]\n            another = 5\n        ";
    let mut plugin = toml::Table::new();
    plugin.insert("another".to_string(), toml::Value::Integer(5));
    assert_eq!(
        parse_config(content),
        RawConfig {
            rest: vec![(
                "plugin".to_string(),
                TomlLeaf::Other(toml::Value::Table(plugin))
            )],
            ..default_raw()
        }
    );
}

#[test]
fn raw_config_from_str_both() {
    let content = "\n            [project]\n            title = \"My Blog\"\n\n            [plugin]\n            another = 5\n        ";
    let mut plugin = toml::Table::new();
    plugin.insert("another".to_string(), toml::Value::Integer(5));
    assert_eq!(
        parse_config(content),
        RawConfig {
            project: ProjectConfig {
                title: Some("My Blog".to_string()),
                authors: None,
            },
            rest: vec![(
                "plugin".to_string(),
                TomlLeaf::Other(toml::Value::Table(plugin))
            )],
        }
    );
}

#[test]
fn config_missing_file_is_default() {
    let config = Config::from_text("root".to_string(), None).unwrap();
    assert_eq!(config.inner, default_raw());
    assert_eq!(config.root_dir(), "root");
    assert_eq!(config.src_dir(), "root/src");
    assert_eq!(config.theme_dir(), "root/theme");
    assert_eq!(config.output_dir(), "root/output");
    assert_eq!(config.path(), "root/belong.toml");
}

#[test]
fn config_bad_file_is_fatal() {
    let err = Config::from_text("root".to_string(), Some(&"very bad toml".to_string()))
        .unwrap_err();
    assert_eq!(err.chain()[0], "failed to load config file `root/belong.toml`");
    assert_eq!(err.chain()[1], "failed to parse file contents");
    assert!(err.chain()[2].contains("line 1"));
}

#[test]
fn config_authors_parse_and_round_trip() {
    let content = "[project]\ntitle = \"T\"\nauthors = [\"a\", \"b\"]\n\n[plugin]\nx = true\n";
    let config = Config::from_text("r".to_string(), Some(&content.to_string())).unwrap();
    assert_eq!(
        config.inner.project.authors,
        Some(vec!["a".to_string(), "b".to_string()])
    );
    let text = config.to_toml_text().unwrap();
    let reparsed = Config::from_text("r".to_string(), Some(&text)).unwrap();
    assert_eq!(
        reparsed.inner,
        RawConfig {
            project: ProjectConfig {
                title: Some("T".to_string()),
                authors: Some(vec!["a".to_string(), "b".to_string()]),
            },
            rest: {
                let mut plugin = toml::Table::new();
                plugin.insert("x".to_string(), toml::Value::Boolean(true));
                vec![("plugin".to_string(), TomlLeaf::Other(toml::Value::Table(plugin)))]
            },
        }
    );
}

#[test]
fn config_wrong_authors_type_is_fatal() {
    let content = "[project]\nauthors = \"a\"\n";
    let err = Config::from_text("r".to_string(), Some(&content.to_string())).unwrap_err();
    assert!(err
        .chain()
        .iter()
        .any(|m| m == "invalid type for key `authors`"));
}
