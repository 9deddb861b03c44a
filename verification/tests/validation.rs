use hunming::error::HunmingError;
use hunming::install::{add, remove};
use hunming::model::{Alias, Config};
use hunming::validation::{validate_alias, validate_alias_name, validate_config};

fn strings(items: &[&str]) -> Vec<String> {
    items.iter().map(|s| s.to_string()).collect()
}

fn config_with(name: &str, alias: Alias) -> Config {
    let mut config = Config::new(1);
    config.insert(name.to_string(), alias);
    config
}

#[test]
fn rejects_invalid_alias_names_on_save() {
    let config = config_with(
        "1bad",
        Alias {
            command: strings(&["git", "status"]),
            tags: strings(&["git"]),
            ..Alias::default()
        },
    );

    let error = validate_config(&config).expect_err("save should reject invalid names");

    assert!(error.message().contains("invalid alias name"));
}

#[test]
fn rejects_empty_aliases_on_save() {
    let config = config_with("empty", Alias::default());

    let error = validate_config(&config).expect_err("save should reject empty aliases");

    assert!(error.message().contains("must define command, bash, or powershell"));
}

#[test]
fn rejects_invalid_aliases_on_load() {
    let config = config_with(
        "1bad",
        Alias { command: strings(&["git", "status"]), ..Alias::default() },
    );

    let error = validate_config(&config).expect_err("load should reject invalid names");

    assert!(error.message().contains("invalid alias name"));
}

#[test]
fn rejects_empty_aliases_on_load() {
    let config = config_with("empty", Alias::default());

    let error = validate_config(&config).expect_err("load should reject empty aliases");

    assert!(error.message().contains("must define command, bash, or powershell"));
}

#[test]
fn add_rejects_invalid_alias_name() {
    let mut config = Config::new(1);

    let error = add(
        &mut config,
        "1bad".to_string(),
        None,
        None,
        None,
        Vec::new(),
        strings(&["git", "status"]),
        false,
    )
    .expect_err("add should reject invalid names");

    assert!(error.message().contains("invalid alias name"));
    assert!(config.is_empty());
}

#[test]
fn rejects_invalid_tags_on_save() {
    let config = config_with(
        "gs",
        Alias { command: strings(&["git", "status"]), tags: strings(&[""]), ..Alias::default() },
    );

    let error = validate_config(&config).expect_err("save should reject empty tags");

    assert!(error.message().contains("empty tag"));
}

#[test]
fn remove_rejects_invalid_alias_name() {
    let mut config = Config::new(1);

    let error = remove(&mut config, "1bad").expect_err("remove should reject invalid names");

    assert!(error.message().contains("invalid alias name"));
}

#[test]
fn alias_names_follow_the_pattern() {
    for good in ["a", "_", "gs", "Git_co-2", "_x-"] {
        assert!(validate_alias_name(good).is_ok(), "{good}");
    }
    for bad in ["", "1a", "-a", "a b", "a.b", "ä", "a/b"] {
        assert_eq!(
            validate_alias_name(bad),
            Err(HunmingError::InvalidAliasName { name: bad.to_string() }),
            "{bad}"
        );
    }
}

#[test]
fn each_tag_error_is_reported_with_its_message() {
    let base = Alias { command: strings(&["ls"]), ..Alias::default() };
    let spaced = Alias { tags: strings(&[" git"]), ..base.clone() };
    let error = validate_alias("ls", &spaced).expect_err("whitespace tags are refused");
    assert_eq!(error.message(), "alias `ls` has a tag with surrounding whitespace: ` git`");
    let twice = Alias { tags: strings(&["git", "x", "git"]), ..base.clone() };
    let error = validate_alias("ls", &twice).expect_err("repeated tags are refused");
    assert_eq!(error.message(), "alias `ls` has duplicate tag `git`");
    let blank = Alias { tags: strings(&["  "]), ..base.clone() };
    assert_eq!(
        validate_alias("ls", &blank),
        Err(HunmingError::EmptyTag { name: "ls".to_string() })
    );
    assert!(validate_alias("ls", &Alias { tags: strings(&["a", "b"]), ..base }).is_ok());
}

#[test]
fn whitespace_only_shell_bodies_define_nothing() {
    let alias = Alias {
        bash: Some("   ".into()),
        powershell: Some("\t".into()),
        ..Alias::default()
    };
    assert_eq!(
        validate_alias("x", &alias),
        Err(HunmingError::EmptyAlias { name: "x".to_string() })
    );
    assert!(validate_alias("x", &Alias { bash: Some(" ls ".into()), ..Alias::default() }).is_ok());
}

#[test]
fn first_problem_in_name_order_is_reported() {
    let mut config = Config::new(1);
    config.insert("zz".to_string(), Alias::default());
    config.insert("aa".to_string(), Alias { tags: strings(&[""]), ..Alias::default() });
    assert_eq!(
        validate_config(&config),
        Err(HunmingError::EmptyAlias { name: "aa".to_string() })
    );
    assert!(validate_config(&Config::new(1)).is_ok());
}
