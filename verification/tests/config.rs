use hunming::block::profile_update;
use hunming::config::{default_config, merge_extra_files, render_template, resolve_extra_path};
use hunming::error::HunmingError;
use hunming::install::bash_managed_block;
use hunming::model::{Alias, Config};

fn command_alias(words: &[&str], tags: &[&str]) -> Alias {
    Alias {
        command: words.iter().map(|s| s.to_string()).collect(),
        tags: tags.iter().map(|s| s.to_string()).collect(),
        ..Alias::default()
    }
}

fn config_of(entries: Vec<(&str, Alias)>) -> Config {
    let mut config = Config::new(1);
    for (name, alias) in entries {
        config.insert(name.to_string(), alias);
    }
    config
}

#[test]
fn default_config_is_minimal() {
    let config = default_config();

    assert_eq!(config.version, 1);
    assert!(config.is_empty());
    assert_eq!(config, Config::default());
}

#[test]
fn load_config_expands_includes_from_relative_files() {
    let root = config_of(vec![("root", command_alias(&["git", "status"], &["git"]))]);
    let shared = config_of(vec![("shared", command_alias(&["git", "checkout"], &["git"]))]);
    let more = config_of(vec![(
        "more",
        Alias { bash: Some("ls -lah".into()), tags: vec!["files".into()], ..Alias::default() },
    )]);

    let config = merge_extra_files(root, vec![shared, more]).expect("config should load");

    assert_eq!(config.get("root").expect("root").command, vec!["git", "status"]);
    assert_eq!(config.get("root").expect("root").tags, vec!["git"]);
    assert_eq!(config.get("shared").expect("shared").command, vec!["git", "checkout"]);
    assert_eq!(config.get("shared").expect("shared").tags, vec!["git"]);
    assert_eq!(config.get("more").expect("more").bash.as_deref(), Some("ls -lah"));
    assert_eq!(config.get("more").expect("more").tags, vec!["files"]);
    assert_eq!(config.len(), 3);
}

#[test]
fn load_config_rejects_duplicate_aliases_across_includes() {
    let root = config_of(vec![("root", command_alias(&["git", "status"], &[]))]);
    let shared = config_of(vec![("root", command_alias(&["git", "checkout"], &[]))]);

    let error = merge_extra_files(root, vec![shared]).expect_err("config should reject duplicates");

    assert!(error.message().contains("defined more than once"));
}

#[test]
fn duplicates_between_extra_files_are_refused_too() {
    let root = Config::new(1);
    let a = config_of(vec![("x", command_alias(&["a"], &[]))]);
    let b = config_of(vec![("y", command_alias(&["b"], &[])), ("x", command_alias(&["c"], &[]))]);
    assert_eq!(
        merge_extra_files(root, vec![a, b]),
        Err(HunmingError::DefinedMoreThanOnce { name: "x".to_string() })
    );
}

#[test]
fn merged_configuration_keeps_the_root_version() {
    let root = Config::new(3);
    let merged = merge_extra_files(root, Vec::new()).expect("nothing to merge");
    assert_eq!(merged.version, 3);
    assert!(merged.is_empty());
}

#[test]
fn extra_files_are_found_beside_the_configuration() {
    assert_eq!(resolve_extra_path("/cfg/hunming", "shared.toml"), "/cfg/hunming/shared.toml");
    assert_eq!(resolve_extra_path("/cfg/hunming", "sub/more.toml"), "/cfg/hunming/sub/more.toml");
    assert_eq!(resolve_extra_path("/cfg/hunming", "/etc/aliases.toml"), "/etc/aliases.toml");
}

#[test]
fn template_is_a_versioned_aliases_file() {
    let template = render_template();
    assert!(template.contains("version = 1\n"));
    assert!(template.contains("[aliases.gs]\n"));
    assert!(template.contains("command = [\"git\", \"status\", \"--short\"]\n"));
    assert!(template.ends_with('\n'));
}

#[test]
fn unchanged_profiles_are_not_rewritten() {
    let block = bash_managed_block("/g/bash.sh");
    let once = profile_update("export A=1\n", &block).expect("the block is added");
    assert_eq!(once, format!("export A=1\n\n{block}"));
    assert_eq!(profile_update(&once, &block), None);
}
