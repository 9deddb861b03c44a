use hunming::error::HunmingError;
use hunming::model::{Alias, Config, Platform, Profile};

#[test]
fn current_platform_follows_the_operating_system_name() {
    assert_eq!(Platform::current("windows"), Platform::Windows);
    assert_eq!(Platform::current("macos"), Platform::Macos);
    assert_eq!(Platform::current("linux"), Platform::Linux);
    assert_eq!(Platform::current("freebsd"), Platform::Linux);
}

#[test]
fn platform_and_profile_rules() {
    let any = Alias::default();
    assert!(any.is_active_for_current_platform(Platform::Windows));
    assert!(any.is_active_for_profile(Some(Profile::Work)));
    let mac = Alias { platforms: vec![Platform::Macos, Platform::Linux], ..Alias::default() };
    assert!(mac.is_active_for_current_platform(Platform::Linux));
    assert!(!mac.is_active_for_current_platform(Platform::Windows));
    let work = Alias { profile: Some(Profile::Work), ..Alias::default() };
    assert!(work.is_active_for_profile(None));
    assert!(work.is_active_for_profile(Some(Profile::Work)));
    assert!(!work.is_active_for_profile(Some(Profile::Personal)));
}

#[test]
fn default_alias_forwards_arguments() {
    let alias = Alias::default();
    assert!(alias.forward_args);
    assert!(alias.command.is_empty());
    assert!(alias.tags.is_empty());
    assert_eq!(alias.profile, None);
}

#[test]
fn configuration_keeps_names_sorted_and_unique() {
    let mut config = Config::new(1);
    assert_eq!(config.insert("b".to_string(), Alias::default()), None);
    assert_eq!(config.insert("a".to_string(), Alias::default()), None);
    let replaced = config.insert(
        "b".to_string(),
        Alias { bash: Some("x".into()), ..Alias::default() },
    );
    assert_eq!(replaced, Some(Alias::default()));
    let names: Vec<&str> = config.entries().iter().map(|(n, _)| n.as_str()).collect();
    assert_eq!(names, vec!["a", "b"]);
    assert_eq!(config.get("b").and_then(|a| a.bash.clone()), Some("x".to_string()));
    assert_eq!(config.remove("a"), Some(Alias::default()));
    assert_eq!(config.remove("a"), None);
    assert!(!config.contains_key("a"));
    assert_eq!(config.len(), 1);
}

#[test]
fn error_messages_quote_the_alias() {
    assert_eq!(
        HunmingError::AliasExists { name: "gs".to_string() }.message(),
        "alias `gs` already exists; use --force to overwrite"
    );
    assert_eq!(
        HunmingError::DefinedMoreThanOnce { name: "gs".to_string() }.message(),
        "alias `gs` is defined more than once"
    );
    assert_eq!(
        HunmingError::InvalidAliasName { name: "1x".to_string() }.message(),
        "invalid alias name `1x`: must match ^[A-Za-z_][A-Za-z0-9_-]*$"
    );
}

#[test]
fn profiles_are_named_in_lowercase() {
    assert_eq!(Profile::from_name("work"), Some(Profile::Work));
    assert_eq!(Profile::from_name("personal"), Some(Profile::Personal));
    assert_eq!(Profile::from_name("Work"), None);
    assert_eq!(Profile::from_name(""), None);
}
