use hunming::model::{Alias, Config, Platform, Profile};
use hunming::render::{
    render_bash, render_bash_with_profile, render_powershell, render_powershell_with_profile,
};

const CURRENT: Platform = Platform::Linux;
const OTHER: Platform = Platform::Windows;

fn alias(
    command: &[&str],
    bash: Option<&str>,
    powershell: Option<&str>,
    forward_args: bool,
    platforms: Vec<Platform>,
    profile: Option<Profile>,
) -> Alias {
    Alias {
        description: None,
        command: command.iter().map(|s| s.to_string()).collect(),
        tags: Vec::new(),
        bash: bash.map(|s| s.to_string()),
        powershell: powershell.map(|s| s.to_string()),
        forward_args,
        platforms,
        profile,
    }
}

fn with_tags(mut a: Alias, tags: &[&str]) -> Alias {
    a.tags = tags.iter().map(|s| s.to_string()).collect();
    a
}

fn config_of(entries: Vec<(&str, Alias)>) -> Config {
    let mut config = Config::new(1);
    for (name, alias) in entries {
        config.insert(name.to_string(), alias);
    }
    config
}

#[test]
fn renders_command_based_bash_functions() {
    let config = config_of(vec![(
        "gs",
        alias(&["git", "status", "--short"], None, None, true, Vec::new(), None),
    )]);
    assert_eq!(render_bash(&config, CURRENT), "gs() {\n  git status --short \"$@\"\n}\n");
}

#[test]
fn renders_explicit_bash_functions() {
    let config = config_of(vec![("ll", alias(&[], Some("ls -lah"), None, true, Vec::new(), None))]);
    assert_eq!(render_bash(&config, CURRENT), "ll() {\n  ls -lah \"$@\"\n}\n");
}

#[test]
fn render_bash_skips_empty_aliases() {
    let config = config_of(vec![("empty", Alias::default())]);
    assert!(render_bash(&config, CURRENT).is_empty());
}

#[test]
fn render_bash_respects_forward_args_flag() {
    let config = config_of(vec![(
        "gs",
        alias(&["git", "status"], None, None, false, Vec::new(), None),
    )]);
    assert_eq!(render_bash(&config, CURRENT), "gs() {\n  git status\n}\n");
}

#[test]
fn render_bash_filters_other_platforms() {
    let config = config_of(vec![
        ("local", alias(&["echo", "local"], None, None, true, vec![CURRENT], None)),
        ("remote", alias(&["echo", "remote"], None, None, true, vec![OTHER], None)),
    ]);
    assert_eq!(render_bash(&config, CURRENT), "local() {\n  echo local \"$@\"\n}\n");
}

#[test]
fn renders_command_based_powershell_functions() {
    let mut a = alias(&["git", "status", "--short"], None, None, true, Vec::new(), None);
    a.tags = vec!["git".to_string()];
    let config = config_of(vec![("gs", a)]);
    assert_eq!(
        render_powershell_with_profile(&config, None, CURRENT),
        "function gs {\n    git status --short @args\n}\n"
    );
}

#[test]
fn renders_explicit_powershell_functions() {
    let mut a = alias(&[], None, Some("Get-ChildItem -Force"), true, Vec::new(), None);
    a.tags = vec!["files".to_string()];
    let config = config_of(vec![("ll", a)]);
    assert_eq!(
        render_powershell_with_profile(&config, None, CURRENT),
        "function ll {\n    Get-ChildItem -Force @args\n}\n"
    );
}

#[test]
fn falls_back_to_command_when_powershell_is_missing() {
    let mut a = alias(&["git", "checkout"], None, None, true, Vec::new(), None);
    a.tags = vec!["git".to_string()];
    let config = config_of(vec![("gco", a)]);
    assert_eq!(
        render_powershell_with_profile(&config, None, CURRENT),
        "function gco {\n    git checkout @args\n}\n"
    );
}

#[test]
fn render_powershell_skips_empty_aliases() {
    let config = config_of(vec![("empty", Alias::default())]);
    assert!(render_powershell_with_profile(&config, None, CURRENT).is_empty());
}

#[test]
fn render_powershell_respects_forward_args_flag() {
    let config = config_of(vec![(
        "gs",
        with_tags(alias(&["git", "status"], None, None, false, Vec::new(), None), &["git"]),
    )]);
    assert_eq!(
        render_powershell_with_profile(&config, None, CURRENT),
        "function gs {\n    git status\n}\n"
    );
}

#[test]
fn render_powershell_filters_other_platforms() {
    let config = config_of(vec![
        (
            "local",
            with_tags(alias(&["echo", "local"], None, None, true, vec![CURRENT], None), &["local"]),
        ),
        (
            "remote",
            with_tags(alias(&["echo", "remote"], None, None, true, vec![OTHER], None), &["remote"]),
        ),
    ]);
    assert_eq!(
        render_powershell_with_profile(&config, None, CURRENT),
        "function local {\n    echo local @args\n}\n"
    );
}

#[test]
fn filters_other_profiles() {
    let config = config_of(vec![
        (
            "work",
            with_tags(
                alias(&["echo", "work"], None, None, true, Vec::new(), Some(Profile::Work)),
                &["work"],
            ),
        ),
        (
            "personal",
            with_tags(
                alias(&["echo", "personal"], None, None, true, Vec::new(), Some(Profile::Personal)),
                &["personal"],
            ),
        ),
    ]);
    assert_eq!(
        render_powershell_with_profile(&config, Some(Profile::Work), CURRENT),
        "function work {\n    echo work @args\n}\n"
    );
    assert_eq!(
        render_powershell_with_profile(&config, Some(Profile::Personal), CURRENT),
        "function personal {\n    echo personal @args\n}\n"
    );
}

#[test]
fn functions_are_separated_by_two_line_breaks_in_name_order() {
    let config = config_of(vec![
        ("ll", alias(&[], Some("  ls -lah  "), None, true, Vec::new(), None)),
        ("gs", alias(&["git", "status"], None, None, true, Vec::new(), None)),
    ]);
    assert_eq!(
        render_bash(&config, CURRENT),
        "gs() {\n  git status \"$@\"\n}\n\n\nll() {\n  ls -lah \"$@\"\n}\n"
    );
    assert_eq!(
        render_powershell(&config, CURRENT),
        "function gs {\n    git status @args\n}\n"
    );
}

#[test]
fn unscoped_aliases_render_for_every_profile() {
    let config = config_of(vec![("gs", alias(&["git", "status"], None, None, true, Vec::new(), None))]);
    let all = render_bash_with_profile(&config, None, CURRENT);
    assert_eq!(render_bash_with_profile(&config, Some(Profile::Work), CURRENT), all);
    assert_eq!(render_bash_with_profile(&config, Some(Profile::Personal), CURRENT), all);
    let scoped = config_of(vec![(
        "gs",
        alias(&["git", "status"], None, None, true, Vec::new(), Some(Profile::Work)),
    )]);
    assert_eq!(render_bash_with_profile(&scoped, None, CURRENT), all);
}

#[test]
fn aliases_without_platforms_render_everywhere() {
    let config = config_of(vec![("gs", alias(&["git"], None, None, true, Vec::new(), None))]);
    for p in [Platform::Windows, Platform::Macos, Platform::Linux] {
        assert_eq!(render_bash(&config, p), "gs() {\n  git \"$@\"\n}\n");
    }
}
