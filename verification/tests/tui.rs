use hunming::model::{Alias, Config, Platform, Profile};
use hunming::tui::{action_for, alias_details, build_entries, App, KeyAction, KeyInput};

fn config_of(entries: Vec<(&str, Alias)>) -> Config {
    let mut config = Config::new(1);
    for (name, alias) in entries {
        config.insert(name.to_string(), alias);
    }
    config
}

fn gs_work() -> Alias {
    Alias {
        command: vec!["git".into(), "status".into()],
        profile: Some(Profile::Work),
        ..Alias::default()
    }
}

#[test]
fn entries_respect_profile_filter() {
    let config = config_of(vec![("gs", gs_work())]);

    let active = build_entries(config.clone(), Some(Profile::Work), Platform::Linux);
    assert!(active[0].profile_match);
    assert!(active[0].is_active);

    let inactive = build_entries(config, Some(Profile::Personal), Platform::Linux);
    assert!(!inactive[0].profile_match);
    assert!(!inactive[0].is_active);
}

#[test]
fn entries_respect_platform_filter() {
    let config = config_of(vec![(
        "w",
        Alias { bash: Some("dir".into()), platforms: vec![Platform::Windows], ..Alias::default() },
    )]);
    let entries = build_entries(config, None, Platform::Macos);
    assert!(!entries[0].platform_match);
    assert!(entries[0].profile_match);
    assert!(!entries[0].is_active);
}

fn app_with(names: &[&str]) -> App {
    let config = config_of(
        names
            .iter()
            .map(|n| (*n, Alias { bash: Some("true".into()), ..Alias::default() }))
            .collect(),
    );
    App::load("/c/aliases.toml".to_string(), None, config, Platform::Linux)
}

#[test]
fn navigation_wraps_around() {
    let mut app = app_with(&["a", "b", "c"]);
    assert_eq!(app.selected(), Some(0));
    app.previous();
    assert_eq!(app.selected(), Some(2));
    app.next();
    assert_eq!(app.selected(), Some(0));
    app.next();
    app.next();
    assert_eq!(app.selected(), Some(2));
    app.first();
    assert_eq!(app.selected(), Some(0));
    app.last();
    assert_eq!(app.selected(), Some(2));
    assert_eq!(app.selected_entry().map(|e| e.name.as_str()), Some("c"));
}

#[test]
fn next_then_previous_returns_to_the_same_entry() {
    let mut app = app_with(&["a", "b", "c", "d"]);
    for start in 0..4 {
        app.first();
        for _ in 0..start {
            app.next();
        }
        app.next();
        app.previous();
        assert_eq!(app.selected(), Some(start));
        app.previous();
        app.next();
        assert_eq!(app.selected(), Some(start));
    }
}

#[test]
fn empty_browser_selects_nothing() {
    let mut app = app_with(&[]);
    app.next();
    app.previous();
    app.last();
    assert_eq!(app.selected(), None);
    assert!(app.selected_entry().is_none());
    assert!(app.rows().is_empty());
}

#[test]
fn keys_map_to_actions() {
    assert_eq!(action_for(KeyInput::Char('q')), KeyAction::Quit);
    assert_eq!(action_for(KeyInput::Esc), KeyAction::Quit);
    assert_eq!(action_for(KeyInput::Char('k')), KeyAction::Previous);
    assert_eq!(action_for(KeyInput::Up), KeyAction::Previous);
    assert_eq!(action_for(KeyInput::Char('j')), KeyAction::Next);
    assert_eq!(action_for(KeyInput::Down), KeyAction::Next);
    assert_eq!(action_for(KeyInput::Char('g')), KeyAction::First);
    assert_eq!(action_for(KeyInput::Home), KeyAction::First);
    assert_eq!(action_for(KeyInput::Char('G')), KeyAction::Last);
    assert_eq!(action_for(KeyInput::End), KeyAction::Last);
    assert_eq!(action_for(KeyInput::Char('r')), KeyAction::Reload);
    assert_eq!(action_for(KeyInput::Char('x')), KeyAction::Ignore);
    assert_eq!(action_for(KeyInput::Other), KeyAction::Ignore);
}

#[test]
fn step_moves_like_the_methods() {
    let mut app = app_with(&["a", "b"]);
    app.step(KeyAction::Last);
    assert_eq!(app.selected(), Some(1));
    app.step(KeyAction::Next);
    assert_eq!(app.selected(), Some(0));
    app.step(KeyAction::Reload);
    assert_eq!(app.selected(), Some(0));
}

#[test]
fn reload_keeps_the_selected_alias() {
    let mut app = app_with(&["a", "c"]);
    app.last();
    let config = config_of(vec![
        ("a", Alias { bash: Some("x".into()), ..Alias::default() }),
        ("b", Alias { bash: Some("x".into()), ..Alias::default() }),
        ("c", Alias { bash: Some("x".into()), ..Alias::default() }),
    ]);
    app.reload(config, Platform::Linux);
    assert_eq!(app.selected(), Some(2));
    assert_eq!(app.status(), "reloaded 3 aliases from /c/aliases.toml");

    app.reload(config_of(vec![("z", gs_work())]), Platform::Linux);
    assert_eq!(app.selected(), Some(0));
    app.reload(Config::new(1), Platform::Linux);
    assert_eq!(app.selected(), None);
    assert_eq!(app.status(), "reloaded 0 aliases from /c/aliases.toml");
    app.reload_failed("broken");
    assert_eq!(app.status(), "reload failed: broken");
}

#[test]
fn header_and_rows_describe_the_state() {
    let mut app = App::load(
        "/c/aliases.toml".to_string(),
        Some(Profile::Work),
        config_of(vec![
            ("gs", Alias { tags: vec!["git".into(), "vcs".into()], ..gs_work() }),
            ("ll", Alias { bash: Some("ls".into()), ..Alias::default() }),
        ]),
        Platform::Linux,
    );
    assert_eq!(app.header(), "HunMing TUI  |  2 aliases  |  work  |  /c/aliases.toml");
    assert_eq!(app.status(), "q/Esc quit  r reload  \u{2191}/\u{2193} move  Home/End jump");
    app.next();
    let rows = app.rows();
    assert_eq!(rows[0].marker, "  ");
    assert_eq!(rows[0].tags, "  [git, vcs]");
    assert!(rows[0].active);
    assert_eq!(rows[1].marker, "> ");
    assert_eq!(rows[1].name, "ll");
    assert_eq!(rows[1].tags, "  [-]");
    assert!(rows[1].selected);
}

#[test]
fn details_list_every_field() {
    let config = config_of(vec![(
        "gs",
        Alias {
            description: Some("status".into()),
            bash: Some("git st".into()),
            forward_args: false,
            platforms: vec![Platform::Linux, Platform::Macos],
            ..gs_work()
        },
    )]);
    let entries = build_entries(config, Some(Profile::Personal), Platform::Linux);
    let details: Vec<(String, String)> = alias_details(&entries[0], Some(Profile::Personal));
    let expected = [
        ("Name", "gs"),
        ("State", "inactive"),
        ("Current profile", "personal"),
        ("Profile rule", "work"),
        ("Tags", "-"),
        ("Command", "git status"),
        ("Forward args", "no"),
        ("Platforms", "linux, macos"),
        ("Platform match", "yes"),
        ("Profile match", "no"),
        ("Description", "status"),
        ("Bash", "git st"),
    ];
    assert_eq!(details.len(), expected.len());
    for ((label, value), (l, v)) in details.iter().zip(expected.iter()) {
        assert_eq!(label, l);
        assert_eq!(value, v);
    }
}
