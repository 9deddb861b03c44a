use hunming::install::{list, show};
use hunming::listing::{assemble_definition, quote_fields, QuotedFields};
use hunming::model::{Alias, Config, Platform, Profile};

fn strings(items: &[&str]) -> Vec<String> {
    items.iter().map(|s| s.to_string()).collect()
}

#[test]
fn list_reports_empty_configuration() {
    let config = Config::new(1);

    let output = list(&config);

    assert_eq!(output, "No aliases configured.\n");
}

#[test]
fn list_sorts_aliases_and_shows_kind() {
    let mut config = Config::new(1);
    config.insert(
        "ll".to_string(),
        Alias {
            command: Vec::new(),
            bash: Some("ls -lah".into()),
            powershell: Some("Get-ChildItem -Force".into()),
            ..Alias::default()
        },
    );
    config.insert(
        "gco".to_string(),
        Alias {
            command: vec!["git".into(), "checkout".into()],
            bash: None,
            powershell: None,
            ..Alias::default()
        },
    );
    config.insert(
        "gs".to_string(),
        Alias {
            command: vec!["git".into(), "status".into(), "--short".into()],
            bash: None,
            powershell: None,
            ..Alias::default()
        },
    );

    let output = list(&config);

    assert_eq!(
        output,
        "gco  command      git checkout\n\
gs   command      git status --short\n\
ll   shell        bash: ls -lah | powershell: Get-ChildItem -Force\n"
    );
}

#[test]
fn list_leaves_tags_out_of_the_table() {
    let mut config = Config::new(1);
    config.insert(
        "gs".to_string(),
        Alias { command: strings(&["git", "status"]), tags: strings(&["git", "vcs"]), ..Alias::default() },
    );
    assert_eq!(list(&config), "gs  command      git status\n");
}

#[test]
fn list_describes_profiles_and_missing_arguments() {
    let mut config = Config::new(1);
    config.insert(
        "gs".to_string(),
        Alias {
            command: strings(&["git", "status"]),
            forward_args: false,
            profile: Some(Profile::Work),
            ..Alias::default()
        },
    );
    config.insert(
        "ps".to_string(),
        Alias {
            powershell: Some("Get-Process".into()),
            profile: Some(Profile::Personal),
            ..Alias::default()
        },
    );

    assert_eq!(
        list(&config),
        "gs  command      profile: work | git status (no args)\n\
ps  powershell   profile: personal | Get-Process\n"
    );
}

#[test]
fn show_renders_alias_definition() {
    let mut config = Config::new(1);
    config.insert(
        "ll".to_string(),
        Alias {
            description: Some("List files".into()),
            command: strings(&["ls", "-lah"]),
            tags: strings(&["files"]),
            bash: Some("ls -lah".into()),
            powershell: Some("Get-ChildItem -Force".into()),
            forward_args: false,
            platforms: vec![Platform::Linux],
            profile: Some(Profile::Work),
        },
    );

    let output = show(&config, "ll").expect("show should succeed");

    assert_eq!(
        output,
        "[aliases.ll]\n\
description = \"List files\"\n\
command = [\"ls\", \"-lah\"]\n\
tags = [\"files\"]\n\
bash = \"ls -lah\"\n\
powershell = \"Get-ChildItem -Force\"\n\
forward_args = false\n\
profile = \"work\"\n\
platforms = [\"linux\"]\n"
    );
}

#[test]
fn show_rejects_missing_alias() {
    let config = Config::new(1);

    let error = show(&config, "gs").expect_err("show should reject missing aliases");

    assert!(error.message().contains("does not exist"));
}

#[test]
fn show_rejects_invalid_name_and_quotes_special_characters() {
    let mut config = Config::new(1);
    let error = show(&config, "1bad").expect_err("invalid names are refused");
    assert!(error.message().contains("invalid alias name `1bad`"));

    config.insert(
        "q".to_string(),
        Alias { bash: Some("echo \"hi\"\t\\".into()), ..Alias::default() },
    );
    assert_eq!(
        show(&config, "q").expect("show should succeed"),
        "[aliases.q]\nbash = \"echo \\\"hi\\\"\\t\\\\\"\n"
    );
}

#[test]
fn definition_is_assembled_from_quoted_values() {
    let alias = Alias {
        command: strings(&["echo", "a b"]),
        profile: Some(Profile::Personal),
        ..Alias::default()
    };
    let quoted = QuotedFields {
        description: Some("'d'".to_string()),
        command: strings(&["<echo>", "<a b>"]),
        tags: Vec::new(),
        bash: None,
        powershell: Some("'p'".to_string()),
    };
    assert_eq!(
        assemble_definition("e", &alias, &quoted),
        "[aliases.e]\ndescription = 'd'\ncommand = [<echo>, <a b>]\npowershell = 'p'\nprofile = \"personal\"\n"
    );
    let real = quote_fields(&alias);
    assert_eq!(real.command, vec!["\"echo\"", "\"a b\""]);
    assert_eq!(real.description, None);
}
