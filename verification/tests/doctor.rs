use hunming::doctor::{
    doctor_report, profile_sources_bash_rc, repair_doctor, ConfigState, DoctorObservations,
    DoctorReport, ProfileRead, Repair,
};
use hunming::install::{bash_managed_block, insert_managed_block, powershell_managed_block};
use hunming::model::{Alias, Config};
use hunming::paths::{AppPaths, DoctorTargets};

fn targets() -> DoctorTargets {
    DoctorTargets {
        bash_rc_profile: "/tmp/d/.bashrc".to_string(),
        bash_login_profile: "/tmp/d/.bash_profile".to_string(),
        zsh_profile: "/tmp/d/.zshrc".to_string(),
        powershell_profile: "/tmp/d/PowerShell/Microsoft.PowerShell_profile.ps1".to_string(),
    }
}

#[test]
fn doctor_reports_expected_checks_and_shadowing() {
    let paths = AppPaths::from_config_dir("/tmp/d/hunming");
    let targets = targets();
    let mut config = Config::new(1);
    config.insert(
        "ls".to_string(),
        Alias { command: vec!["ls".into()], tags: vec!["shell".into()], ..Alias::default() },
    );
    config.insert(
        "gs".to_string(),
        Alias {
            command: vec!["git".into(), "status".into(), "--short".into()],
            tags: vec!["git".into()],
            powershell: Some("git status --short".into()),
            ..Alias::default()
        },
    );
    let observations = DoctorObservations {
        config: ConfigState::Valid(config),
        bash_script_exists: true,
        zsh_script_exists: true,
        powershell_script_exists: true,
        bash_rc: ProfileRead::Content(insert_managed_block("", &bash_managed_block(&paths.bash_script))),
        zsh_rc: ProfileRead::Content(bash_managed_block(&paths.zsh_script)),
        powershell_profile: ProfileRead::Content(powershell_managed_block(&paths.powershell_script)),
        bash_login: Some("export PATH=\"$HOME/bin:$PATH\"\n".to_string()),
        command_found: vec![false, true],
    };

    let report = doctor_report(&paths, &targets, &observations);

    assert!(report.contains("[✓] config file exists"));
    assert!(report.contains("[✓] generated bash file exists"));
    assert!(report.contains("[✓] ~/.bashrc contains humming managed block"));
    assert!(report.contains("[✓] ~/.zshrc contains humming managed block"));
    assert!(report.contains("[!] ~/.bash_profile does not source ~/.bashrc"));
    assert!(report.contains("[✓] PowerShell profile contains humming managed block"));
    assert!(report.contains("[!] alias \"ls\" shadows existing command"));
}

#[test]
fn doctor_report_for_a_missing_installation() {
    let paths = AppPaths::from_config_dir("/tmp/d/hunming");
    let observations = DoctorObservations {
        config: ConfigState::Missing,
        bash_script_exists: false,
        zsh_script_exists: true,
        powershell_script_exists: false,
        bash_rc: ProfileRead::Missing,
        zsh_rc: ProfileRead::Content("echo hi\n".to_string()),
        powershell_profile: ProfileRead::Failed("permission denied".to_string()),
        bash_login: Some("source ~/.bashrc\n".to_string()),
        command_found: Vec::new(),
    };

    assert_eq!(
        doctor_report(&paths, &targets(), &observations),
        "[!] config file missing\n\
[!] generated bash file missing\n\
[✓] generated zsh file exists\n\
[!] generated powershell file missing\n\
[!] ~/.bashrc missing\n\
[!] ~/.zshrc does not contain humming managed block\n\
[✓] ~/.bash_profile sources ~/.bashrc\n\
[!] failed to read PowerShell profile at /tmp/d/PowerShell/Microsoft.PowerShell_profile.ps1: permission denied\n\
[!] PowerShell execution policy may block profile loading\n"
    );
}

#[test]
fn valid_configuration_without_shadowing_is_reported_clean() {
    let paths = AppPaths::from_config_dir("/tmp/d/hunming");
    let observations = DoctorObservations {
        config: ConfigState::Valid(Config::new(1)),
        bash_script_exists: true,
        zsh_script_exists: true,
        powershell_script_exists: true,
        bash_rc: ProfileRead::Missing,
        zsh_rc: ProfileRead::Missing,
        powershell_profile: ProfileRead::Missing,
        bash_login: None,
        command_found: Vec::new(),
    };
    let report = doctor_report(&paths, &targets(), &observations);
    assert!(report.ends_with(
        "[✓] no duplicated alias names\n[✓] no aliases shadow existing command\n"
    ));
    let invalid = DoctorObservations {
        config: ConfigState::Invalid("bad toml".to_string()),
        ..observations
    };
    let report = doctor_report(&paths, &targets(), &invalid);
    assert!(report.starts_with("[!] config file is invalid: bad toml\n"));
    assert!(!report.contains("no duplicated alias names"));
}

#[test]
fn login_profiles_source_bashrc_in_the_usual_ways() {
    for content in [
        ". ~/.bashrc",
        "if [ -f x ]; then source ~/.bashrc; fi",
        ". \"$HOME/.bashrc\"",
        "source \"$HOME/.bashrc\"",
        ". ${HOME}/.bashrc",
        "source ${HOME}/.bashrc",
    ] {
        assert!(profile_sources_bash_rc(content), "{content}");
    }
    assert!(!profile_sources_bash_rc("export PATH=$PATH"));
    assert!(!profile_sources_bash_rc("source ~/.zshrc"));
}

#[test]
fn repairs_follow_the_configuration_state() {
    assert_eq!(repair_doctor(&ConfigState::Missing), Repair::CreateConfigAndInstall);
    assert_eq!(repair_doctor(&ConfigState::Valid(Config::new(1))), Repair::Install);
    assert_eq!(repair_doctor(&ConfigState::Invalid("x".to_string())), Repair::Nothing);
}

#[test]
fn report_lines_end_with_a_line_break() {
    assert_eq!(DoctorReport::new().finish(), "");
    let mut report = DoctorReport::new();
    report.ok("a");
    report.warn("b");
    assert_eq!(report.finish(), "[✓] a\n[!] b\n");
}

#[test]
fn windows_candidates_follow_the_file_name() {
    let with_ext = hunming::doctor::command_candidates("C:/bin", "tool.exe", None);
    assert_eq!(with_ext, vec!["C:/bin/tool.exe".to_string()]);
    let plain = hunming::doctor::command_candidates("C:/bin", "ls", Some(".EXE;;.CMD".to_string()));
    assert_eq!(plain, vec!["C:/bin/ls", "C:/bin/ls.EXE", "C:/bin/ls.CMD"]);
    let defaults = hunming::doctor::command_candidates("d", "gs", None);
    assert_eq!(defaults, vec!["d/gs", "d/gs.COM", "d/gs.EXE", "d/gs.BAT", "d/gs.CMD"]);
    let dots = hunming::doctor::command_candidates("d", "..", Some(".EXE".to_string()));
    assert_eq!(dots, vec!["d/..", "d/...EXE"]);
    let hidden = hunming::doctor::command_candidates("d", ".profile", Some(".EXE".to_string()));
    assert_eq!(hidden, vec!["d/.profile", "d/.profile.EXE"]);
    let trailing = hunming::doctor::command_candidates("d", "a.b/", Some(".EXE".to_string()));
    assert_eq!(trailing, vec!["d/a.b/"]);
}
