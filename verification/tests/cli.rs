use codesync::cli::{
    config_text, execute_outcome, mkdir_script, parse_cli, run_script, setup_command,
    setup_failure, shell_script, ssh_command, ssh_transport, sync_command, CliCommand,
};
use codesync::update::{
    cli_only_flag, installer_name, manifest_names_codesync, update_next, StepResult, UpdateStep,
};
use codesync::Config;

fn args(list: &[&str]) -> Vec<String> {
    list.iter().map(|s| s.to_string()).collect()
}

fn config() -> Config {
    Config {
        host: "me@my-server".into(),
        dir: "/home/me/class notes".into(),
    }
}

#[test]
fn commands_are_read_with_their_usage_errors() {
    assert!(matches!(parse_cli(&args(&[])), Ok(CliCommand::Help)));
    assert!(matches!(parse_cli(&args(&["-h"])), Ok(CliCommand::Help)));
    assert!(matches!(parse_cli(&args(&["gui"])), Ok(CliCommand::Gui)));
    assert_eq!(parse_cli(&args(&["gui", "x"])).err().unwrap(), "Usage: codesync gui");
    match parse_cli(&args(&["update", "--repo", "/src/codesync"])) {
        Ok(CliCommand::Update { repo }) => assert_eq!(repo.as_deref(), Some("/src/codesync")),
        _ => panic!("expected update"),
    }
    assert!(matches!(parse_cli(&args(&["update"])), Ok(CliCommand::Update { repo: None })));
    assert_eq!(
        parse_cli(&args(&["update", "--force"])).err().unwrap(),
        "Usage: codesync update [--repo /path/to/codesync]"
    );
    match parse_cli(&args(&["init", "--force", "me@my-server", "/home/me/class notes"])) {
        Ok(CliCommand::Init { force, config }) => {
            assert!(force);
            assert_eq!(config.host, "me@my-server");
        }
        _ => panic!("expected init"),
    }
    assert!(parse_cli(&args(&["init", "host;evil", "/work"])).err().unwrap().starts_with("Use an IPv4/IPv6"));
    assert_eq!(
        parse_cli(&args(&["init", "-f", "a", "/b"])).err().unwrap(),
        "Usage: codesync init [--force] USER@HOST /absolute/remote/folder"
    );
    assert!(matches!(
        parse_cli(&args(&["pull", "--dry-run"])),
        Ok(CliCommand::Sync { pull: true, dry: true })
    ));
    assert!(matches!(
        parse_cli(&args(&["push"])),
        Ok(CliCommand::Sync { pull: false, dry: false })
    ));
    assert_eq!(
        parse_cli(&args(&["push", "--force"])).err().unwrap(),
        "Usage: codesync push [--dry-run]"
    );
    match parse_cli(&args(&["run", "cargo", "it's"])) {
        Ok(CliCommand::Run { command }) => assert_eq!(command, "'cargo' 'it'\\''s'"),
        _ => panic!("expected run"),
    }
    assert_eq!(parse_cli(&args(&["run"])).err().unwrap(), "Usage: codesync run COMMAND [ARGS...]");
    assert!(matches!(parse_cli(&args(&["shell"])), Ok(CliCommand::Shell)));
    assert!(matches!(parse_cli(&args(&["setup"])), Ok(CliCommand::Setup)));
    assert_eq!(
        parse_cli(&args(&["deploy"])).err().unwrap(),
        "Unknown command: deploy. Use codesync --help."
    );
}

#[test]
fn folder_commands_use_the_shared_connection() {
    assert_eq!(
        ssh_transport(),
        "ssh -o ControlMaster=auto -o ControlPersist=10m -o ControlPath=~/.ssh/codesync-%C"
    );
    let c = config();
    assert_eq!(
        ssh_command(&c, "true", true),
        args(&[
            "-o",
            "ControlMaster=auto",
            "-o",
            "ControlPersist=10m",
            "-o",
            "ControlPath=~/.ssh/codesync-%C",
            "-t",
            "me@my-server",
            "true"
        ])
    );
    let push = sync_command(&c, false, true);
    assert_eq!(&push[push.len() - 3..], ["--", "./", "me@my-server:/home/me/class notes/"]);
    assert!(push.contains(&"--dry-run".to_string()));
    assert!(push.contains(&"--exclude=*.key".to_string()));
    let pull = sync_command(&c, true, false);
    assert_eq!(&pull[pull.len() - 2..], ["me@my-server:/home/me/class notes/", "./"]);
    assert_eq!(mkdir_script(&c), "mkdir -p -- '/home/me/class notes'");
    assert_eq!(run_script(&c, "'ls'"), "cd -- '/home/me/class notes' && 'ls'");
    assert_eq!(
        shell_script(&c),
        "mkdir -p -- '/home/me/class notes' && cd -- '/home/me/class notes' && exec \"${SHELL:-/bin/sh}\" -l"
    );
    assert_eq!(setup_command("echo ok"), "sh -c 'echo ok'");
    assert_eq!(execute_outcome("rsync", false, "exit status: 23"), Err("rsync failed (exit status: 23)".into()));
    assert_eq!(execute_outcome("rsync", true, ""), Ok(()));
    assert_eq!(
        setup_failure("ssh failed"),
        "Server setup failed: ssh failed. Settings are saved; retry with codesync setup."
    );
    assert_eq!(config_text(&c), "me@my-server\n/home/me/class notes\n");
}

#[test]
fn updates_stop_at_the_first_failed_check() {
    assert_eq!(update_next(UpdateStep::CheckClean, StepResult::Succeeded(String::new())), Ok(UpdateStep::CheckBranch));
    assert!(update_next(UpdateStep::CheckClean, StepResult::Succeeded(" M src/lib.rs".into()))
        .unwrap_err()
        .contains("local changes"));
    assert_eq!(
        update_next(UpdateStep::CheckClean, StepResult::Error("Cannot start Git: missing".into())),
        Err("Cannot start Git: missing".into())
    );
    assert!(update_next(UpdateStep::CheckBranch, StepResult::Failed).unwrap_err().contains("detached"));
    assert!(update_next(UpdateStep::CheckUpstream, StepResult::Failed).unwrap_err().contains("upstream"));
    assert_eq!(update_next(UpdateStep::Pull, StepResult::Succeeded(String::new())), Ok(UpdateStep::Recheck));
    assert!(update_next(UpdateStep::Pull, StepResult::Failed).unwrap_err().starts_with("Git pull failed"));
    assert_eq!(update_next(UpdateStep::Recheck, StepResult::Succeeded(String::new())), Ok(UpdateStep::Install));
    assert_eq!(
        update_next(UpdateStep::Install, StepResult::Error("denied".into())),
        Err("Cannot start installer: denied".into())
    );
    assert_eq!(update_next(UpdateStep::Install, StepResult::Succeeded(String::new())), Ok(UpdateStep::Done));
    assert!(manifest_names_codesync("[package]\n  name = \"codesync\"  \nversion = \"0.1.0\"\n"));
    assert!(!manifest_names_codesync("[package]\nname = \"codesync-gui\"\n"));
    assert_eq!(installer_name(false), "install.sh");
    assert_eq!(installer_name(true), "install.ps1");
    assert_eq!(cli_only_flag(false), "--cli-only");
}

#[test]
fn config_text_reads_back_as_the_destination() {
    let saved = Config {
        host: "me@[2001:db8::8]".into(),
        dir: "/home/me/class notes".into(),
    };
    let text = config_text(&saved);
    assert_eq!(text, "me@[2001:db8::8]\n/home/me/class notes\n");
    let back = Config::parse(&text).unwrap();
    assert_eq!(back.host, saved.host);
    assert_eq!(back.dir, saved.dir);
}
