use che_rest::cli::{Cli, CliError, CommandKind, MigrateAction};

#[test]
fn parses_project_generation_commands() {
    Cli::try_parse_from(&[
        "manage",
        "startproject",
        "todo_api",
        "--out",
        "..",
        "--with-auth",
    ])
    .unwrap();
    Cli::try_parse_from(&[
        "manage", "startapp", "tasks", "--model", "Task", "--model", "Comment",
    ])
    .unwrap();
    Cli::try_parse_from(&["manage", "makemigrations", "backfill_tasks", "--empty"]).unwrap();
    Cli::try_parse_from(&["manage", "migrate", "verify"]).unwrap();
    Cli::try_parse_from(&["manage", "migrate", "operations-apply"]).unwrap();
    Cli::try_parse_from(&["manage", "migrate", "operations-status"]).unwrap();
}

#[test]
fn startproject_options_take_defaults_and_values() {
    let cli = Cli::try_parse_from(&["manage", "startproject", "todo_api", "--out=..", "--with-auth"]).unwrap();
    assert_eq!(
        cli.command,
        CommandKind::Startproject {
            name: "todo_api".into(),
            out: "..".into(),
            che_rest_path: "".into(),
            che_orm_path: "".into(),
            with_auth: true,
            force: false,
        }
    );
}

#[test]
fn startapp_collects_repeated_models() {
    let cli = Cli::try_parse_from(&["manage", "startapp", "tasks", "--model", "Task", "--model", "Comment"]).unwrap();
    assert_eq!(
        cli.command,
        CommandKind::Startapp {
            name: "tasks".into(),
            models: vec!["Task".into(), "Comment".into()],
            root: None,
            force: false,
        }
    );
}

#[test]
fn migrate_reads_subcommand_and_targets() {
    let cli = Cli::try_parse_from(&["manage", "migrate", "diff", "add_users"]).unwrap();
    assert_eq!(
        cli.command,
        CommandKind::Migrate {
            action: Some(MigrateAction::Diff { name: "add_users".into() }),
            target: vec![],
            plan: false,
            config: "app.toml".into(),
            dir: "migrations".into(),
        }
    );
    let cli = Cli::try_parse_from(&["manage", "migrate", "tasks", "0002_remove", "--plan"]).unwrap();
    assert_eq!(
        cli.command,
        CommandKind::Migrate {
            action: None,
            target: vec!["tasks".into(), "0002_remove".into()],
            plan: true,
            config: "app.toml".into(),
            dir: "migrations".into(),
        }
    );
}

#[test]
fn command_line_errors_name_the_offending_token() {
    assert_eq!(Cli::try_parse_from(&["manage"]), Err(CliError::MissingSubcommand));
    assert_eq!(Cli::try_parse_from(&["manage", "bogus"]), Err(CliError::UnknownSubcommand(1)));
    assert_eq!(Cli::try_parse_from(&["manage", "startproject"]), Err(CliError::MissingPositional(0)));
    assert_eq!(Cli::try_parse_from(&["manage", "startproject", "a", "--out"]), Err(CliError::MissingValue(3)));
    assert_eq!(Cli::try_parse_from(&["manage", "startproject", "a", "--nope"]), Err(CliError::UnknownArgument(3)));
    assert_eq!(Cli::try_parse_from(&["manage", "startproject", "a", "--force", "--force"]), Err(CliError::DuplicateArgument(4)));
    assert_eq!(Cli::try_parse_from(&["manage", "startproject", "a", "--force=yes"]), Err(CliError::UnexpectedValue(3)));
    assert_eq!(Cli::try_parse_from(&["manage", "startproject", "a", "b"]), Err(CliError::UnexpectedPositional(3)));
    assert_eq!(Cli::try_parse_from(&["manage", "migrate", "--help"]), Err(CliError::HelpRequested));
    assert_eq!(
        Cli::try_parse_from(&["manage", "makemigrations", "--empty", "--check"]),
        Err(CliError::Conflict("check", "empty"))
    );
    assert_eq!(
        Cli::try_parse_from(&["manage", "createsuperuser", "--password", "secret"]),
        Err(CliError::MissingOption("username"))
    );
}
