use che_rest::cli::{Cli, CommandKind};
use che_rest::management::{
    atlas_diff, atlas_hash, atlas_lint, check_atlas_files, empty_migration_file_name, file_url,
    initial_batch_outcome, migration_file_name, migration_module_name, migration_version,
    next_operation_migration_number, numbered_migration_name, operation_migration_outcome,
    validate_operation_migration_name, AtlasFile, ManageError, Management, MigrateRun,
    MigrationId, Outcome, Step, EMPTY_MIGRATION_SQL,
};
use che_rest::registry::{ensure_compiled_registry_matches, rendered_registry_update};

fn plan(management: &Management, args: &[&str]) -> Result<Step, ManageError> {
    let cli = Cli::try_parse_from(args).unwrap();
    management.plan(cli.command, "auto_1".to_string())
}

fn id(app: &str, name: &str) -> MigrationId {
    MigrationId { app: app.to_string(), name: name.to_string() }
}

#[test]
fn migration_plan_cli_rejects_legacy_and_conflicting_actions() {
    let error = plan(&Management::new(vec![]), &["manage", "migrate", "--plan"]).unwrap_err();
    assert!(error.message().contains("requires compiled"));
    let error = plan(&Management::new(vec![]).migrations(vec![]), &["manage", "migrate", "--plan", "apply"])
        .unwrap_err();
    assert!(error.message().contains("cannot be combined"));

    let error = plan(&Management::new(vec![]), &["manage", "sqlmigrate", "tasks", "0001_initial"]).unwrap_err();
    assert!(error.message().contains("requires compiled"));

    let error = plan(&Management::new(vec![]), &["manage", "showmigrations"]).unwrap_err();
    assert!(error.message().contains("requires compiled"));
}

#[test]
fn empty_migration_contains_manual_sql_prompt() {
    let version = migration_version("2026-09-14T12:00:00.123456+00:00");
    assert_eq!(version, "20260914120000");
    assert_eq!(
        empty_migration_file_name(&version, "backfill_tasks"),
        "20260914120000_backfill_tasks.sql"
    );
    assert!(EMPTY_MIGRATION_SQL.contains("data backfill"));
}

#[test]
fn compiled_makemigrations_creates_the_next_number_and_registry_entry() {
    let number = next_operation_migration_number(&vec![], "tasks").unwrap();
    let first = numbered_migration_name(number, "initial");
    assert_eq!(first, "0001_initial");
    assert_eq!(migration_file_name(&first), "m0001_initial.rs");
    let registry = rendered_registry_update(None, &migration_module_name(&first)).unwrap();
    assert_eq!(
        registry,
        "// che-orm: migrations begin\npub mod m0001_initial;\npub fn all() -> Vec<che_orm::Migration> { vec![m0001_initial::migration()] }\n// che-orm: migrations end\n"
    );
    let history = vec![id("tasks", &first)];
    let number = next_operation_migration_number(&history, "tasks").unwrap();
    assert_eq!(numbered_migration_name(number, "manual"), "0002_manual");
}

#[test]
fn registry_keeps_modules_sorted_and_refuses_duplicates() {
    let one = rendered_registry_update(None, "m0002_b").unwrap();
    let two = rendered_registry_update(Some(one.clone()), "m0001_a").unwrap();
    assert_eq!(
        two,
        "// che-orm: migrations begin\npub mod m0001_a;\npub mod m0002_b;\npub fn all() -> Vec<che_orm::Migration> { vec![m0001_a::migration(), m0002_b::migration()] }\n// che-orm: migrations end\n"
    );
    assert_eq!(
        rendered_registry_update(Some(two), "m0002_b"),
        Err(ManageError::ModuleRegistered("m0002_b".into()))
    );
}

#[test]
fn registry_keeps_text_around_the_markers() {
    let current = "//! migrations\n// che-orm: migrations begin\n// che-orm: migrations end\nfn extra() {}\n";
    let updated = rendered_registry_update(Some(current.to_string()), "m0001_x").unwrap();
    assert_eq!(
        updated,
        "//! migrations\n// che-orm: migrations begin\npub mod m0001_x;\npub fn all() -> Vec<che_orm::Migration> { vec![m0001_x::migration()] }\n// che-orm: migrations end\nfn extra() {}\n"
    );
}

#[test]
fn registry_markers_must_be_present_and_ordered() {
    assert_eq!(
        rendered_registry_update(Some("nothing".into()), "m0001_a"),
        Err(ManageError::RegistryMissingBegin)
    );
    assert_eq!(
        rendered_registry_update(Some("// che-orm: migrations begin\n".into()), "m0001_a"),
        Err(ManageError::RegistryMissingEnd)
    );
    assert_eq!(
        rendered_registry_update(
            Some("// che-orm: migrations end\n// che-orm: migrations begin\n".into()),
            "m0001_a"
        ),
        Err(ManageError::RegistryMarkerOrder)
    );
}

#[test]
fn compiled_registry_must_match_the_migration_files() {
    let history = vec![id("tasks", "0001_initial"), id("users", "0001_initial")];
    let files = vec!["mod.rs".to_string(), "m0001_initial.rs".to_string(), "notes.txt".to_string()];
    assert_eq!(ensure_compiled_registry_matches("apps/tasks/migrations", &history, "tasks", &files), Ok(()));
    let stale = vec!["mod.rs".to_string()];
    let error = ensure_compiled_registry_matches("apps/tasks/migrations", &history, "tasks", &stale).unwrap_err();
    assert_eq!(
        error,
        ManageError::RegistryDiffers { app: "tasks".into(), dir: "apps/tasks/migrations".into() }
    );
    assert!(error.message().contains("Rebuild the management binary"));
}

#[test]
fn migration_numbers_need_a_numeric_prefix_and_room() {
    let history = vec![id("tasks", "0003_x"), id("users", "0009_y"), id("tasks", "0001_a")];
    assert_eq!(next_operation_migration_number(&history, "tasks"), Ok(4));
    let bad = vec![id("tasks", "initial")];
    assert_eq!(
        next_operation_migration_number(&bad, "tasks"),
        Err(ManageError::NoNumericPrefix("initial".into()))
    );
    let full = vec![id("tasks", "4294967295_last")];
    assert_eq!(next_operation_migration_number(&full, "tasks"), Err(ManageError::NumberOverflow));
    assert_eq!(numbered_migration_name(12345, "big"), "12345_big");
}

#[test]
fn migration_names_are_ascii_words() {
    assert_eq!(validate_operation_migration_name("add_tasks_2"), Ok(()));
    assert_eq!(validate_operation_migration_name(""), Err(ManageError::InvalidMigrationName));
    assert_eq!(validate_operation_migration_name("add-tasks"), Err(ManageError::InvalidMigrationName));
}

#[test]
fn makemigrations_plans_per_history_kind() {
    let files = Management::new(vec!["tasks".into()]);
    match plan(&files, &["manage", "makemigrations", "backfill", "--empty"]).unwrap() {
        Step::EmptyMigration { name, .. } => assert_eq!(name, "backfill"),
        other => panic!("unexpected step {:?}", other),
    }
    match plan(&files, &["manage", "makemigrations"]).unwrap() {
        Step::AtlasDiff { name, .. } => assert_eq!(name, "auto_1"),
        other => panic!("unexpected step {:?}", other),
    }
    let compiled = Management::new(vec!["tasks".into()]).migrations(vec![]);
    assert_eq!(
        plan(&compiled, &["manage", "makemigrations", "--merge"]).unwrap_err(),
        ManageError::MergeNeedsApp
    );
    assert_eq!(
        plan(&compiled, &["manage", "makemigrations", "users", "--merge"]).unwrap_err(),
        ManageError::UnknownApp("users".into())
    );
    assert_eq!(
        plan(&compiled, &["manage", "makemigrations", "--empty"]).unwrap_err(),
        ManageError::EmptyNeedsApp
    );
    match plan(&compiled, &["manage", "makemigrations"]).unwrap() {
        Step::InitialBatch { label, .. } => assert_eq!(label, "initial"),
        other => panic!("unexpected step {:?}", other),
    }
    let with_history = Management::new(vec!["tasks".into()]).migrations(vec![id("tasks", "0001_initial")]);
    assert_eq!(
        plan(&with_history, &["manage", "makemigrations"]).unwrap_err(),
        ManageError::BatchNeedsEmptyHistory
    );
}

#[test]
fn migrate_targets_and_subcommands() {
    let files = Management::new(vec![]);
    match plan(&files, &["manage", "migrate", "tasks"]).unwrap() {
        Step::RefuseAfterConfig { config, error } => {
            assert_eq!(config, "app.toml");
            assert_eq!(error, ManageError::TargetNeedsCompiled);
        }
        other => panic!("unexpected step {:?}", other),
    }
    assert!(Cli::try_parse_from(&["manage", "migrate", "a", "b", "c"]).is_err());
    let three = CommandKind::Migrate {
        action: None,
        target: vec!["a".into(), "b".into(), "c".into()],
        plan: false,
        config: "app.toml".into(),
        dir: "migrations".into(),
    };
    assert_eq!(files.plan(three, "auto_1".into()).unwrap_err(), ManageError::TooManyTargets);
    assert_eq!(
        plan(&files, &["manage", "migrate", "tasks", "--plan"]).unwrap_err(),
        ManageError::TargetWithPlanOrAction
    );
    match plan(&files, &["manage", "migrate"]).unwrap() {
        Step::Migrate { run, .. } => assert_eq!(run, MigrateRun::ApplyFiles),
        other => panic!("unexpected step {:?}", other),
    }
    let compiled = Management::new(vec![]).migrations(vec![]);
    match plan(&compiled, &["manage", "migrate", "tasks", "0002_x"]).unwrap() {
        Step::MigrateTo { app, name, .. } => {
            assert_eq!(app, "tasks");
            assert_eq!(name, Some("0002_x".to_string()));
        }
        other => panic!("unexpected step {:?}", other),
    }
    match plan(&compiled, &["manage", "migrate", "lint"]).unwrap() {
        Step::RefuseAfterConfig { error, .. } => assert_eq!(error, ManageError::AtlasUnavailable),
        other => panic!("unexpected step {:?}", other),
    }
}

#[test]
fn generation_outcomes_follow_check_and_dry_run() {
    assert_eq!(initial_batch_outcome(0, true, true), Ok(Outcome::NoChanges));
    assert_eq!(initial_batch_outcome(2, true, false), Err(ManageError::InitialMigrationsNeeded));
    assert_eq!(initial_batch_outcome(2, false, true), Ok(Outcome::Print));
    assert_eq!(initial_batch_outcome(2, false, false), Ok(Outcome::Write));
    assert_eq!(operation_migration_outcome("tasks".into(), None, true, false), Ok(Outcome::NoChanges));
    let error = operation_migration_outcome("tasks".into(), Some("0002_x".into()), true, false).unwrap_err();
    assert_eq!(error.message(), "model changes for tasks need migration 0002_x");
    assert_eq!(operation_migration_outcome("tasks".into(), Some("0002_x".into()), false, false), Ok(Outcome::Write));
}

#[test]
fn atlas_files_are_checked_in_order() {
    let entry = |path: &str, file: &str| (path.to_string(), file.to_string(), format!("-- {file}"));
    let good = vec![
        entry("m/atlas.sum", "atlas.sum"),
        entry("m/20260101000000_init.sql", "20260101000000_init.sql"),
        entry("m/20260102000000_more.sql", "20260102000000_more.sql"),
    ];
    assert_eq!(
        check_atlas_files(&good).unwrap(),
        vec![
            AtlasFile {
                version: "20260101000000".into(),
                name: "init".into(),
                path: "m/20260101000000_init.sql".into(),
                sql: "-- 20260101000000_init.sql".into(),
            },
            AtlasFile {
                version: "20260102000000".into(),
                name: "more".into(),
                path: "m/20260102000000_more.sql".into(),
                sql: "-- 20260102000000_more.sql".into(),
            },
        ]
    );
    assert_eq!(
        check_atlas_files(&vec![entry("m/init.sql", "init.sql")]),
        Err(ManageError::InvalidAtlasFilename("m/init.sql".into()))
    );
    assert_eq!(
        check_atlas_files(&vec![entry("m/2026_init.sql", "2026_init.sql")]),
        Err(ManageError::InvalidAtlasVersion { version: "2026".into(), path: "m/2026_init.sql".into() })
    );
    assert_eq!(
        check_atlas_files(&vec![entry("m/20260101000000_a-b.sql", "20260101000000_a-b.sql")]),
        Err(ManageError::InvalidAtlasName { name: "a-b".into(), path: "m/20260101000000_a-b.sql".into() })
    );
    assert_eq!(
        check_atlas_files(&vec![
            entry("m/20260101000000_a.sql", "20260101000000_a.sql"),
            entry("m/20260101000000_b.sql", "20260101000000_b.sql"),
        ]),
        Err(ManageError::DuplicateVersion("20260101000000".into()))
    );
}

#[test]
fn atlas_arguments_use_file_urls() {
    assert_eq!(file_url("migrations", "/srv/app"), "file:///srv/app/migrations");
    assert_eq!(file_url("/abs/dir", "/srv/app"), "file:///abs/dir");
    assert_eq!(
        atlas_lint("file:///m"),
        vec!["migrate", "lint", "--dir", "file:///m", "--dev-url", "sqlite://dev?mode=memory", "--latest", "1"]
    );
    assert_eq!(
        atlas_diff("init", "file:///m", "file:///s.sql"),
        vec!["migrate", "diff", "init", "--dir", "file:///m", "--to", "file:///s.sql", "--dev-url", "sqlite://dev?mode=memory"]
    );
    assert_eq!(atlas_hash("file:///m"), vec!["migrate", "hash", "--dir", "file:///m"]);
}
