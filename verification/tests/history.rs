use che_rest::batch::{build_initial_cycle_batch, validate_generated_references, ColumnPlan, ModelPlan};
use che_rest::history::{
    app_heads, merge_branches, merge_verdict, describe_migration_operation, generated_dependencies, load_atlas_migrations,
    migration_closure, migration_status_report, pending_migrations, render_migration_list,
    render_migration_plan, render_migration_sql, resolve_operation_migration_target,
    sqlmigrate_target, AppliedMigration, MigrationSummary, OperationSummary, SqlMigration,
};
use che_rest::management::{next_operation_migration_number, numbered_migration_name, ManageError, MigrationId};

fn id(app: &str, name: &str) -> MigrationId {
    MigrationId { app: app.into(), name: name.into() }
}

fn node(app: &str, name: &str, deps: &[(&str, &str)], operations: Vec<OperationSummary>) -> MigrationSummary {
    MigrationSummary {
        id: id(app, name),
        dependencies: deps.iter().map(|(a, n)| id(a, n)).collect(),
        operations,
    }
}

fn graph() -> Vec<MigrationSummary> {
    vec![
        node("tasks", "0001_initial", &[], vec![OperationSummary::CreateTable { table: "tasks".into() }]),
        node("users", "0001_initial", &[], vec![]),
        node("tasks", "0002_owner", &[("tasks", "0001_initial"), ("users", "0001_initial")], vec![]),
        node("tasks", "0003_branch", &[("tasks", "0001_initial")], vec![]),
    ]
}

#[test]
fn plan_lists_pending_migrations_with_warnings() {
    let removal = OperationSummary::RemoveColumn { table: "tasks".into(), column: "title".into() };
    assert_eq!(describe_migration_operation(&removal), "RemoveColumn tasks.title — WARNING: deletes all column data");
    let manual = OperationSummary::RunSql { state_operations: 2 };
    assert_eq!(
        describe_migration_operation(&manual),
        "RunSql (2 state operation(s)) — WARNING: manual SQL may change or delete data; inspect migration source"
    );
    let pending = vec![node("tasks", "0002_drop", &[("tasks", "0001_initial")], vec![removal, manual])];
    let plan = render_migration_plan(&pending);
    assert_eq!(
        plan,
        "Forward migration plan: 1 pending migration(s).\n\npending tasks:0002_drop\n  Dependencies: tasks:0001_initial\n  RemoveColumn tasks.title — WARNING: deletes all column data\n  RunSql (2 state operation(s)) — WARNING: manual SQL may change or delete data; inspect migration source\n\nPreview only: no migrations applied. SQL and live-schema compatibility are checked on apply.\n"
    );
}

#[test]
fn operations_are_described_by_the_names_they_touch() {
    let cases = vec![
        (OperationSummary::CreateModel { app: "a".into(), model: "Task".into(), table: "a_task".into() }, "CreateModel a:Task (table a_task)"),
        (OperationSummary::DropTable { name: "t".into() }, "DropTable t — WARNING: deletes all table data"),
        (OperationSummary::AddColumn { table: "t".into(), column: "c".into() }, "AddColumn t.c"),
        (OperationSummary::RenameTable { old_name: "a".into(), new_name: "b".into() }, "RenameTable a -> b"),
        (OperationSummary::RenameColumn { table: "t".into(), old_name: "a".into(), new_name: "b".into() }, "RenameColumn t.a -> b"),
        (
            OperationSummary::AlterColumn { table: "t".into(), old_column: "a".into(), new_column: "b".into() },
            "AlterColumn t.a -> b — WARNING: review type, constraints and data compatibility",
        ),
        (OperationSummary::AddIndex { table: "t".into(), columns: vec!["a".into(), "b".into()] }, "AddIndex t (a, b)"),
        (OperationSummary::RemoveUniqueConstraint { table: "t".into(), columns: vec!["a".into()] }, "RemoveUniqueConstraint t (a)"),
    ];
    for (op, text) in cases {
        assert_eq!(describe_migration_operation(&op), text);
    }
    let empty = render_migration_plan(&vec![node("a", "0001_x", &[], vec![])]);
    assert!(empty.contains("  Dependencies: none\n  (no operations)\n"));
}

#[test]
fn listing_marks_applied_migrations_and_dependencies() {
    let listed = render_migration_list(&graph(), &vec![id("tasks", "0001_initial")], None);
    assert_eq!(
        listed,
        "[X] tasks:0001_initial\n[ ] users:0001_initial\n[ ] tasks:0002_owner\n    depends on: tasks:0001_initial, users:0001_initial\n[ ] tasks:0003_branch\n    depends on: tasks:0001_initial\n"
    );
    assert_eq!(render_migration_list(&graph(), &vec![], Some("users")), "[ ] users:0001_initial\n");
    assert_eq!(render_migration_list(&graph(), &vec![], Some("blog")), "No registered migrations for blog.\n");
    assert_eq!(render_migration_list(&vec![], &vec![], None), "No registered migrations.\n");
}

#[test]
fn heads_and_targets() {
    let g = graph();
    assert_eq!(app_heads(&g, "tasks"), vec![id("tasks", "0002_owner"), id("tasks", "0003_branch")]);
    assert_eq!(app_heads(&g, "users"), vec![id("users", "0001_initial")]);
    assert_eq!(resolve_operation_migration_target(&g, "tasks", None), Ok(id("tasks", "0002_owner")));
    assert_eq!(resolve_operation_migration_target(&g, "tasks", Some("0003_branch")), Ok(id("tasks", "0003_branch")));
    assert_eq!(
        resolve_operation_migration_target(&g, "tasks", Some("0009_x")),
        Err(ManageError::UnknownOperationMigration { app: "tasks".into(), name: "0009_x".into() })
    );
    assert_eq!(
        resolve_operation_migration_target(&g, "blog", Some("latest")),
        Err(ManageError::NoOperationMigrations("blog".into()))
    );
    assert_eq!(
        generated_dependencies(&g),
        vec![id("tasks", "0002_owner"), id("tasks", "0003_branch"), id("users", "0001_initial")]
    );
}

#[test]
fn closure_of_a_target_holds_its_dependencies() {
    let g = graph();
    assert_eq!(
        migration_closure(&g, &id("tasks", "0002_owner")),
        vec![id("tasks", "0001_initial"), id("users", "0001_initial"), id("tasks", "0002_owner")]
    );
    assert_eq!(migration_closure(&g, &id("tasks", "0003_branch")), vec![id("tasks", "0001_initial"), id("tasks", "0003_branch")]);
}

#[test]
fn sql_output_ends_each_statement() {
    let g = graph();
    let (index, required) = sqlmigrate_target(&g, "tasks", "0002_owner").unwrap();
    assert_eq!(index, 2);
    assert_eq!(required, vec![id("tasks", "0001_initial"), id("users", "0001_initial")]);
    let text = render_migration_sql(&g[0], &vec!["CREATE TABLE tasks (id INTEGER)".into(), "CREATE INDEX i ON tasks (id);  ".into()]);
    assert_eq!(text, "-- tasks:0001_initial\nCREATE TABLE tasks (id INTEGER);\nCREATE INDEX i ON tasks (id);  \n");
    assert_eq!(render_migration_sql(&g[1], &vec![]), "-- users:0001_initial\n-- This migration has no SQL operations.\n");
    assert_eq!(
        sqlmigrate_target(&g, "tasks", "0001_missing").unwrap_err().message(),
        "unknown operation migration tasks:0001_missing; use its registered app and name"
    );
}

fn entry(path: &str, file: &str, sql: &str) -> (String, String, String) {
    (path.into(), file.into(), sql.into())
}

#[test]
fn atlas_migrations_load_in_version_order() {
    let entries = vec![
        entry("m/atlas.sum", "atlas.sum", "h1"),
        entry("m/20260102000000_more.sql", "20260102000000_more.sql", "ALTER TABLE t ADD c;"),
        entry("m/20260101000000_init.sql", "20260101000000_init.sql", "CREATE TABLE t (id);"),
    ];
    let loaded = load_atlas_migrations(&entries).unwrap();
    assert_eq!(loaded.len(), 2);
    assert_eq!((loaded[0].version, loaded[0].name.as_str()), (20260101000000, "init"));
    assert_eq!((loaded[1].version, loaded[1].name.as_str()), (20260102000000, "more"));
    assert_eq!(loaded[0].sql, "CREATE TABLE t (id);");
    let expected = refinery::Migration::unapplied("V20260101000000__init", "CREATE TABLE t (id);").unwrap();
    assert_eq!(loaded[0].checksum, expected.checksum());
    assert_ne!(loaded[0].checksum, loaded[1].checksum);
    assert_eq!(
        load_atlas_migrations(&vec![entry("m/x.sql", "x.sql", "")]),
        Err(ManageError::InvalidAtlasFilename("m/x.sql".into()))
    );
}

fn sql(version: i64, name: &str, checksum: u64) -> SqlMigration {
    SqlMigration { version, name: name.into(), checksum, sql: String::new() }
}

fn applied(version: i64, name: &str, checksum: u64) -> AppliedMigration {
    AppliedMigration { version, name: name.into(), checksum }
}

#[test]
fn status_of_a_fresh_history_is_all_pending() {
    let files = vec![sql(1, "a", 10), sql(2, "b", 20)];
    let report = migration_status_report(&files, &vec![]);
    assert_eq!(report.text, "pending V1__a\npending V2__b\n");
    assert_eq!(report.pending, 2);
    assert!(!report.problem);
    assert_eq!(pending_migrations(&files, &vec![]), Ok(vec![0, 1]));
}

#[test]
fn changed_or_missing_history_is_refused() {
    let files = vec![sql(1, "a", 10), sql(2, "b", 20)];
    let history = vec![applied(1, "a", 11)];
    let report = migration_status_report(&files, &history);
    assert_eq!(report.text, "divergent V1__a (filesystem: V1__a)\npending V2__b\n");
    assert!(report.problem);
    assert_eq!(
        pending_migrations(&files, &history).unwrap_err().message(),
        "divergent V1__a (filesystem: V1__a)"
    );
    let gone = vec![applied(3, "c", 30)];
    assert_eq!(pending_migrations(&files, &gone), Err(ManageError::MissingHistory("V3__c".into())));
    let fine = vec![applied(1, "a", 10)];
    let report = migration_status_report(&files, &fine);
    assert_eq!(report.text, "applied V1__a\npending V2__b\n");
    assert_eq!(pending_migrations(&files, &fine), Ok(vec![1]));
}

fn model(app: &str, table: &str, refs: &[(&str, Option<&str>)]) -> ModelPlan {
    ModelPlan {
        app: app.into(),
        table: table.into(),
        columns: refs
            .iter()
            .map(|(name, reference)| ColumnPlan { name: name.to_string(), reference: reference.map(|r| r.to_string()) })
            .collect(),
    }
}

#[test]
fn initial_batch_moves_cross_app_keys_to_a_second_migration() {
    let models = vec![
        model("tasks", "tasks_task", &[("id", None), ("owner_id", Some("users_user(id)")), ("parent_id", Some("tasks_task(id)"))]),
        model("users", "users_user", &[("id", None), ("last_task_id", Some("tasks_task(id)"))]),
    ];
    let batch = build_initial_cycle_batch(&models, "initial").unwrap();
    let ids: Vec<(String, String)> = batch.iter().map(|p| (p.id.app.clone(), p.id.name.clone())).collect();
    assert_eq!(
        ids,
        vec![
            ("tasks".into(), "0001_initial".into()),
            ("users".into(), "0001_initial".into()),
            ("tasks".into(), "0002_relationships".into()),
            ("users".into(), "0002_relationships".into()),
        ]
    );
    assert_eq!(batch[0].models, vec![0]);
    assert!(batch[0].dependencies.is_empty());
    assert_eq!(batch[2].relationships, vec![(0, 1)]);
    assert_eq!(batch[2].dependencies, vec![id("tasks", "0001_initial"), id("users", "0001_initial")]);
    assert_eq!(batch[3].relationships, vec![(1, 1)]);
    assert_eq!(
        build_initial_cycle_batch(&models, "bad-label").unwrap_err(),
        ManageError::InvalidMigrationName
    );
}

#[test]
fn generated_foreign_keys_need_their_target() {
    let table_apps = vec![("tasks_task".to_string(), "tasks".to_string()), ("users_user".to_string(), "users".to_string())];
    let desired = vec![("tasks".to_string(), "tasks_task".to_string(), "id".to_string())];
    let history: Vec<(String, String, String)> = vec![];
    let references = vec!["tasks_task(id)".to_string(), "users_user(id)".to_string()];
    let error = validate_generated_references(&references, &table_apps, "tasks", &desired, &history).unwrap_err();
    assert_eq!(
        error.message(),
        "foreign key users_user(id) needs a migration for application users; generate and register it first"
    );
    let history = vec![("users".to_string(), "users_user".to_string(), "id".to_string())];
    assert_eq!(validate_generated_references(&references, &table_apps, "tasks", &desired, &history), Ok(()));
    assert_eq!(
        validate_generated_references(&vec!["broken".to_string()], &table_apps, "tasks", &desired, &history),
        Err(ManageError::InvalidForeignKey)
    );
    assert_eq!(
        validate_generated_references(&vec!["other(id)".to_string()], &table_apps, "tasks", &desired, &history),
        Ok(())
    );
}

#[test]
fn migration_plan_warns_about_column_removal_and_manual_sql() {
    let removal = describe_migration_operation(&OperationSummary::RemoveColumn { table: "items".into(), column: "name".into() });
    assert!(removal.contains("items.name — WARNING: deletes all column data"));
    let sql = describe_migration_operation(&OperationSummary::RunSql { state_operations: 0 });
    assert!(sql.contains("WARNING: manual SQL may change or delete data"));
}

#[test]
fn showmigrations_lists_status_dependencies_and_does_not_create_database() {
    let migrations = vec![
        node("tasks", "0001_initial", &[], vec![]),
        node("tasks", "0002_remove", &[("tasks", "0001_initial")], vec![]),
    ];
    let output = render_migration_list(&migrations, &vec![], None);
    assert_eq!(output, "[ ] tasks:0001_initial\n[ ] tasks:0002_remove\n    depends on: tasks:0001_initial\n");
}

#[test]
fn generator_review_requires_historical_cross_app_target() {
    let desired = vec![
        ("review".to_string(), "review_items".to_string(), "id".to_string()),
        ("source".to_string(), "sources".to_string(), "id".to_string()),
    ];
    let references = vec!["review_items(id)".to_string()];
    let owners = vec![("review_items".to_string(), "review".to_string())];
    assert!(validate_generated_references(&references, &owners, "source", &desired, &vec![]).is_err());
    assert!(validate_generated_references(&references, &owners, "source", &desired, &desired).is_ok());
}

fn merge_graph() -> Vec<MigrationSummary> {
    vec![
        node("tasks", "0001_initial", &[], vec![OperationSummary::CreateTable { table: "items".into() }]),
        node(
            "tasks",
            "0002_add_description",
            &[("tasks", "0001_initial")],
            vec![OperationSummary::AddColumn { table: "items".into(), column: "description".into() }],
        ),
        node(
            "tasks",
            "0002_add_title",
            &[("tasks", "0001_initial")],
            vec![OperationSummary::AddColumn { table: "items".into(), column: "title".into() }],
        ),
    ]
}

#[test]
fn merge_generation_requires_two_compatible_declarative_heads() {
    let branches = merge_branches(&merge_graph(), "tasks", "merge").unwrap();
    assert_eq!(branches.left_head, id("tasks", "0002_add_description"));
    assert_eq!(branches.right_head, id("tasks", "0002_add_title"));
    assert_eq!(branches.common, vec![id("tasks", "0001_initial")]);
    assert_eq!(branches.left, vec![id("tasks", "0002_add_description")]);
    assert_eq!(branches.right, vec![id("tasks", "0002_add_title")]);
    let ids: Vec<MigrationId> = merge_graph().iter().map(|m| m.id.clone()).collect();
    let number = next_operation_migration_number(&ids, "tasks").unwrap();
    assert_eq!(numbered_migration_name(number, "merge"), "0003_merge");
    let dependencies = [branches.left_head.name.as_str(), branches.right_head.name.as_str()];
    assert_eq!(dependencies, ["0002_add_description", "0002_add_title"]);
    assert_eq!(merge_verdict(Ok(()), Ok(()), true), Ok(()));
    assert!(merge_verdict(Ok(()), Err("duplicate column".into()), false)
        .unwrap_err()
        .message()
        .contains("not compatible"));
}

#[test]
fn merge_generation_rejects_manual_sql_and_non_branches() {
    let mut graph = merge_graph();
    graph[1].operations = vec![OperationSummary::RunSql { state_operations: 1 }];
    let error = merge_branches(&graph, "tasks", "merge").unwrap_err();
    assert!(error.message().contains("contains RunSql"));
    assert_eq!(
        error.message(),
        "cannot prove merge compatibility for tasks:0002_add_description because it contains RunSql; write an explicit reviewed merge migration"
    );
    let single = vec![node("tasks", "0001_initial", &[], vec![])];
    assert!(merge_branches(&single, "tasks", "merge").unwrap_err().message().contains("no conflicting"));
    let mut three = merge_graph();
    three.push(node("tasks", "0002_add_notes", &[("tasks", "0001_initial")], vec![]));
    assert_eq!(
        merge_branches(&three, "tasks", "merge").unwrap_err().message(),
        "tasks has 3 migration heads; merge them manually in smaller reviewed steps"
    );
    assert_eq!(merge_branches(&merge_graph(), "tasks", "bad-label").unwrap_err(), ManageError::InvalidMigrationName);
    assert_eq!(
        merge_verdict(Ok(()), Ok(()), false).unwrap_err().message(),
        "migration branches produce different historical states; write an explicit reviewed merge migration"
    );
    assert_eq!(
        merge_verdict(Err("a".into()), Err("b".into()), false).unwrap_err().message(),
        "migration branches are not compatible (a; b); write an explicit reviewed merge migration"
    );
}

#[test]
fn migration_plan_does_not_create_database() {
    let pending = vec![
        node("tasks", "0001_initial", &[], vec![OperationSummary::CreateTable { table: "items".into() }]),
        node("tasks", "0002_remove", &[("tasks", "0001_initial")], vec![OperationSummary::DropTable { name: "items".into() }]),
    ];
    let plan = render_migration_plan(&pending);
    assert!(plan.contains("2 pending migration(s)"));
    assert!(plan.contains("Dependencies: tasks:0001_initial"));
    assert!(plan.contains("DropTable items — WARNING: deletes all table data"));
    assert!(plan.find("pending tasks:0001").unwrap() < plan.find("pending tasks:0002").unwrap());
}

#[test]
fn sqlmigrate_target_finds_a_manual_migration_and_renders_its_sql() {
    let ordered = vec![node("tasks", "0001_manual", &[], vec![OperationSummary::RunSql { state_operations: 1 }])];
    let (index, required) = sqlmigrate_target(&ordered, "tasks", "0001_manual").unwrap();
    assert_eq!(index, 0);
    assert!(required.is_empty());
    let sql = render_migration_sql(&ordered[index], &vec!["CREATE TABLE notes (id INTEGER PRIMARY KEY)".to_string()]);
    assert!(sql.contains("CREATE TABLE notes (id INTEGER PRIMARY KEY);"));
    assert!(sqlmigrate_target(&vec![], "tasks", "missing")
        .unwrap_err()
        .message()
        .contains("unknown operation migration tasks:missing"));
}
