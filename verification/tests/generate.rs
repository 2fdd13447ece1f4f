use che_orm::{
    ColumnState, ColumnType, Migration, MigrationGraph, MigrationId, MigrationOperation, ModelKey, ModelState,
    ProjectState, TableState,
};
use che_rest::generate::{build_operation_migration, check_batch_replays, merge_replays, operation_migration_sql, order_generated_operations};
use che_rest::history::MergeBranches;
use che_rest::management::ManageError;

fn column(name: &str, primary_key: bool) -> ColumnState {
    ColumnState {
        field_name: name.into(),
        name: name.into(),
        column_type: if primary_key { ColumnType::Integer } else { ColumnType::Text },
        nullable: !primary_key,
        primary_key,
        unique: false,
        default: None,
        check: None,
        choices: None,
        references: None,
        auto_now_add: false,
        auto_now: false,
    }
}

fn items_model() -> ModelState {
    ModelState {
        key: ModelKey { app: "tasks".into(), name: "Item".into() },
        table: TableState {
            name: "items".into(),
            columns: vec![column("id", true)],
            unique_constraints: vec![],
            indexes: vec![],
        },
    }
}

fn id(name: &str) -> MigrationId {
    MigrationId { app: "tasks".into(), name: name.into() }
}

fn initial() -> Migration {
    Migration::new(id("0001_initial"), vec![], vec![MigrationOperation::CreateModel { model: items_model() }])
}

fn add_title() -> MigrationOperation {
    MigrationOperation::AddColumn { table: "items".into(), column: column("title", false) }
}

fn replay(migrations: Vec<Migration>) -> ProjectState {
    MigrationGraph::new(migrations).unwrap().replay(ProjectState::default()).unwrap()
}

#[test]
fn generated_operations_are_ordered_by_what_applies_first() {
    let pending = vec![add_title(), MigrationOperation::CreateModel { model: items_model() }];
    let (ordered, reached) = order_generated_operations(pending, &ProjectState::default()).unwrap();
    assert!(matches!(ordered[0], MigrationOperation::CreateModel { .. }));
    assert!(matches!(ordered[1], MigrationOperation::AddColumn { .. }));
    assert_eq!(reached.tables()[0].columns.len(), 2);
    let error = order_generated_operations(vec![add_title()], &ProjectState::default()).unwrap_err();
    assert!(error.message().starts_with("cannot order generated operations; explicit migration required: "));
}

#[test]
fn makemigrations_builds_the_next_numbered_migration_of_the_app() {
    let history = vec![initial()];
    let desired = replay(vec![initial(), Migration::new(id("0002_x"), vec![id("0001_initial")], vec![add_title()])]);
    let apps = vec!["tasks".to_string()];
    let migration = build_operation_migration(&apps, &desired, &history, "tasks", "add_title", false).unwrap().unwrap();
    assert_eq!(migration.id, id("0002_add_title"));
    assert_eq!(migration.dependencies, vec![id("0001_initial")]);
    assert_eq!(migration.operations.len(), 1);
    assert!(matches!(migration.operations[0], MigrationOperation::AddColumn { .. }));

    let same = replay(vec![initial()]);
    assert!(build_operation_migration(&apps, &same, &history, "tasks", "nothing", false).unwrap().is_none());
    let empty = build_operation_migration(&apps, &same, &history, "tasks", "backfill", true).unwrap().unwrap();
    assert_eq!(empty.id, id("0002_backfill"));
    assert!(empty.operations.is_empty());
}

#[test]
fn makemigrations_checks_the_label_and_the_app_first() {
    let apps = vec!["tasks".to_string()];
    let desired = replay(vec![initial()]);
    assert_eq!(
        build_operation_migration(&apps, &desired, &vec![initial()], "tasks", "bad-label", false),
        Err(ManageError::InvalidMigrationName)
    );
    assert_eq!(
        build_operation_migration(&apps, &desired, &vec![initial()], "notes", "x", false),
        Err(ManageError::UnknownApp("notes".into()))
    );
}

fn app_id(app: &str, name: &str) -> MigrationId {
    MigrationId { app: app.into(), name: name.into() }
}

fn full_column(name: &str, column_type: ColumnType, nullable: bool, primary_key: bool) -> ColumnState {
    ColumnState {
        field_name: name.into(),
        name: name.into(),
        column_type,
        nullable,
        primary_key,
        unique: false,
        default: None,
        check: None,
        choices: None,
        references: None,
        auto_now_add: false,
        auto_now: false,
    }
}

#[test]
fn sqlmigrate_renders_target_against_its_historical_dependencies() {
    let initial = Migration::new(
        app_id("tasks", "0001_initial"),
        vec![],
        vec![MigrationOperation::CreateTable {
            table: TableState {
                name: "items".into(),
                columns: vec![full_column("id", ColumnType::Integer, false, true)],
                indexes: vec![],
                unique_constraints: vec![],
            },
        }],
    );
    let add_title = Migration::new(
        app_id("tasks", "0002_add_title"),
        vec![initial.id.clone()],
        vec![MigrationOperation::AddColumn {
            table: "items".into(),
            column: full_column("title", ColumnType::Text, true, false),
        }],
    );
    let sql = operation_migration_sql(&vec![initial.clone(), add_title], "tasks", "0002_add_title").unwrap();
    assert!(sql.starts_with("-- tasks:0002_add_title\n"));
    assert!(sql.contains("CREATE TABLE \"__che_migration_new_items\""));
    assert!(sql.contains("\"id\" INTEGER PRIMARY KEY"));
    assert!(sql.contains("\"title\" TEXT"));
    assert!(sql.contains("INSERT INTO \"__che_migration_new_items\""));
    assert!(sql.ends_with(";\n"));

    let initial_sql = operation_migration_sql(&vec![initial], "tasks", "0001_initial").unwrap();
    assert!(initial_sql.contains("CREATE TABLE \"items\""));
    assert!(!initial_sql.contains("__che_migration"));
}

#[test]
fn sqlmigrate_preserves_manual_sql_and_rejects_unknown_migration() {
    let migration = Migration::new(
        app_id("tasks", "0001_manual"),
        vec![],
        vec![MigrationOperation::RunSql {
            forward: "CREATE TABLE notes (id INTEGER PRIMARY KEY)".into(),
            reverse: None,
            state_operations: vec![MigrationOperation::CreateTable {
                table: TableState { name: "notes".into(), columns: vec![], indexes: vec![], unique_constraints: vec![] },
            }],
        }],
    );
    let sql = operation_migration_sql(&vec![migration], "tasks", "0001_manual").unwrap();
    assert!(sql.contains("CREATE TABLE notes (id INTEGER PRIMARY KEY);"));
    assert!(operation_migration_sql(&vec![], "tasks", "missing")
        .unwrap_err()
        .message()
        .contains("unknown operation migration tasks:missing"));
}

#[test]
fn sqlmigrate_of_a_migration_without_operations_says_so() {
    let empty = Migration::new(app_id("tasks", "0001_empty"), vec![], vec![]);
    let sql = operation_migration_sql(&vec![empty], "tasks", "0001_empty").unwrap();
    assert_eq!(sql, "-- tasks:0001_empty\n-- This migration has no SQL operations.\n");
    let missing = Migration::new(app_id("tasks", "0002_next"), vec![app_id("tasks", "0001_gone")], vec![]);
    let error = operation_migration_sql(&vec![missing], "tasks", "0002_next").unwrap_err();
    assert!(matches!(error, ManageError::OrmError(ref m) if m.starts_with("invalid operation migration graph: ")));
}

fn branch_history(left_column: &str, right_column: &str) -> (Vec<Migration>, MergeBranches) {
    let initial = Migration::new(
        app_id("tasks", "0001_initial"),
        vec![],
        vec![MigrationOperation::CreateTable {
            table: TableState {
                name: "items".into(),
                columns: vec![full_column("id", ColumnType::Integer, false, true)],
                indexes: vec![],
                unique_constraints: vec![],
            },
        }],
    );
    let add = |name: &str, column: &str| {
        Migration::new(
            app_id("tasks", name),
            vec![initial.id.clone()],
            vec![MigrationOperation::AddColumn {
                table: "items".into(),
                column: full_column(column, ColumnType::Text, true, false),
            }],
        )
    };
    let left = add("0002_left", left_column);
    let right = add("0002_right", right_column);
    let id = |name: &str| che_rest::management::MigrationId { app: "tasks".into(), name: name.into() };
    let branches = MergeBranches {
        left_head: id("0002_left"),
        right_head: id("0002_right"),
        common: vec![id("0001_initial")],
        left: vec![id("0002_left")],
        right: vec![id("0002_right")],
    };
    (vec![initial.clone(), left, right], branches)
}

#[test]
fn merge_replays_both_orders_over_the_common_history() {
    let (migrations, branches) = branch_history("title", "done");
    let (left_then_right, right_then_left) = merge_replays(&migrations, &branches).unwrap();
    let names = |state: &ProjectState| -> Vec<String> {
        state.tables()[0].columns.iter().map(|c| c.name.clone()).collect()
    };
    assert_eq!(names(&left_then_right.unwrap()), vec!["id", "title", "done"]);
    assert_eq!(names(&right_then_left.unwrap()), vec!["id", "done", "title"]);
}

#[test]
fn merge_replays_report_branches_that_clash() {
    let (migrations, branches) = branch_history("title", "title");
    let (left_then_right, right_then_left) = merge_replays(&migrations, &branches).unwrap();
    assert!(left_then_right.is_err());
    assert!(right_then_left.is_err());
    let mut broken = migrations.clone();
    broken.pop();
    assert!(matches!(merge_replays(&broken, &branches), Ok(_)));
    broken.remove(0);
    assert!(matches!(merge_replays(&broken, &branches), Err(ManageError::OrmError(_))));
}

#[test]
fn a_batch_must_form_a_graph_that_replays() {
    assert!(check_batch_replays(&vec![]).is_ok());
    let lone = Migration::new(app_id("tasks", "0002_next"), vec![app_id("tasks", "0001_gone")], vec![]);
    assert!(matches!(check_batch_replays(&vec![lone]), Err(ManageError::OrmError(_))));
}
