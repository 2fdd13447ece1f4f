use vstd::prelude::*;

use crate::cli::{CommandKind, MigrateAction};
use crate::num::{decimal, parse_u32_chars, parse_u32_spec, u64_to_decimal};
use crate::signals::find_char;
use crate::project::{StartAppOptions, StartProjectOptions};
use crate::text::{
    char_is_alnum, char_is_digit, chars_of, ends_with, has_suffix, is_alnum, is_digit, owned,
    push_char, push_str, str_eq,
    string_of_range,
};

verus! {

/// Why a management command was refused.
#[derive(Debug, Clone, PartialEq, Eq)]
pub enum ManageError {
    MergeNeedsApp,
    UnknownApp(String),
    EmptyNeedsApp,
    BatchNeedsEmptyHistory,
    InitialMigrationsNeeded,
    MigrationNeeded { app: String, name: String },
    TooManyTargets,
    TargetWithPlanOrAction,
    PlanWithAction,
    PlanNeedsCompiled,
    TargetNeedsCompiled,
    AtlasUnavailable,
    SqlmigrateNeedsCompiled,
    ShowmigrationsNeedsCompiled,
    InvalidMigrationName,
    NoNumericPrefix(String),
    NumberOverflow,
    RegistryMissingBegin,
    RegistryMissingEnd,
    RegistryMarkerOrder,
    ModuleRegistered(String),
    RegistryDiffers { app: String, dir: String },
    InvalidAtlasFilename(String),
    InvalidAtlasVersion { version: String, path: String },
    InvalidAtlasName { name: String, path: String },
    DuplicateVersion(String),
    NoOperationMigrations(String),
    UnknownOperationMigration { app: String, name: String },
    UnknownSqlTarget { app: String, name: String },
    MissingHistory(String),
    DivergentHistory { applied: String, filesystem: String },
    HistoryMismatch,
    AtlasMigration(String),
    InvalidForeignKey,
    ForeignKeyNeedsMigration { target: String, owner: String },
    NoMergeHeads(String),
    TooManyMergeHeads { app: String, count: u64 },
    MergeRunSql { app: String, name: String },
    MergeStatesDiffer,
    MergeIncompatible(String),
    MergeIncompatibleBoth { left: String, right: String },
    OrmError(String),
    CannotOrder(String),
    NotReproduced,
}

/// The message shown to the user for `e`.
pub open spec fn manage_message(e: ManageError) -> Seq<char> {
    match e {
        ManageError::MergeNeedsApp => "compiled --merge requires an application name"@,
        ManageError::UnknownApp(app) => "unknown installed application `"@ + app@ + "`"@,
        ManageError::EmptyNeedsApp => "compiled --empty requires an application name"@,
        ManageError::BatchNeedsEmptyHistory => "batch migration generation is only supported for an empty compiled history"@,
        ManageError::InitialMigrationsNeeded => "model changes need initial migrations"@,
        ManageError::MigrationNeeded { app, name } => "model changes for "@ + app@ + " need migration "@ + name@,
        ManageError::TooManyTargets => "migrate accepts at most an app and migration name"@,
        ManageError::TargetWithPlanOrAction => "a migration target cannot be combined with --plan or a migrate subcommand"@,
        ManageError::PlanWithAction => "migrate --plan cannot be combined with a migrate subcommand"@,
        ManageError::PlanNeedsCompiled => "migrate --plan requires compiled operation migrations"@,
        ManageError::TargetNeedsCompiled => "migrate <app> [name|latest] requires compiled operation migrations"@,
        ManageError::AtlasUnavailable => "Atlas commands are unavailable for compiled operation migrations"@,
        ManageError::SqlmigrateNeedsCompiled => "sqlmigrate requires compiled operation migrations"@,
        ManageError::ShowmigrationsNeedsCompiled => "showmigrations requires compiled operation migrations"@,
        ManageError::InvalidMigrationName => "migration name must contain only ascii letters, digits, and underscores"@,
        ManageError::NoNumericPrefix(name) => "migration "@ + name@ + " has no numeric prefix"@,
        ManageError::NumberOverflow => "migration number overflow"@,
        ManageError::RegistryMissingBegin => "migration registry is missing its managed begin marker"@,
        ManageError::RegistryMissingEnd => "migration registry is missing its managed end marker"@,
        ManageError::RegistryMarkerOrder => "migration registry markers are in the wrong order"@,
        ManageError::ModuleRegistered(module) => "migration module `"@ + module@ + "` is already registered"@,
        ManageError::RegistryDiffers { app, dir } => "compiled migration registry for "@ + app@ + " differs from "@ + dir@
            + ". Rebuild the management binary after makemigrations before generating another migration"@,
        ManageError::InvalidAtlasFilename(path) => "invalid Atlas migration filename `"@ + path@ + "`; expected <version>_<name>.sql"@,
        ManageError::InvalidAtlasVersion { version, path } => "invalid Atlas migration version `"@ + version@ + "` in "@ + path@ + "; expected 14 digits"@,
        ManageError::InvalidAtlasName { name, path } => "invalid Atlas migration name `"@ + name@ + "` in "@ + path@
            + "; use only ascii letters, digits, and underscores"@,
        ManageError::DuplicateVersion(version) => "duplicate migration version `"@ + version@ + "`"@,
        ManageError::NoOperationMigrations(app) => "no registered operation migrations for "@ + app@,
        ManageError::UnknownOperationMigration { app, name } => "unknown operation migration "@ + app@ + ":"@ + name@,
        ManageError::UnknownSqlTarget { app, name } => "unknown operation migration "@ + app@ + ":"@ + name@
            + "; use its registered app and name"@,
        ManageError::MissingHistory(migration) => "missing "@ + migration@,
        ManageError::DivergentHistory { applied, filesystem } => "divergent "@ + applied@ + " (filesystem: "@ + filesystem@ + ")"@,
        ManageError::HistoryMismatch => "migration history contains missing or divergent migrations"@,
        ManageError::AtlasMigration(message) => message@,
        ManageError::InvalidForeignKey => "invalid foreign key"@,
        ManageError::ForeignKeyNeedsMigration { target, owner } => "foreign key "@ + target@ + " needs a migration for application "@
            + owner@ + "; generate and register it first"@,
        ManageError::NoMergeHeads(app) => app@ + " has no conflicting migration heads to merge"@,
        ManageError::TooManyMergeHeads { app, count } => app@ + " has "@ + decimal(count as nat)
            + " migration heads; merge them manually in smaller reviewed steps"@,
        ManageError::MergeRunSql { app, name } => "cannot prove merge compatibility for "@ + app@ + ":"@ + name@
            + " because it contains RunSql; write an explicit reviewed merge migration"@,
        ManageError::MergeStatesDiffer =>
            "migration branches produce different historical states; write an explicit reviewed merge migration"@,
        ManageError::MergeIncompatible(error) => "migration branches are not compatible ("@ + error@
            + "); write an explicit reviewed merge migration"@,
        ManageError::MergeIncompatibleBoth { left, right } => "migration branches are not compatible ("@ + left@ + "; "@
            + right@ + "); write an explicit reviewed merge migration"@,
        ManageError::OrmError(message) => message@,
        ManageError::CannotOrder(error) => "cannot order generated operations; explicit migration required: "@ + error@,
        ManageError::NotReproduced =>
            "generated operations do not reproduce the desired model state; explicit migration required"@,
    }
}

impl ManageError {
    /// The message shown to the user.
    pub fn message(&self) -> (s: String)
        ensures s@ == manage_message(*self),
    {
        let mut s = String::new();
        match self {
            ManageError::MergeNeedsApp => push_str(&mut s, "compiled --merge requires an application name"),
            ManageError::UnknownApp(app) => {
                push_str(&mut s, "unknown installed application `");
                push_str(&mut s, app.as_str());
                push_str(&mut s, "`");
            },
            ManageError::EmptyNeedsApp => push_str(&mut s, "compiled --empty requires an application name"),
            ManageError::BatchNeedsEmptyHistory => push_str(&mut s, "batch migration generation is only supported for an empty compiled history"),
            ManageError::InitialMigrationsNeeded => push_str(&mut s, "model changes need initial migrations"),
            ManageError::MigrationNeeded { app, name } => {
                push_str(&mut s, "model changes for ");
                push_str(&mut s, app.as_str());
                push_str(&mut s, " need migration ");
                push_str(&mut s, name.as_str());
            },
            ManageError::TooManyTargets => push_str(&mut s, "migrate accepts at most an app and migration name"),
            ManageError::TargetWithPlanOrAction => push_str(&mut s, "a migration target cannot be combined with --plan or a migrate subcommand"),
            ManageError::PlanWithAction => push_str(&mut s, "migrate --plan cannot be combined with a migrate subcommand"),
            ManageError::PlanNeedsCompiled => push_str(&mut s, "migrate --plan requires compiled operation migrations"),
            ManageError::TargetNeedsCompiled => push_str(&mut s, "migrate <app> [name|latest] requires compiled operation migrations"),
            ManageError::AtlasUnavailable => push_str(&mut s, "Atlas commands are unavailable for compiled operation migrations"),
            ManageError::SqlmigrateNeedsCompiled => push_str(&mut s, "sqlmigrate requires compiled operation migrations"),
            ManageError::ShowmigrationsNeedsCompiled => push_str(&mut s, "showmigrations requires compiled operation migrations"),
            ManageError::InvalidMigrationName => push_str(&mut s, "migration name must contain only ascii letters, digits, and underscores"),
            ManageError::NoNumericPrefix(name) => {
                push_str(&mut s, "migration ");
                push_str(&mut s, name.as_str());
                push_str(&mut s, " has no numeric prefix");
            },
            ManageError::NumberOverflow => push_str(&mut s, "migration number overflow"),
            ManageError::RegistryMissingBegin => push_str(&mut s, "migration registry is missing its managed begin marker"),
            ManageError::RegistryMissingEnd => push_str(&mut s, "migration registry is missing its managed end marker"),
            ManageError::RegistryMarkerOrder => push_str(&mut s, "migration registry markers are in the wrong order"),
            ManageError::ModuleRegistered(module) => {
                push_str(&mut s, "migration module `");
                push_str(&mut s, module.as_str());
                push_str(&mut s, "` is already registered");
            },
            ManageError::RegistryDiffers { app, dir } => {
                push_str(&mut s, "compiled migration registry for ");
                push_str(&mut s, app.as_str());
                push_str(&mut s, " differs from ");
                push_str(&mut s, dir.as_str());
                push_str(&mut s, ". Rebuild the management binary after makemigrations before generating another migration");
            },
            ManageError::InvalidAtlasFilename(path) => {
                push_str(&mut s, "invalid Atlas migration filename `");
                push_str(&mut s, path.as_str());
                push_str(&mut s, "`; expected <version>_<name>.sql");
            },
            ManageError::InvalidAtlasVersion { version, path } => {
                push_str(&mut s, "invalid Atlas migration version `");
                push_str(&mut s, version.as_str());
                push_str(&mut s, "` in ");
                push_str(&mut s, path.as_str());
                push_str(&mut s, "; expected 14 digits");
            },
            ManageError::InvalidAtlasName { name, path } => {
                push_str(&mut s, "invalid Atlas migration name `");
                push_str(&mut s, name.as_str());
                push_str(&mut s, "` in ");
                push_str(&mut s, path.as_str());
                push_str(&mut s, "; use only ascii letters, digits, and underscores");
            },
            ManageError::DuplicateVersion(version) => {
                push_str(&mut s, "duplicate migration version `");
                push_str(&mut s, version.as_str());
                push_str(&mut s, "`");
            },
            ManageError::NoOperationMigrations(app) => {
                push_str(&mut s, "no registered operation migrations for ");
                push_str(&mut s, app.as_str());
            },
            ManageError::UnknownOperationMigration { app, name } => {
                push_str(&mut s, "unknown operation migration ");
                push_str(&mut s, app.as_str());
                push_str(&mut s, ":");
                push_str(&mut s, name.as_str());
            },
            ManageError::UnknownSqlTarget { app, name } => {
                push_str(&mut s, "unknown operation migration ");
                push_str(&mut s, app.as_str());
                push_str(&mut s, ":");
                push_str(&mut s, name.as_str());
                push_str(&mut s, "; use its registered app and name");
            },
            ManageError::MissingHistory(migration) => {
                push_str(&mut s, "missing ");
                push_str(&mut s, migration.as_str());
            },
            ManageError::DivergentHistory { applied, filesystem } => {
                push_str(&mut s, "divergent ");
                push_str(&mut s, applied.as_str());
                push_str(&mut s, " (filesystem: ");
                push_str(&mut s, filesystem.as_str());
                push_str(&mut s, ")");
            },
            ManageError::HistoryMismatch => push_str(&mut s, "migration history contains missing or divergent migrations"),
            ManageError::AtlasMigration(message) => push_str(&mut s, message.as_str()),
            ManageError::InvalidForeignKey => push_str(&mut s, "invalid foreign key"),
            ManageError::ForeignKeyNeedsMigration { target, owner } => {
                push_str(&mut s, "foreign key ");
                push_str(&mut s, target.as_str());
                push_str(&mut s, " needs a migration for application ");
                push_str(&mut s, owner.as_str());
                push_str(&mut s, "; generate and register it first");
            },
            ManageError::NoMergeHeads(app) => {
                push_str(&mut s, app.as_str());
                push_str(&mut s, " has no conflicting migration heads to merge");
            },
            ManageError::TooManyMergeHeads { app, count } => {
                push_str(&mut s, app.as_str());
                push_str(&mut s, " has ");
                push_str(&mut s, u64_to_decimal(*count).as_str());
                push_str(&mut s, " migration heads; merge them manually in smaller reviewed steps");
            },
            ManageError::MergeRunSql { app, name } => {
                push_str(&mut s, "cannot prove merge compatibility for ");
                push_str(&mut s, app.as_str());
                push_str(&mut s, ":");
                push_str(&mut s, name.as_str());
                push_str(&mut s, " because it contains RunSql; write an explicit reviewed merge migration");
            },
            ManageError::MergeStatesDiffer => push_str(&mut s,
                "migration branches produce different historical states; write an explicit reviewed merge migration"),
            ManageError::MergeIncompatible(error) => {
                push_str(&mut s, "migration branches are not compatible (");
                push_str(&mut s, error.as_str());
                push_str(&mut s, "); write an explicit reviewed merge migration");
            },
            ManageError::MergeIncompatibleBoth { left, right } => {
                push_str(&mut s, "migration branches are not compatible (");
                push_str(&mut s, left.as_str());
                push_str(&mut s, "; ");
                push_str(&mut s, right.as_str());
                push_str(&mut s, "); write an explicit reviewed merge migration");
            },
            ManageError::OrmError(message) => push_str(&mut s, message.as_str()),
            ManageError::CannotOrder(error) => {
                push_str(&mut s, "cannot order generated operations; explicit migration required: ");
                push_str(&mut s, error.as_str());
            },
            ManageError::NotReproduced => push_str(&mut s,
                "generated operations do not reproduce the desired model state; explicit migration required"),
        }
        s
    }
}

/// An application and migration name.
#[derive(Debug, Clone, PartialEq, Eq, PartialOrd, Ord, Hash)]
pub struct MigrationId {
    pub app: String,
    pub name: String,
}

/// What `migrate` runs once its arguments are accepted.
#[derive(Debug, Clone, PartialEq, Eq)]
pub enum MigrateRun {
    ApplyFiles,
    ApplyOperations,
    StatusFiles,
    StatusOperations,
    VerifyFiles,
    VerifyOperations,
    Lint,
    Diff(String),
}

/// The work a management command asks for, with every default filled in.
#[derive(Debug, Clone)]
pub enum Step {
    StartProject(StartProjectOptions),
    StartApp(StartAppOptions),
    PrintSchema,
    /// Check the registry of `app` under `dir`, then build a merge migration.
    MergeMigration { app: String, label: String, dir: String, dry_run: bool },
    /// Build the initial migrations of every installed app.
    InitialBatch { label: String, dir: String, check: bool, dry_run: bool },
    /// Check the registry of `app` under `dir`, then diff its models.
    OperationMigration { app: String, name: String, dir: String, empty: bool, check: bool, dry_run: bool },
    EmptyMigration { dir: String, name: String },
    AtlasDiff { dir: String, name: String },
    MigratePlan { config: String },
    MigrateTo { config: String, app: String, name: Option<String> },
    Migrate { config: String, dir: String, run: MigrateRun },
    /// Read the configuration file `config`; once it reads, refuse the
    /// command with `error`.
    RefuseAfterConfig { config: String, error: ManageError },
    Sqlmigrate { app: String, name: String },
    Showmigrations { app: Option<String>, config: String },
    Createsuperuser { username: String, password: String, config: String },
    GenerateTs { out: String, config: String },
    GenerateAdmin { out: String, config: String, force: bool },
}

/// What follows a built migration or batch.
#[derive(Debug, Clone, Copy, PartialEq, Eq)]
pub enum Outcome {
    NoChanges,
    Print,
    Write,
}

/// The management commands of a project: its installed apps and, once
/// selected, its compiled migration history.
pub struct Management {
    apps: Vec<String>,
    migrations: Vec<MigrationId>,
    compiled_migrations: bool,
    project_root: String,
}

/// `apps` holds an app named `app`.
pub open spec fn installed(apps: Seq<String>, app: Seq<char>) -> bool {
    exists|i: int| 0 <= i < apps.len() && (#[trigger] apps[i])@ == app
}

/// The label of a generated migration made at `seconds` past the epoch.
pub open spec fn auto_label(seconds: u64) -> Seq<char> {
    "auto_"@ + decimal(seconds as nat)
}

/// The label of a generated migration: `auto_` and the seconds since the
/// epoch.
pub fn generated_migration_label(seconds: u64) -> (s: String)
    ensures s@ == auto_label(seconds),
{
    let mut s = owned("auto_");
    let d = u64_to_decimal(seconds);
    push_str(&mut s, d.as_str());
    s
}

/// `name` or, when absent, the label `default`.
pub open spec fn label_or(name: Option<String>, default: Seq<char>) -> Seq<char> {
    match name {
        Some(n) => n@,
        None => default,
    }
}

/// The migrate step that runs `action` (its default when absent).
pub open spec fn migrate_run(action: Option<MigrateAction>, compiled: bool) -> Result<MigrateRun, ManageError> {
    let action = match action {
        Some(a) => a,
        None => if compiled { MigrateAction::OperationsApply } else { MigrateAction::Apply },
    };
    match action {
        MigrateAction::Apply => Ok(if compiled { MigrateRun::ApplyOperations } else { MigrateRun::ApplyFiles }),
        MigrateAction::Status => Ok(if compiled { MigrateRun::StatusOperations } else { MigrateRun::StatusFiles }),
        MigrateAction::OperationsApply => Ok(MigrateRun::ApplyOperations),
        MigrateAction::OperationsStatus => Ok(MigrateRun::StatusOperations),
        MigrateAction::Verify => Ok(if compiled { MigrateRun::VerifyOperations } else { MigrateRun::VerifyFiles }),
        MigrateAction::Lint => if compiled { Err(ManageError::AtlasUnavailable) } else { Ok(MigrateRun::Lint) },
        MigrateAction::Diff { name } => if compiled { Err(ManageError::AtlasUnavailable) } else { Ok(MigrateRun::Diff(name)) },
    }
}

/// What `plan` answers for `command`, given the installed apps, whether
/// migrations are compiled, whether that history is empty, the project root
/// and the label a generated migration would get.
pub open spec fn planned(
    apps: Seq<String>,
    compiled: bool,
    history_empty: bool,
    root: String,
    auto: Seq<char>,
    command: CommandKind,
    r: Result<Step, ManageError>,
) -> bool {
    match command {
        CommandKind::Startproject { name, out, che_rest_path, che_orm_path, with_auth, force } =>
            r == Ok::<Step, ManageError>(Step::StartProject(StartProjectOptions {
                name, out, che_rest_path, che_orm2_path: che_orm_path, with_auth, force })),
        CommandKind::Startapp { name, models, root: given, force } =>
            r == Ok::<Step, ManageError>(Step::StartApp(StartAppOptions {
                name, models, root: match given { Some(p) => p, None => root }, force })),
        CommandKind::Schema => r == Ok::<Step, ManageError>(Step::PrintSchema),
        CommandKind::Makemigrations { app, name, dir, empty, check, dry_run, merge } =>
            if compiled {
                if merge {
                    match app {
                        None => r == Err::<Step, ManageError>(ManageError::MergeNeedsApp),
                        Some(a) => if !installed(apps, a@) {
                            r == Err::<Step, ManageError>(ManageError::UnknownApp(a))
                        } else {
                            r matches Ok(Step::MergeMigration { app: a2, label, dir: d2, dry_run: dr })
                                && a2 == a && d2 == dir && dr == dry_run && label@ == label_or(name, "merge"@)
                        },
                    }
                } else {
                    match app {
                        None => if empty {
                            r == Err::<Step, ManageError>(ManageError::EmptyNeedsApp)
                        } else if !history_empty {
                            r == Err::<Step, ManageError>(ManageError::BatchNeedsEmptyHistory)
                        } else {
                            r matches Ok(Step::InitialBatch { label, dir: d2, check: c2, dry_run: dr })
                                && d2 == dir && c2 == check && dr == dry_run && label@ == label_or(name, "initial"@)
                        },
                        Some(a) => r matches Ok(Step::OperationMigration { app: a2, name: n2, dir: d2, empty: e2, check: c2, dry_run: dr })
                            && a2 == a && d2 == dir && e2 == empty && c2 == check && dr == dry_run
                            && n2@ == label_or(name, auto),
                    }
                }
            } else {
                let label = match name {
                    Some(n) => n@,
                    None => label_or(app, auto),
                };
                if empty {
                    r matches Ok(Step::EmptyMigration { dir: d2, name: n2 }) && d2 == dir && n2@ == label
                } else {
                    r matches Ok(Step::AtlasDiff { dir: d2, name: n2 }) && d2 == dir && n2@ == label
                }
            },
        CommandKind::Migrate { action, target, plan, config, dir } =>
            if target.len() > 2 {
                r == Err::<Step, ManageError>(ManageError::TooManyTargets)
            } else if target.len() > 0 && (plan || action is Some) {
                r == Err::<Step, ManageError>(ManageError::TargetWithPlanOrAction)
            } else if plan && action is Some {
                r == Err::<Step, ManageError>(ManageError::PlanWithAction)
            } else if plan && !compiled {
                r == Err::<Step, ManageError>(ManageError::PlanNeedsCompiled)
            } else if plan {
                r == Ok::<Step, ManageError>(Step::MigratePlan { config })
            } else if target.len() > 0 {
                if !compiled {
                    r == Ok::<Step, ManageError>(Step::RefuseAfterConfig { config, error: ManageError::TargetNeedsCompiled })
                } else {
                    r == Ok::<Step, ManageError>(Step::MigrateTo {
                        config,
                        app: target@[0],
                        name: if target.len() > 1 { Some(target@[1]) } else { None },
                    })
                }
            } else {
                match migrate_run(action, compiled) {
                    Ok(run) => r == Ok::<Step, ManageError>(Step::Migrate { config, dir, run }),
                    Err(e) => r == Ok::<Step, ManageError>(Step::RefuseAfterConfig { config, error: e }),
                }
            },
        CommandKind::Sqlmigrate { app, name } =>
            if compiled {
                r == Ok::<Step, ManageError>(Step::Sqlmigrate { app, name })
            } else {
                r == Err::<Step, ManageError>(ManageError::SqlmigrateNeedsCompiled)
            },
        CommandKind::Showmigrations { app, config } =>
            if compiled {
                r == Ok::<Step, ManageError>(Step::Showmigrations { app, config })
            } else {
                r == Err::<Step, ManageError>(ManageError::ShowmigrationsNeedsCompiled)
            },
        CommandKind::Createsuperuser { username, password, config } =>
            r == Ok::<Step, ManageError>(Step::Createsuperuser { username, password, config }),
        CommandKind::GenerateTs { out, config } =>
            r == Ok::<Step, ManageError>(Step::GenerateTs { out, config }),
        CommandKind::GenerateAdmin { out, config, force } =>
            r == Ok::<Step, ManageError>(Step::GenerateAdmin { out, config, force }),
    }
}

fn label_or_exec(name: Option<String>, default: &str) -> (s: String)
    ensures s@ == label_or(name, default@),
{
    match name {
        Some(n) => n,
        None => owned(default),
    }
}

fn migrate_run_exec(action: Option<MigrateAction>, compiled: bool) -> (r: Result<MigrateRun, ManageError>)
    ensures r == migrate_run(action, compiled),
{
    let action = match action {
        Some(a) => a,
        None => if compiled { MigrateAction::OperationsApply } else { MigrateAction::Apply },
    };
    match action {
        MigrateAction::Apply => Ok(if compiled { MigrateRun::ApplyOperations } else { MigrateRun::ApplyFiles }),
        MigrateAction::Status => Ok(if compiled { MigrateRun::StatusOperations } else { MigrateRun::StatusFiles }),
        MigrateAction::OperationsApply => Ok(MigrateRun::ApplyOperations),
        MigrateAction::OperationsStatus => Ok(MigrateRun::StatusOperations),
        MigrateAction::Verify => Ok(if compiled { MigrateRun::VerifyOperations } else { MigrateRun::VerifyFiles }),
        MigrateAction::Lint => if compiled { Err(ManageError::AtlasUnavailable) } else { Ok(MigrateRun::Lint) },
        MigrateAction::Diff { name } => if compiled { Err(ManageError::AtlasUnavailable) } else { Ok(MigrateRun::Diff(name)) },
    }
}

impl Management {
    pub closed spec fn apps_view(&self) -> Seq<String> { self.apps@ }
    pub closed spec fn migrations_view(&self) -> Seq<MigrationId> { self.migrations@ }
    pub closed spec fn compiled(&self) -> bool { self.compiled_migrations }
    pub closed spec fn root(&self) -> String { self.project_root }

    /// Management commands for the installed apps `apps`, rooted at the
    /// current directory, without compiled migrations.
    pub fn new(apps: Vec<String>) -> (m: Management)
        ensures
            m.apps_view() == apps@,
            m.migrations_view().len() == 0,
            !m.compiled(),
            m.root()@ == "."@,
    {
        Management { apps, migrations: Vec::new(), compiled_migrations: false, project_root: owned(".") }
    }

    /// Sets the project root that `startapp` uses by default.
    pub fn project_root(self, project_root: String) -> (m: Management)
        ensures
            m.apps_view() == self.apps_view(),
            m.migrations_view() == self.migrations_view(),
            m.compiled() == self.compiled(),
            m.root() == project_root,
    {
        Management { project_root, ..self }
    }

    /// Selects compiled migrations, including when the registry is empty.
    pub fn migrations(self, migrations: Vec<MigrationId>) -> (m: Management)
        ensures
            m.apps_view() == self.apps_view(),
            m.migrations_view() == migrations@,
            m.compiled(),
            m.root() == self.root(),
    {
        Management { migrations, compiled_migrations: true, ..self }
    }

    /// The compiled migration history.
    pub fn migration_ids(&self) -> (r: &Vec<MigrationId>)
        ensures r@ == self.migrations_view(),
    {
        &self.migrations
    }

    /// Whether migrations are compiled into this binary.
    pub fn compiled_migrations(&self) -> (r: bool)
        ensures r == self.compiled(),
    {
        self.compiled_migrations
    }

    fn is_installed(&self, app: &String) -> (r: bool)
        ensures r == installed(self.apps@, app@),
    {
        let mut i: usize = 0;
        while i < self.apps.len()
            invariant
                i <= self.apps@.len(),
                forall|j: int| 0 <= j < i ==> self.apps@[j]@ != app@,
            decreases self.apps.len() - i,
        {
            if str_eq(self.apps[i].as_str(), app.as_str()) {
                proof { assert(self.apps@[i as int]@ == app@); }
                return true;
            }
            i += 1;
        }
        false
    }

    /// Decides what `command` asks for. `auto_label` names a migration that
    /// the command does not name (see `generated_migration_label`).
    pub fn plan(&self, command: CommandKind, auto_label: String) -> (r: Result<Step, ManageError>)
        ensures
            planned(self.apps_view(), self.compiled(), self.migrations_view().len() == 0,
                self.root(), auto_label@, command, r),
    {
        match command {
            CommandKind::Startproject { name, out, che_rest_path, che_orm_path, with_auth, force } =>
                Ok(Step::StartProject(StartProjectOptions {
                    name, out, che_rest_path, che_orm2_path: che_orm_path, with_auth, force })),
            CommandKind::Startapp { name, models, root, force } => {
                let root = match root {
                    Some(p) => p,
                    None => self.project_root.clone(),
                };
                Ok(Step::StartApp(StartAppOptions { name, models, root, force }))
            },
            CommandKind::Schema => Ok(Step::PrintSchema),
            CommandKind::Makemigrations { app, name, dir, empty, check, dry_run, merge } => {
                if self.compiled_migrations {
                    if merge {
                        match app {
                            None => Err(ManageError::MergeNeedsApp),
                            Some(a) => {
                                if !self.is_installed(&a) {
                                    return Err(ManageError::UnknownApp(a));
                                }
                                let label = label_or_exec(name, "merge");
                                Ok(Step::MergeMigration { app: a, label, dir, dry_run })
                            },
                        }
                    } else {
                        match app {
                            None => {
                                if empty {
                                    Err(ManageError::EmptyNeedsApp)
                                } else if self.migrations.len() > 0 {
                                    Err(ManageError::BatchNeedsEmptyHistory)
                                } else {
                                    let label = label_or_exec(name, "initial");
                                    Ok(Step::InitialBatch { label, dir, check, dry_run })
                                }
                            },
                            Some(a) => {
                                let n = match name {
                                    Some(n) => n,
                                    None => auto_label,
                                };
                                Ok(Step::OperationMigration { app: a, name: n, dir, empty, check, dry_run })
                            },
                        }
                    }
                } else {
                    let label = match name {
                        Some(n) => n,
                        None => match app {
                            Some(a) => a,
                            None => auto_label,
                        },
                    };
                    if empty {
                        Ok(Step::EmptyMigration { dir, name: label })
                    } else {
                        Ok(Step::AtlasDiff { dir, name: label })
                    }
                }
            },
            CommandKind::Migrate { action, target, plan, config, dir } => {
                if target.len() > 2 {
                    return Err(ManageError::TooManyTargets);
                }
                if target.len() > 0 && (plan || action.is_some()) {
                    return Err(ManageError::TargetWithPlanOrAction);
                }
                if plan && action.is_some() {
                    return Err(ManageError::PlanWithAction);
                }
                if plan && !self.compiled_migrations {
                    return Err(ManageError::PlanNeedsCompiled);
                }
                if plan {
                    return Ok(Step::MigratePlan { config });
                }
                if target.len() > 0 {
                    if !self.compiled_migrations {
                        return Ok(Step::RefuseAfterConfig { config, error: ManageError::TargetNeedsCompiled });
                    }
                    let app = target[0].clone();
                    let name = if target.len() > 1 { Some(target[1].clone()) } else { None };
                    return Ok(Step::MigrateTo { config, app, name });
                }
                match migrate_run_exec(action, self.compiled_migrations) {
                    Ok(run) => Ok(Step::Migrate { config, dir, run }),
                    Err(e) => Ok(Step::RefuseAfterConfig { config, error: e }),
                }
            },
            CommandKind::Sqlmigrate { app, name } => {
                if self.compiled_migrations {
                    Ok(Step::Sqlmigrate { app, name })
                } else {
                    Err(ManageError::SqlmigrateNeedsCompiled)
                }
            },
            CommandKind::Showmigrations { app, config } => {
                if self.compiled_migrations {
                    Ok(Step::Showmigrations { app, config })
                } else {
                    Err(ManageError::ShowmigrationsNeedsCompiled)
                }
            },
            CommandKind::Createsuperuser { username, password, config } =>
                Ok(Step::Createsuperuser { username, password, config }),
            CommandKind::GenerateTs { out, config } => Ok(Step::GenerateTs { out, config }),
            CommandKind::GenerateAdmin { out, config, force } => Ok(Step::GenerateAdmin { out, config, force }),
        }
    }
}

/// What follows building the initial migrations: `count` of them were built.
pub fn initial_batch_outcome(count: usize, check: bool, dry_run: bool) -> (r: Result<Outcome, ManageError>)
    ensures
        count == 0 ==> r == Ok::<Outcome, ManageError>(Outcome::NoChanges),
        count > 0 && check ==> r == Err::<Outcome, ManageError>(ManageError::InitialMigrationsNeeded),
        count > 0 && !check && dry_run ==> r == Ok::<Outcome, ManageError>(Outcome::Print),
        count > 0 && !check && !dry_run ==> r == Ok::<Outcome, ManageError>(Outcome::Write),
{
    if count == 0 {
        Ok(Outcome::NoChanges)
    } else if check {
        Err(ManageError::InitialMigrationsNeeded)
    } else if dry_run {
        Ok(Outcome::Print)
    } else {
        Ok(Outcome::Write)
    }
}

/// What follows diffing the models of `app`: `migration` names the migration
/// that was built, if the models changed.
pub fn operation_migration_outcome(app: String, migration: Option<String>, check: bool, dry_run: bool) -> (r: Result<Outcome, ManageError>)
    ensures
        migration is None ==> r == Ok::<Outcome, ManageError>(Outcome::NoChanges),
        migration is Some && check ==> r == Err::<Outcome, ManageError>(
            ManageError::MigrationNeeded { app, name: migration->0 }),
        migration is Some && !check && dry_run ==> r == Ok::<Outcome, ManageError>(Outcome::Print),
        migration is Some && !check && !dry_run ==> r == Ok::<Outcome, ManageError>(Outcome::Write),
{
    match migration {
        None => Ok(Outcome::NoChanges),
        Some(name) => {
            if check {
                Err(ManageError::MigrationNeeded { app, name })
            } else if dry_run {
                Ok(Outcome::Print)
            } else {
                Ok(Outcome::Write)
            }
        },
    }
}

} // verus!

verus! {

/// A migration name: ascii letters, digits and underscores, not empty.
pub open spec fn migration_name_ok(s: Seq<char>) -> bool {
    s.len() > 0 && forall|i: int| 0 <= i < s.len() ==> (is_alnum(#[trigger] s[i]) || s[i] == '_')
}

/// Accepts a migration name made of ascii letters, digits and underscores.
pub fn validate_operation_migration_name(name: &str) -> (r: Result<(), ManageError>)
    ensures
        migration_name_ok(name@) ==> r is Ok,
        !migration_name_ok(name@) ==> r == Err::<(), ManageError>(ManageError::InvalidMigrationName),
{
    let c = chars_of(name);
    if c.len() == 0 {
        return Err(ManageError::InvalidMigrationName);
    }
    let mut i: usize = 0;
    while i < c.len()
        invariant
            i <= c@.len(),
            c@ == name@,
            forall|j: int| 0 <= j < i ==> (is_alnum(#[trigger] c@[j]) || c@[j] == '_'),
        decreases c.len() - i,
    {
        if !(char_is_alnum(c[i]) || c[i] == '_') {
            return Err(ManageError::InvalidMigrationName);
        }
        i += 1;
    }
    Ok(())
}

/// The digits of `s`, in order.
pub open spec fn digits_only(s: Seq<char>) -> Seq<char>
    decreases s.len(),
{
    if s.len() == 0 {
        Seq::empty()
    } else if is_digit(s.last()) {
        digits_only(s.drop_last()).push(s.last())
    } else {
        digits_only(s.drop_last())
    }
}

/// The version of an empty migration made at `timestamp` (an RFC 3339
/// text): its first fourteen digits.
pub fn migration_version(timestamp: &str) -> (r: String)
    ensures
        digits_only(timestamp@).len() <= 14 ==> r@ == digits_only(timestamp@),
        digits_only(timestamp@).len() > 14 ==> r@ == digits_only(timestamp@).take(14),
{
    let c = chars_of(timestamp);
    let mut d: Vec<char> = Vec::new();
    let mut i: usize = 0;
    while i < c.len()
        invariant
            i <= c@.len(),
            c@ == timestamp@,
            d@ == digits_only(c@.take(i as int)),
        decreases c.len() - i,
    {
        proof { assert(c@.take(i + 1).drop_last() == c@.take(i as int)); }
        if char_is_digit(c[i]) {
            d.push(c[i]);
        }
        i += 1;
    }
    proof { assert(c@.take(c@.len() as int) == c@); }
    let n: usize = if d.len() < 14 { d.len() } else { 14 };
    proof { assert(d@.subrange(0, d@.len() as int) == d@); }
    string_of_range(&d, 0, n)
}

/// The file of an empty migration: `{version}_{name}.sql`.
pub fn empty_migration_file_name(version: &str, name: &str) -> (r: String)
    ensures r@ == version@ + "_"@ + name@ + ".sql"@,
{
    let mut r = owned(version);
    push_str(&mut r, "_");
    push_str(&mut r, name);
    push_str(&mut r, ".sql");
    r
}

/// `n` in decimal, with zeros on the left up to four digits.
pub open spec fn padded_number(n: nat) -> Seq<char> {
    let d = decimal(n);
    if d.len() >= 4 {
        d
    } else {
        Seq::new((4 - d.len()) as nat, |i: int| '0') + d
    }
}

/// The name of the migration numbered `number` with `label`: the number in
/// at least four digits, an underscore, then the label.
pub fn numbered_migration_name(number: u32, label: &str) -> (r: String)
    ensures r@ == padded_number(number as nat) + "_"@ + label@,
{
    let digits = u64_to_decimal(number as u64);
    let c = chars_of(digits.as_str());
    let pad: usize = if c.len() < 4 { 4 - c.len() } else { 0 };
    let mut r = String::new();
    let mut i: usize = 0;
    while i < pad
        invariant
            i <= pad,
            r@ == Seq::new(i as nat, |j: int| '0'),
        decreases pad - i,
    {
        push_char(&mut r, '0');
        proof { assert(r@ == Seq::new((i + 1) as nat, |j: int| '0')); }
        i += 1;
    }
    proof {
        if c@.len() >= 4 {
            assert(r@ == Seq::<char>::empty());
            assert(r@ + digits@ == digits@);
        }
    }
    push_str(&mut r, digits.as_str());
    push_str(&mut r, "_");
    push_str(&mut r, label);
    r
}

/// The module of a compiled migration named `name`: `m` then the name.
pub fn migration_module_name(name: &str) -> (r: String)
    ensures r@ == seq!['m'] + name@,
{
    let mut r = String::new();
    push_char(&mut r, 'm');
    push_str(&mut r, name);
    r
}

/// The source file of a compiled migration named `name`: its module and `.rs`.
pub fn migration_file_name(name: &str) -> (r: String)
    ensures r@ == seq!['m'] + name@ + ".rs"@,
{
    let mut r = migration_module_name(name);
    push_str(&mut r, ".rs");
    r
}

/// What an empty migration holds.
pub const EMPTY_MIGRATION_SQL: &'static str = "-- Write the required SQLite DDL, data backfill, or trigger changes here.\n";

/// The part of a migration name before its first underscore.
pub open spec fn number_prefix(name: Seq<char>) -> Seq<char> {
    let k = find_char(name, '_', 0);
    if k < 0 { name } else { name.take(k) }
}

/// The number of a migration, if its name starts with one.
pub open spec fn migration_number(m: MigrationId) -> Option<u32> {
    parse_u32_spec(number_prefix(m.name@))
}

/// The highest number among the migrations of `app` in `ms` (0 for none).
pub open spec fn highest_number(ms: Seq<MigrationId>, app: Seq<char>) -> nat
    decreases ms.len(),
{
    if ms.len() == 0 {
        0
    } else {
        let rest = highest_number(ms.drop_last(), app);
        let m = ms.last();
        if m.app@ == app && migration_number(m) is Some && migration_number(m)->0 > rest {
            migration_number(m)->0 as nat
        } else {
            rest
        }
    }
}

/// The index of the first migration of `app` in `ms` whose name has no
/// number, or `ms.len()`.
pub open spec fn first_unnumbered(ms: Seq<MigrationId>, app: Seq<char>) -> int {
    if exists|i: int| 0 <= i < ms.len() && (#[trigger] ms[i]).app@ == app && migration_number(ms[i]) is None {
        choose|i: int| 0 <= i < ms.len() && (#[trigger] ms[i]).app@ == app && migration_number(ms[i]) is None
            && forall|j: int| 0 <= j < i ==> !((#[trigger] ms[j]).app@ == app && migration_number(ms[j]) is None)
    } else {
        ms.len() as int
    }
}

proof fn lemma_first_unnumbered_from(ms: Seq<MigrationId>, app: Seq<char>, k: int)
    requires
        0 <= k <= ms.len(),
        forall|j: int| 0 <= j < k ==> !((#[trigger] ms[j]).app@ == app && migration_number(ms[j]) is None),
        exists|i: int| k <= i < ms.len() && (#[trigger] ms[i]).app@ == app && migration_number(ms[i]) is None,
    ensures
        exists|i: int| 0 <= i < ms.len() && (#[trigger] ms[i]).app@ == app && migration_number(ms[i]) is None
            && forall|j: int| 0 <= j < i ==> !((#[trigger] ms[j]).app@ == app && migration_number(ms[j]) is None),
    decreases ms.len() - k,
{
    if !(ms[k].app@ == app && migration_number(ms[k]) is None) {
        let i = choose|i: int| k <= i < ms.len() && (#[trigger] ms[i]).app@ == app && migration_number(ms[i]) is None;
        assert(i != k);
        lemma_first_unnumbered_from(ms, app, k + 1);
    }
}

/// The first unnumbered migration is one of `ms`, or the end; and no
/// migration number exceeds `u32::MAX`.
pub proof fn lemma_numbering_bounds(ms: Seq<MigrationId>, app: Seq<char>)
    ensures
        0 <= first_unnumbered(ms, app) <= ms.len(),
        highest_number(ms, app) <= u32::MAX,
{
    lemma_highest_bound(ms, app);
    if exists|i: int| 0 <= i < ms.len() && (#[trigger] ms[i]).app@ == app && migration_number(ms[i]) is None {
        lemma_first_unnumbered_from(ms, app, 0);
    }
}

proof fn lemma_highest_bound(ms: Seq<MigrationId>, app: Seq<char>)
    ensures highest_number(ms, app) <= u32::MAX,
    decreases ms.len(),
{
    if ms.len() > 0 {
        lemma_highest_bound(ms.drop_last(), app);
    }
}

fn prefix_before_underscore(name: &String) -> (r: Vec<char>)
    ensures r@ == number_prefix(name@),
{
    let c = chars_of(name.as_str());
    let mut i: usize = 0;
    while i < c.len()
        invariant
            i <= c@.len(),
            c@ == name@,
            find_char(c@, '_', 0) == find_char(c@, '_', i as int),
        decreases c.len() - i,
    {
        if c[i] == '_' {
            proof { assert(find_char(c@, '_', 0) == i); }
            let mut r: Vec<char> = Vec::new();
            let mut j: usize = 0;
            while j < i
                invariant
                    j <= i < c@.len(),
                    r@ == c@.take(j as int),
                decreases i - j,
            {
                r.push(c[j]);
                proof { assert(c@.take(j + 1) == c@.take(j as int).push(c@[j as int])); }
                j += 1;
            }
            return r;
        }
        i += 1;
    }
    proof { assert(find_char(c@, '_', 0) == -1); }
    c
}

/// The number of the next migration of `app`: one above the highest
/// numeric prefix among its migrations in `migrations` (listed in the order
/// of the migration graph). A migration of `app` without a number is
/// refused, the first one named.
pub fn next_operation_migration_number(migrations: &Vec<MigrationId>, app: &str) -> (r: Result<u32, ManageError>)
    ensures
        first_unnumbered(migrations@, app@) < migrations@.len() ==> (r matches Err(ManageError::NoNumericPrefix(n))
            && n@ == migrations@[first_unnumbered(migrations@, app@)].name@),
        first_unnumbered(migrations@, app@) == migrations@.len() && highest_number(migrations@, app@) == u32::MAX
            ==> r == Err::<u32, ManageError>(ManageError::NumberOverflow),
        first_unnumbered(migrations@, app@) == migrations@.len() && highest_number(migrations@, app@) < u32::MAX
            ==> r == Ok::<u32, ManageError>((highest_number(migrations@, app@) + 1) as u32),
{
    let mut best: u32 = 0;
    let mut i: usize = 0;
    while i < migrations.len()
        invariant
            i <= migrations@.len(),
            best == highest_number(migrations@.take(i as int), app@),
            forall|j: int| 0 <= j < i ==> !((#[trigger] migrations@[j]).app@ == app@ && migration_number(migrations@[j]) is None),
        decreases migrations.len() - i,
    {
        proof {
            assert(migrations@.take(i + 1).drop_last() == migrations@.take(i as int));
            lemma_highest_bound(migrations@.take(i + 1), app@);
        }
        let m = &migrations[i];
        if str_eq(m.app.as_str(), app) {
            let prefix = prefix_before_underscore(&m.name);
            match parse_u32_chars(&prefix) {
                None => {
                    proof {
                        assert(migrations@[i as int].app@ == app@ && migration_number(migrations@[i as int]) is None);
                        let k = first_unnumbered(migrations@, app@);
                        if k != i {
                            if k < i {
                                assert(!(migrations@[k].app@ == app@ && migration_number(migrations@[k]) is None));
                            }
                        }
                    }
                    return Err(ManageError::NoNumericPrefix(m.name.clone()));
                },
                Some(v) => {
                    if v > best {
                        best = v;
                    }
                },
            }
        }
        i += 1;
    }
    proof {
        assert(migrations@.take(migrations@.len() as int) == migrations@);
        assert(!(exists|k: int| 0 <= k < migrations@.len() && (#[trigger] migrations@[k]).app@ == app@ && migration_number(migrations@[k]) is None));
    }
    if best == u32::MAX {
        Err(ManageError::NumberOverflow)
    } else {
        Ok(best + 1)
    }
}

} // verus!

verus! {

/// What the checks of an Atlas migration directory make of one file name.
pub enum AtlasEntry {
    /// Not an `.sql` file.
    Skip,
    /// An `.sql` file whose stem has no underscore.
    BadFilename,
    /// A version that is not fourteen ascii digits.
    BadVersion { bad_version: Seq<char> },
    /// A name that is empty or not made of ascii letters, digits and underscores.
    BadName { bad_name: Seq<char> },
    /// A good file: its version and name.
    Good { version: Seq<char>, name: Seq<char> },
}

/// The checks of one file name `{version}_{name}.sql`.
pub open spec fn atlas_entry(file: Seq<char>) -> AtlasEntry {
    if !(file.len() > 4 && ends_with(file, ".sql"@)) {
        AtlasEntry::Skip
    } else {
        let stem = file.take(file.len() - 4);
        let k = find_char(stem, '_', 0);
        if k < 0 {
            AtlasEntry::BadFilename
        } else {
            let version = stem.take(k);
            let name = stem.skip(k + 1);
            if !(version.len() == 14 && forall|i: int| 0 <= i < 14 ==> is_digit(#[trigger] version[i])) {
                AtlasEntry::BadVersion { bad_version: version }
            } else if !migration_name_ok(name) {
                AtlasEntry::BadName { bad_name: name }
            } else {
                AtlasEntry::Good { version, name }
            }
        }
    }
}

/// A checked migration file of an Atlas directory, with its SQL.
#[derive(Debug, Clone, PartialEq, Eq)]
pub struct AtlasFile {
    pub version: String,
    pub name: String,
    pub path: String,
    pub sql: String,
}

/// The entry at `i` is good and its version was seen before it.
pub open spec fn atlas_duplicate(files: Seq<Seq<char>>, i: int) -> bool {
    atlas_entry(files[i]) is Good && exists|j: int| 0 <= j < i && (#[trigger] atlas_entry(files[j])) is Good
        && atlas_entry(files[j])->version == atlas_entry(files[i])->version
}

/// The entry at `i` stops the checks.
pub open spec fn atlas_stops(files: Seq<Seq<char>>, i: int) -> bool {
    ||| atlas_entry(files[i]) is BadFilename
    ||| atlas_entry(files[i]) is BadVersion
    ||| atlas_entry(files[i]) is BadName
    ||| atlas_duplicate(files, i)
}

/// `e` refuses the Atlas directory `entries`: it names the first entry that
/// stops the checks.
pub open spec fn atlas_refusal(entries: Seq<(String, String, String)>, e: ManageError) -> bool {
    let names = entry_names(entries);
    exists|k: int| 0 <= k < names.len() && atlas_stops(names, k)
        && (forall|i: int| 0 <= i < k ==> !atlas_stops(names, i))
        && match atlas_entry(names[k]) {
            AtlasEntry::BadFilename => e matches ManageError::InvalidAtlasFilename(p) && p@ == entries[k].0@,
            AtlasEntry::BadVersion { bad_version: v } => e matches ManageError::InvalidAtlasVersion { version, path }
                && version@ == v && path@ == entries[k].0@,
            AtlasEntry::BadName { bad_name: n } => e matches ManageError::InvalidAtlasName { name, path }
                && name@ == n && path@ == entries[k].0@,
            AtlasEntry::Good { version: v, .. } => e matches ManageError::DuplicateVersion(version) && version@ == v,
            AtlasEntry::Skip => false,
        }
}

/// The good entries among the first `n` of `entries`: version, name, path
/// and SQL.
pub open spec fn atlas_goods(entries: Seq<(String, String, String)>, n: int) -> Seq<(Seq<char>, Seq<char>, Seq<char>, Seq<char>)>
    decreases n,
{
    if n <= 0 {
        Seq::empty()
    } else {
        let rest = atlas_goods(entries, n - 1);
        match atlas_entry(entries[n - 1].1@) {
            AtlasEntry::Good { version: v, name: m } => rest.push((v, m, entries[n - 1].0@, entries[n - 1].2@)),
            _ => rest,
        }
    }
}

/// The file names of `entries`.
pub open spec fn entry_names(entries: Seq<(String, String, String)>) -> Seq<Seq<char>> {
    Seq::new(entries.len(), |i: int| entries[i].1@)
}

/// The views of checked files.
pub open spec fn atlas_views(files: Seq<AtlasFile>) -> Seq<(Seq<char>, Seq<char>, Seq<char>, Seq<char>)> {
    Seq::new(files.len(), |i: int| (files[i].version@, files[i].name@, files[i].path@, files[i].sql@))
}

/// Checks the migration files of an Atlas directory, given as (path, file
/// name, SQL text) in the order the directory lists them: each `.sql` file must be
/// named `{version}_{name}.sql` with a fourteen-digit version seen once and a
/// name of ascii letters, digits and underscores. Other files are skipped.
pub fn check_atlas_files(entries: &Vec<(String, String, String)>) -> (r: Result<Vec<AtlasFile>, ManageError>)
    ensures
        ({
            let names = entry_names(entries@);
            match r {
                Ok(files) => (forall|i: int| 0 <= i < names.len() ==> !atlas_stops(names, i))
                    && atlas_views(files@) == atlas_goods(entries@, entries@.len() as int),
                Err(e) => atlas_refusal(entries@, e),
            }
        }),
{
    let ghost names = entry_names(entries@);
    let mut files: Vec<AtlasFile> = Vec::new();
    let mut i: usize = 0;
    while i < entries.len()
        invariant
            i <= entries@.len(),
            names == entry_names(entries@),
            forall|j: int| 0 <= j < i ==> !atlas_stops(names, j),
            atlas_views(files@) == atlas_goods(entries@, i as int),
        decreases entries.len() - i,
    {
        let path = &entries[i].0;
        let file = chars_of(entries[i].1.as_str());
        assert(names[i as int] == file@);
        let sql = chars_of(".sql");
        if !(file.len() > 4 && has_suffix(&file, &sql)) {
            proof { assert(atlas_views(files@) == atlas_goods(entries@, i + 1)); }
            i += 1;
            continue;
        }
        let stem_len: usize = file.len() - 4;
        let stem = string_of_range(&file, 0, stem_len);
        let stem_c = chars_of(stem.as_str());
        proof { assert(stem_c@ == file@.take(file@.len() - 4)); }
        let mut k: usize = 0;
        while k < stem_c.len() && stem_c[k] != '_'
            invariant
                k <= stem_c@.len(),
                find_char(stem_c@, '_', 0) == find_char(stem_c@, '_', k as int),
            decreases stem_c.len() - k,
        {
            k += 1;
        }
        if k == stem_c.len() {
            proof {
                assert(find_char(stem_c@, '_', 0) == -1);
                assert(atlas_stops(names, i as int));
            }
            return Err(ManageError::InvalidAtlasFilename(path.clone()));
        }
        proof { assert(find_char(stem_c@, '_', 0) == k); }
        let version = string_of_range(&stem_c, 0, k);
        let name = string_of_range(&stem_c, k + 1, stem_c.len());
        proof {
            assert(version@ == stem_c@.take(k as int));
            assert(name@ == stem_c@.skip(k + 1));
        }
        let vc = chars_of(version.as_str());
        let mut ok = vc.len() == 14;
        let mut d: usize = 0;
        while ok && d < vc.len()
            invariant
                d <= vc@.len(),
                ok ==> vc@.len() == 14,
                ok ==> forall|x: int| 0 <= x < d ==> is_digit(#[trigger] vc@[x]),
                !ok ==> !(vc@.len() == 14 && forall|x: int| 0 <= x < 14 ==> is_digit(#[trigger] vc@[x])),
            decreases vc.len() - d,
        {
            if !char_is_digit(vc[d]) {
                ok = false;
            }
            d += 1;
        }
        if !ok {
            proof { assert(atlas_stops(names, i as int)); }
            return Err(ManageError::InvalidAtlasVersion { version, path: path.clone() });
        }
        match validate_operation_migration_name(name.as_str()) {
            Err(_) => {
                proof { assert(atlas_stops(names, i as int)); }
                return Err(ManageError::InvalidAtlasName { name, path: path.clone() });
            },
            Ok(()) => {},
        }
        proof {
            assert(file@.len() > 4 && ends_with(file@, ".sql"@));
            assert(atlas_entry(names[i as int]) == (AtlasEntry::Good { version: version@, name: name@ }));
        }
        let mut j: usize = 0;
        while j < files.len()
            invariant
                j <= files@.len(),
                i < entries@.len(),
                names == entry_names(entries@),
                atlas_entry(names[i as int]) == (AtlasEntry::Good { version: version@, name: name@ }),
                forall|x: int| 0 <= x < i ==> !atlas_stops(names, x),
                atlas_views(files@) == atlas_goods(entries@, i as int),
                forall|x: int| 0 <= x < j ==> files@[x].version@ != version@,
            decreases files.len() - j,
        {
            if str_eq(files[j].version.as_str(), version.as_str()) {
                proof {
                    lemma_goods_source(entries@, i as int, j as int);
                    let src = choose|src: int| 0 <= src < i && atlas_entry(names[src]) is Good
                        && atlas_entry(names[src])->version == atlas_goods(entries@, i as int)[j as int].0;
                    assert(atlas_entry(names[src])->version == atlas_entry(names[i as int])->version);
                    assert(atlas_duplicate(names, i as int));
                    assert(atlas_stops(names, i as int));
                }
                return Err(ManageError::DuplicateVersion(version));
            }
            j += 1;
        }
        proof {
            if atlas_duplicate(names, i as int) {
                let src = choose|src: int| 0 <= src < i && (#[trigger] atlas_entry(names[src])) is Good
                    && atlas_entry(names[src])->version == atlas_entry(names[i as int])->version;
                lemma_goods_has(entries@, i as int, src);
                let x = choose|x: int| 0 <= x < atlas_goods(entries@, i as int).len()
                    && (#[trigger] atlas_goods(entries@, i as int)[x]).0 == atlas_entry(names[src])->version;
                assert(files@[x].version@ == version@);
            }
            assert(!atlas_stops(names, i as int));
        }
        files.push(AtlasFile { version, name, path: path.clone(), sql: entries[i].2.clone() });
        proof { assert(atlas_views(files@) == atlas_goods(entries@, i + 1)); }
        i += 1;
    }
    Ok(files)
}

/// A good entry has a version of fourteen digits and a valid name.
pub proof fn lemma_goods_valid(entries: Seq<(String, String, String)>, n: int, x: int)
    requires 0 <= x < atlas_goods(entries, n).len(), n <= entries.len(),
    ensures
        atlas_goods(entries, n)[x].0.len() == 14,
        crate::num::all_digits(atlas_goods(entries, n)[x].0),
        migration_name_ok(atlas_goods(entries, n)[x].1),
    decreases n,
{
    let rest = atlas_goods(entries, n - 1);
    if x < rest.len() {
        lemma_goods_valid(entries, n - 1, x);
        assert(atlas_goods(entries, n)[x] == rest[x]);
    } else {
        let v = atlas_goods(entries, n)[x].0;
        assert forall|i: int| 0 <= i < v.len() implies is_digit(#[trigger] v[i]) by {}
    }
}

proof fn lemma_goods_source(entries: Seq<(String, String, String)>, n: int, x: int)
    requires 0 <= x < atlas_goods(entries, n).len(), n <= entries.len(),
    ensures
        exists|src: int| 0 <= src < n && atlas_entry(entry_names(entries)[src]) is Good
            && atlas_entry(entry_names(entries)[src])->version == atlas_goods(entries, n)[x].0,
    decreases n,
{
    let rest = atlas_goods(entries, n - 1);
    if x < rest.len() {
        lemma_goods_source(entries, n - 1, x);
        let src = choose|src: int| 0 <= src < n - 1 && atlas_entry(entry_names(entries)[src]) is Good
            && atlas_entry(entry_names(entries)[src])->version == atlas_goods(entries, n - 1)[x].0;
        assert(atlas_goods(entries, n)[x] == rest[x]);
    } else {
        assert(entry_names(entries)[n - 1] == entries[n - 1].1@);
    }
}

proof fn lemma_goods_has(entries: Seq<(String, String, String)>, n: int, src: int)
    requires
        0 <= src < n <= entries.len(),
        atlas_entry(entry_names(entries)[src]) is Good,
    ensures
        exists|x: int| 0 <= x < atlas_goods(entries, n).len()
            && (#[trigger] atlas_goods(entries, n)[x]).0 == atlas_entry(entry_names(entries)[src])->version,
    decreases n,
{
    assert(entry_names(entries)[src] == entries[src].1@);
    if src < n - 1 {
        lemma_goods_has(entries, n - 1, src);
        let x = choose|x: int| 0 <= x < atlas_goods(entries, n - 1).len()
            && (#[trigger] atlas_goods(entries, n - 1)[x]).0 == atlas_entry(entry_names(entries)[src])->version;
        assert(atlas_goods(entries, n)[x] == atlas_goods(entries, n - 1)[x]);
    } else {
        let rest = atlas_goods(entries, n - 1);
        assert(atlas_goods(entries, n)[rest.len() as int].0 == atlas_entry(entry_names(entries)[src])->version);
    }
}

} // verus!

verus! {

/// The absolute form of `path` against `current_dir` (as `PathBuf::join`
/// forms it; an absolute path stays as it is).
pub open spec fn absolute_path(path: Seq<char>, current_dir: Seq<char>) -> Seq<char> {
    if path.len() > 0 && path[0] == '/' {
        path
    } else if current_dir.len() == 0 {
        path
    } else if current_dir.last() == '/' {
        current_dir + path
    } else {
        current_dir + "/"@ + path
    }
}

/// The `file://` URL of `path`, made absolute against `current_dir`.
pub fn file_url(path: &str, current_dir: &str) -> (r: String)
    ensures r@ == "file://"@ + absolute_path(path@, current_dir@),
{
    let p = chars_of(path);
    let c = chars_of(current_dir);
    let mut r = owned("file://");
    if p.len() > 0 && p[0] == '/' {
        push_str(&mut r, path);
    } else if c.len() == 0 {
        push_str(&mut r, path);
    } else if c[c.len() - 1] == '/' {
        push_str(&mut r, current_dir);
        push_str(&mut r, path);
    } else {
        push_str(&mut r, current_dir);
        push_str(&mut r, "/");
        push_str(&mut r, path);
    }
    r
}

/// The in-memory database Atlas replays migrations on.
pub open spec fn atlas_dev_url() -> Seq<char> {
    "sqlite://dev?mode=memory"@
}

fn strings_of(parts: &[&str]) -> (r: Vec<String>)
    ensures
        r@.len() == parts@.len(),
        forall|i: int| 0 <= i < parts@.len() ==> (#[trigger] r@[i])@ == parts@[i]@,
{
    let mut r: Vec<String> = Vec::new();
    let mut i: usize = 0;
    while i < parts.len()
        invariant
            i <= parts@.len(),
            r@.len() == i,
            forall|j: int| 0 <= j < i ==> (#[trigger] r@[j])@ == parts@[j]@,
        decreases parts.len() - i,
    {
        r.push(owned(parts[i]));
        i += 1;
    }
    r
}

/// The arguments of `atlas` that lint the latest migration of the
/// directory at `dir_url`.
pub fn atlas_lint(dir_url: &str) -> (r: Vec<String>)
    ensures
        r@.len() == 8,
        r@[0]@ == "migrate"@, r@[1]@ == "lint"@, r@[2]@ == "--dir"@, r@[3]@ == dir_url@,
        r@[4]@ == "--dev-url"@, r@[5]@ == atlas_dev_url(), r@[6]@ == "--latest"@, r@[7]@ == "1"@,
{
    strings_of(&["migrate", "lint", "--dir", dir_url, "--dev-url", "sqlite://dev?mode=memory", "--latest", "1"])
}

/// The arguments of `atlas` that write migration `name` into the directory
/// at `dir_url`, from the schema file at `to_url`.
pub fn atlas_diff(name: &str, dir_url: &str, to_url: &str) -> (r: Vec<String>)
    ensures
        r@.len() == 9,
        r@[0]@ == "migrate"@, r@[1]@ == "diff"@, r@[2]@ == name@, r@[3]@ == "--dir"@, r@[4]@ == dir_url@,
        r@[5]@ == "--to"@, r@[6]@ == to_url@, r@[7]@ == "--dev-url"@, r@[8]@ == atlas_dev_url(),
{
    strings_of(&["migrate", "diff", name, "--dir", dir_url, "--to", to_url, "--dev-url", "sqlite://dev?mode=memory"])
}

/// The arguments of `atlas` that rehash the directory at `dir_url`.
pub fn atlas_hash(dir_url: &str) -> (r: Vec<String>)
    ensures
        r@.len() == 4,
        r@[0]@ == "migrate"@, r@[1]@ == "hash"@, r@[2]@ == "--dir"@, r@[3]@ == dir_url@,
{
    strings_of(&["migrate", "hash", "--dir", dir_url])
}

} // verus!
