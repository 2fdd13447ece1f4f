use vstd::prelude::*;

use crate::management::{
    atlas_goods, atlas_refusal, atlas_stops, atlas_views, check_atlas_files, entry_names,
    lemma_goods_valid, migration_name_ok, validate_operation_migration_name, ManageError, MigrationId,
};
use crate::num::{all_digits, decimal, decimal_signed, digits_value, i64_to_decimal, u64_to_decimal};
use crate::registry::join;
use crate::templates::{join_strings, names_of};
use crate::text::{lemma_seq_lt_irreflexive, lemma_seq_lt_total, lemma_seq_lt_transitive, seq_lt, str_lt, owned, push_str, str_eq};

verus! {

/// An operation of a compiled migration, as the plan of `migrate` describes
/// it: the names it touches.
#[derive(Debug, Clone, PartialEq, Eq)]
pub enum OperationSummary {
    CreateModel { app: String, model: String, table: String },
    CreateTable { table: String },
    DropTable { name: String },
    AddColumn { table: String, column: String },
    RemoveColumn { table: String, column: String },
    RenameTable { old_name: String, new_name: String },
    RenameColumn { table: String, old_name: String, new_name: String },
    AlterColumn { table: String, old_column: String, new_column: String },
    AddIndex { table: String, columns: Vec<String> },
    RemoveIndex { table: String, columns: Vec<String> },
    AddUniqueConstraint { table: String, columns: Vec<String> },
    RemoveUniqueConstraint { table: String, columns: Vec<String> },
    BackfillColumn { table: String, column: String },
    CreateSchemaObject { name: String },
    DropSchemaObject { name: String },
    /// Manual SQL, with the number of state operations it declares.
    RunSql { state_operations: usize },
}

/// `table (c1, c2, ...)`.
pub open spec fn table_columns(table: String, columns: Vec<String>) -> Seq<char> {
    table@ + " ("@ + join(names_of(columns@), ", "@) + ")"@
}

/// The line describing `op`; destructive and manual operations carry a
/// warning.
pub open spec fn operation_text(op: OperationSummary) -> Seq<char> {
    match op {
        OperationSummary::CreateModel { app, model, table } =>
            "CreateModel "@ + app@ + ":"@ + model@ + " (table "@ + table@ + ")"@,
        OperationSummary::CreateTable { table } => "CreateTable "@ + table@,
        OperationSummary::DropTable { name } => "DropTable "@ + name@ + " — WARNING: deletes all table data"@,
        OperationSummary::AddColumn { table, column } => "AddColumn "@ + table@ + "."@ + column@,
        OperationSummary::RemoveColumn { table, column } =>
            "RemoveColumn "@ + table@ + "."@ + column@ + " — WARNING: deletes all column data"@,
        OperationSummary::RenameTable { old_name, new_name } => "RenameTable "@ + old_name@ + " -> "@ + new_name@,
        OperationSummary::RenameColumn { table, old_name, new_name } =>
            "RenameColumn "@ + table@ + "."@ + old_name@ + " -> "@ + new_name@,
        OperationSummary::AlterColumn { table, old_column, new_column } =>
            "AlterColumn "@ + table@ + "."@ + old_column@ + " -> "@ + new_column@
                + " — WARNING: review type, constraints and data compatibility"@,
        OperationSummary::AddIndex { table, columns } => "AddIndex "@ + table_columns(table, columns),
        OperationSummary::RemoveIndex { table, columns } => "RemoveIndex "@ + table_columns(table, columns),
        OperationSummary::AddUniqueConstraint { table, columns } => "AddUniqueConstraint "@ + table_columns(table, columns),
        OperationSummary::RemoveUniqueConstraint { table, columns } => "RemoveUniqueConstraint "@ + table_columns(table, columns),
        OperationSummary::BackfillColumn { table, column } => "BackfillColumn "@ + table@ + "."@ + column@,
        OperationSummary::CreateSchemaObject { name } => "CreateSchemaObject "@ + name@,
        OperationSummary::DropSchemaObject { name } => "DropSchemaObject "@ + name@,
        OperationSummary::RunSql { state_operations } => "RunSql ("@ + decimal(state_operations as nat)
            + " state operation(s)) — WARNING: manual SQL may change or delete data; inspect migration source"@,
    }
}

fn push_table_columns(out: &mut String, table: &String, columns: &Vec<String>)
    ensures final(out)@ == old(out)@ + table_columns(*table, *columns),
{
    push_str(out, table.as_str());
    push_str(out, " (");
    let joined = join_strings(columns, ", ");
    push_str(out, joined.as_str());
    push_str(out, ")");
}

/// Describes one operation of a migration for the plan of `migrate`.
pub fn describe_migration_operation(op: &OperationSummary) -> (r: String)
    ensures r@ == operation_text(*op),
{
    let mut s = String::new();
    match op {
        OperationSummary::CreateModel { app, model, table } => {
            push_str(&mut s, "CreateModel ");
            push_str(&mut s, app.as_str());
            push_str(&mut s, ":");
            push_str(&mut s, model.as_str());
            push_str(&mut s, " (table ");
            push_str(&mut s, table.as_str());
            push_str(&mut s, ")");
        },
        OperationSummary::CreateTable { table } => {
            push_str(&mut s, "CreateTable ");
            push_str(&mut s, table.as_str());
        },
        OperationSummary::DropTable { name } => {
            push_str(&mut s, "DropTable ");
            push_str(&mut s, name.as_str());
            push_str(&mut s, " — WARNING: deletes all table data");
        },
        OperationSummary::AddColumn { table, column } => {
            push_str(&mut s, "AddColumn ");
            push_str(&mut s, table.as_str());
            push_str(&mut s, ".");
            push_str(&mut s, column.as_str());
        },
        OperationSummary::RemoveColumn { table, column } => {
            push_str(&mut s, "RemoveColumn ");
            push_str(&mut s, table.as_str());
            push_str(&mut s, ".");
            push_str(&mut s, column.as_str());
            push_str(&mut s, " — WARNING: deletes all column data");
        },
        OperationSummary::RenameTable { old_name, new_name } => {
            push_str(&mut s, "RenameTable ");
            push_str(&mut s, old_name.as_str());
            push_str(&mut s, " -> ");
            push_str(&mut s, new_name.as_str());
        },
        OperationSummary::RenameColumn { table, old_name, new_name } => {
            push_str(&mut s, "RenameColumn ");
            push_str(&mut s, table.as_str());
            push_str(&mut s, ".");
            push_str(&mut s, old_name.as_str());
            push_str(&mut s, " -> ");
            push_str(&mut s, new_name.as_str());
        },
        OperationSummary::AlterColumn { table, old_column, new_column } => {
            push_str(&mut s, "AlterColumn ");
            push_str(&mut s, table.as_str());
            push_str(&mut s, ".");
            push_str(&mut s, old_column.as_str());
            push_str(&mut s, " -> ");
            push_str(&mut s, new_column.as_str());
            push_str(&mut s, " — WARNING: review type, constraints and data compatibility");
        },
        OperationSummary::AddIndex { table, columns } => {
            push_str(&mut s, "AddIndex ");
            push_table_columns(&mut s, table, columns);
        },
        OperationSummary::RemoveIndex { table, columns } => {
            push_str(&mut s, "RemoveIndex ");
            push_table_columns(&mut s, table, columns);
        },
        OperationSummary::AddUniqueConstraint { table, columns } => {
            push_str(&mut s, "AddUniqueConstraint ");
            push_table_columns(&mut s, table, columns);
        },
        OperationSummary::RemoveUniqueConstraint { table, columns } => {
            push_str(&mut s, "RemoveUniqueConstraint ");
            push_table_columns(&mut s, table, columns);
        },
        OperationSummary::BackfillColumn { table, column } => {
            push_str(&mut s, "BackfillColumn ");
            push_str(&mut s, table.as_str());
            push_str(&mut s, ".");
            push_str(&mut s, column.as_str());
        },
        OperationSummary::CreateSchemaObject { name } => {
            push_str(&mut s, "CreateSchemaObject ");
            push_str(&mut s, name.as_str());
        },
        OperationSummary::DropSchemaObject { name } => {
            push_str(&mut s, "DropSchemaObject ");
            push_str(&mut s, name.as_str());
        },
        OperationSummary::RunSql { state_operations } => {
            push_str(&mut s, "RunSql (");
            let n = u64_to_decimal(*state_operations as u64);
            push_str(&mut s, n.as_str());
            push_str(&mut s, " state operation(s)) — WARNING: manual SQL may change or delete data; inspect migration source");
        },
    }
    s
}

/// A compiled migration as its plan and listing show it: its id, the
/// migrations it depends on, and its operations.
#[derive(Debug, Clone)]
pub struct MigrationSummary {
    pub id: MigrationId,
    pub dependencies: Vec<MigrationId>,
    pub operations: Vec<OperationSummary>,
}

/// `app:name`.
pub open spec fn id_text(id: MigrationId) -> Seq<char> {
    id.app@ + ":"@ + id.name@
}

/// The `app:name` texts of `ids`.
pub open spec fn id_texts(ids: Seq<MigrationId>) -> Seq<Seq<char>> {
    Seq::new(ids.len(), |i: int| id_text(ids[i]))
}

/// The dependencies of a migration, `app:name` joined by `, `.
pub open spec fn dependency_text(ids: Seq<MigrationId>) -> Seq<char> {
    join(id_texts(ids), ", "@)
}

/// The lines describing `ops`, each indented by two spaces.
pub open spec fn operation_lines(ops: Seq<OperationSummary>) -> Seq<char>
    decreases ops.len(),
{
    if ops.len() == 0 {
        Seq::empty()
    } else {
        operation_lines(ops.drop_last()) + "  "@ + operation_text(ops.last()) + "\n"@
    }
}

/// The part of the plan for one pending migration.
pub open spec fn plan_block(m: MigrationSummary) -> Seq<char> {
    "\npending "@ + id_text(m.id) + "\n"@
        + "  Dependencies: "@ + (if m.dependencies@.len() == 0 { "none"@ } else { dependency_text(m.dependencies@) }) + "\n"@
        + (if m.operations@.len() == 0 { "  (no operations)\n"@ } else { Seq::empty() })
        + operation_lines(m.operations@)
}

/// The parts of the plan for the pending migrations `ms`, in order.
pub open spec fn plan_blocks(ms: Seq<MigrationSummary>) -> Seq<char>
    decreases ms.len(),
{
    if ms.len() == 0 { Seq::empty() } else { plan_blocks(ms.drop_last()) + plan_block(ms.last()) }
}

/// The forward plan of `migrate --plan` for the pending migrations.
pub open spec fn plan_text(pending: Seq<MigrationSummary>) -> Seq<char> {
    "Forward migration plan: "@ + decimal(pending.len()) + " pending migration(s).\n"@
        + plan_blocks(pending)
        + "\nPreview only: no migrations applied. SQL and live-schema compatibility are checked on apply.\n"@
}

fn push_id(out: &mut String, id: &MigrationId)
    ensures final(out)@ == old(out)@ + id_text(*id),
{
    push_str(out, id.app.as_str());
    push_str(out, ":");
    push_str(out, id.name.as_str());
}

fn push_dependencies(out: &mut String, ids: &Vec<MigrationId>)
    ensures final(out)@ == old(out)@ + dependency_text(ids@),
{
    let ghost ts = id_texts(ids@);
    let mut i: usize = 0;
    while i < ids.len()
        invariant
            i <= ids@.len(),
            ts == id_texts(ids@),
            out@ == old(out)@ + join(ts.take(i as int), ", "@),
        decreases ids.len() - i,
    {
        proof {
            crate::registry::lemma_join_step(ts, ", "@, i as int);
            assert(ts.take(0) == Seq::<Seq<char>>::empty());
        }
        if i > 0 {
            push_str(out, ", ");
        }
        push_id(out, &ids[i]);
        i += 1;
    }
    proof {
        assert(ts.take(ts.len() as int) == ts);
        assert(ts.take(0) == Seq::<Seq<char>>::empty());
        assert(old(out)@ + Seq::<char>::empty() == old(out)@);
    }
}

fn push_operation_lines(out: &mut String, ops: &Vec<OperationSummary>)
    ensures final(out)@ == old(out)@ + operation_lines(ops@),
{
    let mut i: usize = 0;
    while i < ops.len()
        invariant
            i <= ops@.len(),
            out@ == old(out)@ + operation_lines(ops@.take(i as int)),
        decreases ops.len() - i,
    {
        proof { assert(ops@.take(i + 1).drop_last() == ops@.take(i as int)); }
        push_str(out, "  ");
        let line = describe_migration_operation(&ops[i]);
        push_str(out, line.as_str());
        push_str(out, "\n");
        i += 1;
    }
    proof {
        assert(ops@.take(ops@.len() as int) == ops@);
        assert(ops@.take(0) == Seq::<OperationSummary>::empty());
    }
}

/// The text of `migrate --plan` for the migrations still to apply, in the
/// order they would be applied.
pub fn render_migration_plan(pending: &Vec<MigrationSummary>) -> (r: String)
    ensures r@ == plan_text(pending@),
{
    let mut out = owned("Forward migration plan: ");
    let n = u64_to_decimal(pending.len() as u64);
    push_str(&mut out, n.as_str());
    push_str(&mut out, " pending migration(s).\n");
    let ghost head = out@;
    let mut i: usize = 0;
    while i < pending.len()
        invariant
            i <= pending@.len(),
            out@ == head + plan_blocks(pending@.take(i as int)),
        decreases pending.len() - i,
    {
        proof { assert(pending@.take(i + 1).drop_last() == pending@.take(i as int)); }
        let m = &pending[i];
        push_str(&mut out, "\npending ");
        push_id(&mut out, &m.id);
        push_str(&mut out, "\n");
        push_str(&mut out, "  Dependencies: ");
        if m.dependencies.len() == 0 {
            push_str(&mut out, "none");
        } else {
            push_dependencies(&mut out, &m.dependencies);
        }
        push_str(&mut out, "\n");
        if m.operations.len() == 0 {
            push_str(&mut out, "  (no operations)\n");
        }
        push_operation_lines(&mut out, &m.operations);
        proof {
            assert(out@ == head + plan_blocks(pending@.take(i as int)) + plan_block(pending@[i as int]));
        }
        i += 1;
    }
    proof { assert(pending@.take(pending@.len() as int) == pending@); }
    push_str(&mut out, "\nPreview only: no migrations applied. SQL and live-schema compatibility are checked on apply.\n");
    out
}

/// `applied` holds the migration `id`.
pub open spec fn applied_has(applied: Seq<MigrationId>, id: MigrationId) -> bool {
    exists|i: int| 0 <= i < applied.len() && (#[trigger] applied[i]).app@ == id.app@ && applied[i].name@ == id.name@
}

/// `m` is shown when listing the migrations of `app_filter` (all when none).
pub open spec fn listed(app_filter: Option<Seq<char>>, m: MigrationSummary) -> bool {
    match app_filter {
        None => true,
        Some(a) => m.id.app@ == a,
    }
}

/// The lines listing `m`: its status, `[X]` when applied, then what it
/// depends on, if anything.
pub open spec fn list_entry(m: MigrationSummary, applied: Seq<MigrationId>) -> Seq<char> {
    (if applied_has(applied, m.id) { "[X]"@ } else { "[ ]"@ }) + " "@ + id_text(m.id) + "\n"@
        + (if m.dependencies@.len() > 0 { "    depends on: "@ + dependency_text(m.dependencies@) + "\n"@ } else { Seq::empty() })
}

/// The listed entries among the first `n` migrations of `ms`.
pub open spec fn list_body(ms: Seq<MigrationSummary>, applied: Seq<MigrationId>, app_filter: Option<Seq<char>>, n: int) -> Seq<char>
    decreases n,
{
    if n <= 0 {
        Seq::empty()
    } else {
        list_body(ms, applied, app_filter, n - 1)
            + (if listed(app_filter, ms[n - 1]) { list_entry(ms[n - 1], applied) } else { Seq::empty() })
    }
}

/// The text of `showmigrations`.
pub open spec fn list_text(ms: Seq<MigrationSummary>, applied: Seq<MigrationId>, app_filter: Option<Seq<char>>) -> Seq<char> {
    if exists|i: int| 0 <= i < ms.len() && listed(app_filter, #[trigger] ms[i]) {
        list_body(ms, applied, app_filter, ms.len() as int)
    } else {
        match app_filter {
            Some(a) => "No registered migrations for "@ + a + ".\n"@,
            None => "No registered migrations.\n"@,
        }
    }
}

/// The view of an optional app name.
pub open spec fn filter_view(app_filter: Option<&str>) -> Option<Seq<char>> {
    match app_filter {
        Some(a) => Some(a@),
        None => None,
    }
}

fn is_applied(applied: &Vec<MigrationId>, id: &MigrationId) -> (r: bool)
    ensures r == applied_has(applied@, *id),
{
    let mut i: usize = 0;
    while i < applied.len()
        invariant
            i <= applied@.len(),
            forall|j: int| 0 <= j < i ==> !((#[trigger] applied@[j]).app@ == id.app@ && applied@[j].name@ == id.name@),
        decreases applied.len() - i,
    {
        if str_eq(applied[i].app.as_str(), id.app.as_str()) && str_eq(applied[i].name.as_str(), id.name.as_str()) {
            return true;
        }
        i += 1;
    }
    false
}

fn push_list_entry(out: &mut String, m: &MigrationSummary, applied: &Vec<MigrationId>)
    ensures final(out)@ == old(out)@ + list_entry(*m, applied@),
{
    if is_applied(applied, &m.id) {
        push_str(out, "[X]");
    } else {
        push_str(out, "[ ]");
    }
    push_str(out, " ");
    push_id(out, &m.id);
    push_str(out, "\n");
    if m.dependencies.len() > 0 {
        push_str(out, "    depends on: ");
        push_dependencies(out, &m.dependencies);
        push_str(out, "\n");
    } else {
        proof { assert(out@ + Seq::<char>::empty() == out@); }
    }
}

/// The text of `showmigrations`: the migrations of `app_filter` (all when
/// none) in order, each marked `[X]` when `applied` holds it, with what it
/// depends on.
pub fn render_migration_list(ordered: &Vec<MigrationSummary>, applied: &Vec<MigrationId>, app_filter: Option<&str>) -> (r: String)
    ensures r@ == list_text(ordered@, applied@, filter_view(app_filter)),
{
    let ghost f = filter_view(app_filter);
    let mut out = String::new();
    let mut any = false;
    let mut i: usize = 0;
    while i < ordered.len()
        invariant
            i <= ordered@.len(),
            f == filter_view(app_filter),
            out@ == list_body(ordered@, applied@, f, i as int),
            any <==> exists|k: int| 0 <= k < i && listed(f, #[trigger] ordered@[k]),
        decreases ordered.len() - i,
    {
        let m = &ordered[i];
        let shown = match app_filter {
            None => true,
            Some(a) => str_eq(m.id.app.as_str(), a),
        };
        proof { assert(listed(f, ordered@[i as int]) == shown); }
        if shown {
            any = true;
            push_list_entry(&mut out, m, applied);
            proof { assert(listed(f, ordered@[i as int])); }
        }
        i += 1;
    }
    if !any {
        match app_filter {
            Some(a) => {
                let mut s = owned("No registered migrations for ");
                push_str(&mut s, a);
                push_str(&mut s, ".\n");
                return s;
            },
            None => {
                return owned("No registered migrations.\n");
            },
        }
    }
    out
}

/// Some migration of `app` in `ms` depends on the migration of `app` named
/// `name`.
pub open spec fn depended_on(ms: Seq<MigrationSummary>, app: Seq<char>, name: Seq<char>) -> bool {
    exists|i: int, j: int| 0 <= i < ms.len() && ms[i].id.app@ == app && 0 <= j < ms[i].dependencies@.len()
        && (#[trigger] ms[i].dependencies@[j]).app@ == app && ms[i].dependencies@[j].name@ == name
}

/// `m` is a head of `app`: a migration of `app` that no migration of `app`
/// depends on.
pub open spec fn is_head(ms: Seq<MigrationSummary>, app: Seq<char>, m: MigrationSummary) -> bool {
    m.id.app@ == app && !depended_on(ms, app, m.id.name@)
}

/// The heads of `app` among the first `n` migrations of `ms`, in order.
pub open spec fn heads_of(ms: Seq<MigrationSummary>, app: Seq<char>, n: int) -> Seq<MigrationId>
    decreases n,
{
    if n <= 0 {
        Seq::empty()
    } else if is_head(ms, app, ms[n - 1]) {
        heads_of(ms, app, n - 1).push(ms[n - 1].id)
    } else {
        heads_of(ms, app, n - 1)
    }
}

fn is_depended_on(ms: &Vec<MigrationSummary>, app: &str, name: &str) -> (r: bool)
    ensures r == depended_on(ms@, app@, name@),
{
    let mut i: usize = 0;
    while i < ms.len()
        invariant
            i <= ms@.len(),
            forall|k: int, j: int| 0 <= k < i && ms@[k].id.app@ == app@ && 0 <= j < ms@[k].dependencies@.len()
                ==> !((#[trigger] ms@[k].dependencies@[j]).app@ == app@ && ms@[k].dependencies@[j].name@ == name@),
        decreases ms.len() - i,
    {
        if str_eq(ms[i].id.app.as_str(), app) {
            let deps = &ms[i].dependencies;
            let mut j: usize = 0;
            while j < deps.len()
                invariant
                    i < ms@.len(),
                    deps@ == ms@[i as int].dependencies@,
                    ms@[i as int].id.app@ == app@,
                    j <= deps@.len(),
                    forall|k: int, l: int| 0 <= k < i && ms@[k].id.app@ == app@ && 0 <= l < ms@[k].dependencies@.len()
                        ==> !((#[trigger] ms@[k].dependencies@[l]).app@ == app@ && ms@[k].dependencies@[l].name@ == name@),
                    forall|l: int| 0 <= l < j ==> !((#[trigger] deps@[l]).app@ == app@ && deps@[l].name@ == name@),
                decreases deps.len() - j,
            {
                if str_eq(deps[j].app.as_str(), app) && str_eq(deps[j].name.as_str(), name) {
                    return true;
                }
                j += 1;
            }
        }
        i += 1;
    }
    false
}

/// The heads of `app` in `ordered` (the migrations in dependency order):
/// its migrations that no other migration of `app` depends on, in order.
/// More than one head is a branch that needs a merge migration.
pub fn app_heads(ordered: &Vec<MigrationSummary>, app: &str) -> (r: Vec<MigrationId>)
    ensures r@ == heads_of(ordered@, app@, ordered@.len() as int),
{
    let mut r: Vec<MigrationId> = Vec::new();
    let mut i: usize = 0;
    while i < ordered.len()
        invariant
            i <= ordered@.len(),
            r@ == heads_of(ordered@, app@, i as int),
        decreases ordered.len() - i,
    {
        let m = &ordered[i];
        if str_eq(m.id.app.as_str(), app) && !is_depended_on(ordered, app, m.id.name.as_str()) {
            r.push(MigrationId { app: m.id.app.clone(), name: m.id.name.clone() });
        }
        i += 1;
    }
    r
}

/// The migration `migrate <app> [name]` goes to: for `latest` (also when no
/// name is given), the first head of `app`; otherwise the migration of
/// `app` with that name, which must exist.
pub open spec fn migrate_target(ms: Seq<MigrationSummary>, app: Seq<char>, name: Seq<char>) -> Result<(Seq<char>, Seq<char>), ManageError> {
    if name == "latest"@ {
        let heads = heads_of(ms, app, ms.len() as int);
        if heads.len() > 0 {
            Ok((heads[0].app@, heads[0].name@))
        } else {
            Err(ManageError::NoOperationMigrations(arbitrary()))
        }
    } else if exists|i: int| 0 <= i < ms.len() && (#[trigger] ms[i]).id.app@ == app && ms[i].id.name@ == name {
        Ok((app, name))
    } else {
        Err(ManageError::UnknownOperationMigration { app: arbitrary(), name: arbitrary() })
    }
}

/// Resolves the target of `migrate <app> [name]` among the compiled
/// migrations `ordered`.
pub fn resolve_operation_migration_target(ordered: &Vec<MigrationSummary>, app: &str, name: Option<&str>) -> (r: Result<MigrationId, ManageError>)
    ensures
        ({
            let n = match name { Some(n) => n@, None => "latest"@ };
            match migrate_target(ordered@, app@, n) {
                Ok((a, m)) => r matches Ok(id) && id.app@ == a && id.name@ == m,
                Err(ManageError::NoOperationMigrations(_)) => r matches Err(ManageError::NoOperationMigrations(x)) && x@ == app@,
                Err(_) => r matches Err(ManageError::UnknownOperationMigration { app: a, name: m }) && a@ == app@ && m@ == n,
            }
        }),
{
    let n: &str = match name {
        Some(n) => n,
        None => "latest",
    };
    if str_eq(n, "latest") {
        let heads = app_heads(ordered, app);
        if heads.len() > 0 {
            return Ok(MigrationId { app: heads[0].app.clone(), name: heads[0].name.clone() });
        }
        return Err(ManageError::NoOperationMigrations(owned(app)));
    }
    let mut i: usize = 0;
    while i < ordered.len()
        invariant
            i <= ordered@.len(),
            n@ != "latest"@,
            n@ == match name { Some(x) => x@, None => "latest"@ },
            forall|k: int| 0 <= k < i ==> !((#[trigger] ordered@[k]).id.app@ == app@ && ordered@[k].id.name@ == n@),
        decreases ordered.len() - i,
    {
        if str_eq(ordered[i].id.app.as_str(), app) && str_eq(ordered[i].id.name.as_str(), n) {
            proof { assert(ordered@[i as int].id.app@ == app@ && ordered@[i as int].id.name@ == n@); }
            return Ok(MigrationId { app: owned(app), name: owned(n) });
        }
        i += 1;
    }
    Err(ManageError::UnknownOperationMigration { app: owned(app), name: owned(n) })
}

/// The key a migration is known by: its app and name.
pub open spec fn key(id: MigrationId) -> (Seq<char>, Seq<char>) {
    (id.app@, id.name@)
}

/// No two migrations of `ms` have the same key (as in a checked graph).
pub open spec fn unique_keys(ms: Seq<MigrationSummary>) -> bool {
    forall|i: int, j: int| 0 <= i < ms.len() && 0 <= j < ms.len() && #[trigger] key(ms[i].id) == #[trigger] key(ms[j].id) ==> i == j
}

/// `ms` has a migration with key `k`.
pub open spec fn has_node(ms: Seq<MigrationSummary>, k: (Seq<char>, Seq<char>)) -> bool {
    exists|i: int| 0 <= i < ms.len() && key((#[trigger] ms[i]).id) == k
}

/// Every dependency of a migration of `ms` is a migration of `ms`.
pub open spec fn closed_dependencies(ms: Seq<MigrationSummary>) -> bool {
    forall|i: int, d: int| 0 <= i < ms.len() && 0 <= d < ms[i].dependencies@.len()
        ==> has_node(ms, key(#[trigger] ms[i].dependencies@[d]))
}

/// `k` is reached from `starts` following at most `n` dependency links.
pub open spec fn reach_within(ms: Seq<MigrationSummary>, starts: Seq<MigrationId>, k: (Seq<char>, Seq<char>), n: nat) -> bool
    decreases n,
{
    if n == 0 {
        exists|j: int| 0 <= j < starts.len() && key(#[trigger] starts[j]) == k
    } else {
        reach_within(ms, starts, k, (n - 1) as nat)
            || exists|i: int, d: int| 0 <= i < ms.len() && 0 <= d < ms[i].dependencies@.len()
                && reach_within(ms, starts, key(ms[i].id), (n - 1) as nat)
                && key(#[trigger] ms[i].dependencies@[d]) == k
    }
}

/// `k` is `starts` or one of their dependencies, directly or not.
pub open spec fn reachable(ms: Seq<MigrationSummary>, starts: Seq<MigrationId>, k: (Seq<char>, Seq<char>)) -> bool {
    exists|n: nat| reach_within(ms, starts, k, n)
}

/// The migrations among the first `n` of `ms` that `starts` reach, in order.
pub open spec fn reached_in_order(ms: Seq<MigrationSummary>, starts: Seq<MigrationId>, n: int) -> Seq<MigrationId>
    decreases n,
{
    if n <= 0 {
        Seq::empty()
    } else if reachable(ms, starts, key(ms[n - 1].id)) {
        reached_in_order(ms, starts, n - 1).push(ms[n - 1].id)
    } else {
        reached_in_order(ms, starts, n - 1)
    }
}

/// The number of `true` entries of `s`.
pub open spec fn count_true(s: Seq<bool>) -> nat
    decreases s.len(),
{
    if s.len() == 0 { 0 } else { count_true(s.drop_last()) + if s.last() { 1nat } else { 0nat } }
}

proof fn lemma_count_true_bound(s: Seq<bool>)
    ensures count_true(s) <= s.len(),
    decreases s.len(),
{
    if s.len() > 0 {
        lemma_count_true_bound(s.drop_last());
    }
}

proof fn lemma_count_true_mark(s: Seq<bool>, i: int)
    requires 0 <= i < s.len(), !s[i],
    ensures count_true(s.update(i, true)) == count_true(s) + 1,
    decreases s.len(),
{
    let t = s.update(i, true);
    if i == s.len() - 1 {
        assert(t.drop_last() == s.drop_last());
    } else {
        assert(t.drop_last() == s.drop_last().update(i, true));
        lemma_count_true_mark(s.drop_last(), i);
    }
}

/// Some marked migration of `ms` has key `k`.
pub open spec fn marked(ms: Seq<MigrationSummary>, marks: Seq<bool>, k: (Seq<char>, Seq<char>)) -> bool {
    exists|x: int| 0 <= x < ms.len() && marks[x] && #[trigger] key(ms[x].id) == k
}

/// `pending` holds a migration with key `k`.
pub open spec fn pending_has(pending: Seq<MigrationId>, k: (Seq<char>, Seq<char>)) -> bool {
    exists|q: int| 0 <= q < pending.len() && #[trigger] key(pending[q]) == k
}

/// Each start is marked or pending.
pub open spec fn starts_covered(ms: Seq<MigrationSummary>, marks: Seq<bool>, pending: Seq<MigrationId>, starts: Seq<MigrationId>) -> bool {
    forall|j: int| 0 <= j < starts.len() ==> marked(ms, marks, key(#[trigger] starts[j])) || pending_has(pending, key(starts[j]))
}

/// Each dependency of a marked migration is marked or pending.
pub open spec fn deps_covered(ms: Seq<MigrationSummary>, marks: Seq<bool>, pending: Seq<MigrationId>) -> bool {
    forall|i: int, d: int| 0 <= i < ms.len() && marks[i] && 0 <= d < ms[i].dependencies@.len() ==>
        marked(ms, marks, key(#[trigger] ms[i].dependencies@[d])) || pending_has(pending, key(ms[i].dependencies@[d]))
}

proof fn lemma_count_true_none(s: Seq<bool>)
    requires forall|x: int| 0 <= x < s.len() ==> !s[x],
    ensures count_true(s) == 0,
    decreases s.len(),
{
    if s.len() > 0 {
        lemma_count_true_none(s.drop_last());
    }
}

/// Every migration key reached within `n` links is marked, when the marks
/// hold the starts and are closed under dependencies.
proof fn lemma_marks_complete(ms: Seq<MigrationSummary>, starts: Seq<MigrationId>, marks: Seq<bool>, k: (Seq<char>, Seq<char>), n: nat)
    requires
        marks.len() == ms.len(),
        unique_keys(ms),
        starts_covered(ms, marks, Seq::empty(), starts),
        deps_covered(ms, marks, Seq::empty()),
        reach_within(ms, starts, k, n),
    ensures
        marked(ms, marks, k),
    decreases n,
{
    if n == 0 {
        let j = choose|j: int| 0 <= j < starts.len() && key(#[trigger] starts[j]) == k;
        assert(marked(ms, marks, key(starts[j])) || pending_has(Seq::empty(), key(starts[j])));
    } else if reach_within(ms, starts, k, (n - 1) as nat) {
        lemma_marks_complete(ms, starts, marks, k, (n - 1) as nat);
    } else {
        let (i, d) = choose|i: int, d: int| 0 <= i < ms.len() && 0 <= d < ms[i].dependencies@.len()
            && reach_within(ms, starts, key(ms[i].id), (n - 1) as nat)
            && key(#[trigger] ms[i].dependencies@[d]) == k;
        lemma_marks_complete(ms, starts, marks, key(ms[i].id), (n - 1) as nat);
        let x = choose|x: int| 0 <= x < ms.len() && marks[x] && #[trigger] key(ms[x].id) == key(ms[i].id);
        assert(x == i);
        assert(marked(ms, marks, key(ms[i].dependencies@[d])) || pending_has(Seq::empty(), key(ms[i].dependencies@[d])));
    }
}

fn index_of_id(ms: &Vec<MigrationSummary>, id: &MigrationId) -> (r: Option<usize>)
    ensures
        match r {
            Some(i) => i < ms@.len() && key(ms@[i as int].id) == key(*id),
            None => !has_node(ms@, key(*id)),
        },
{
    let mut i: usize = 0;
    while i < ms.len()
        invariant
            i <= ms@.len(),
            forall|j: int| 0 <= j < i ==> key((#[trigger] ms@[j]).id) != key(*id),
        decreases ms.len() - i,
    {
        if str_eq(ms[i].id.app.as_str(), id.app.as_str()) && str_eq(ms[i].id.name.as_str(), id.name.as_str()) {
            return Some(i);
        }
        i += 1;
    }
    None
}

fn copy_id(id: &MigrationId) -> (r: MigrationId)
    ensures r == *id,
{
    MigrationId { app: id.app.clone(), name: id.name.clone() }
}

/// Which migrations of `ordered` the `starts` reach through their
/// dependencies.
fn reach_marks(ordered: &Vec<MigrationSummary>, starts: &Vec<MigrationId>) -> (marks: Vec<bool>)
    requires
        unique_keys(ordered@),
        closed_dependencies(ordered@),
        forall|j: int| 0 <= j < starts@.len() ==> has_node(ordered@, key(#[trigger] starts@[j])),
    ensures
        marks@.len() == ordered@.len(),
        forall|y: int| 0 <= y < ordered@.len() ==> (marks@[y] <==> reachable(ordered@, starts@, key(ordered@[y].id))),
{
    let ghost ms = ordered@;
    let n = ordered.len();
    let mut marks: Vec<bool> = Vec::new();
    let mut k: usize = 0;
    while k < n
        invariant
            k <= n,
            marks@.len() == k,
            forall|x: int| 0 <= x < k ==> !marks@[x],
        decreases n - k,
    {
        marks.push(false);
        k += 1;
    }
    proof { lemma_count_true_none(marks@); }
    let mut count: usize = 0;
    let mut pending: Vec<MigrationId> = Vec::new();
    let mut s: usize = 0;
    while s < starts.len()
        invariant
            s <= starts@.len(),
            pending@ == starts@.take(s as int),
        decreases starts.len() - s,
    {
        pending.push(copy_id(&starts[s]));
        proof { assert(starts@.take(s + 1) == starts@.take(s as int).push(starts@[s as int])); }
        s += 1;
    }
    proof {
        assert(starts@.take(starts@.len() as int) == starts@);
        assert forall|q: int| 0 <= q < pending@.len() implies reachable(ms, starts@, key(#[trigger] pending@[q])) by {
            assert(reach_within(ms, starts@, key(pending@[q]), 0));
        }
        assert forall|j: int| 0 <= j < starts@.len() implies
            marked(ms, marks@, key(#[trigger] starts@[j])) || pending_has(pending@, key(starts@[j])) by {
            assert(key(pending@[j]) == key(starts@[j]));
        }
    }
    while pending.len() > 0
        invariant
            ms == ordered@,
            n == ms.len(),
            marks@.len() == n,
            count == count_true(marks@),
            unique_keys(ms),
            closed_dependencies(ms),
            forall|q: int| 0 <= q < pending@.len() ==> has_node(ms, key(#[trigger] pending@[q])),
            forall|q: int| 0 <= q < pending@.len() ==> reachable(ms, starts@, key(#[trigger] pending@[q])),
            forall|x: int| 0 <= x < n && #[trigger] marks@[x] ==> reachable(ms, starts@, key(ms[x].id)),
            starts_covered(ms, marks@, pending@, starts@),
            deps_covered(ms, marks@, pending@),
        decreases n - count, pending.len(),
    {
        proof { lemma_count_true_bound(marks@); }
        let ghost before = pending@;
        let ghost old_marks = marks@;
        let id = pending.pop().unwrap();
        proof {
            assert(before == pending@.push(id));
            assert(id == before[before.len() - 1]);
        }
        match index_of_id(ordered, &id) {
            None => {
                proof { assert(has_node(ms, key(before[before.len() - 1]))); }
            },
            Some(i) => {
                if !marks[i] {
                    marks.set(i, true);
                    proof {
                        lemma_count_true_mark(old_marks, i as int);
                        assert(marks@ == old_marks.update(i as int, true));
                        lemma_count_true_bound(marks@);
                    }
                    count = count + 1;
                    let deps = &ordered[i].dependencies;
                    let ghost mid = pending@;
                    let mut d: usize = 0;
                    while d < deps.len()
                        invariant
                            ms == ordered@,
                            n == ms.len(),
                            i < n,
                            deps@ == ms[i as int].dependencies@,
                            d <= deps@.len(),
                            pending@ == mid + deps@.take(d as int),
                        decreases deps.len() - d,
                    {
                        pending.push(copy_id(&deps[d]));
                        proof { assert(deps@.take(d + 1) == deps@.take(d as int).push(deps@[d as int])); }
                        d += 1;
                    }
                    proof {
                        assert(deps@.take(deps@.len() as int) == deps@);
                        assert(pending@ == mid + deps@);
                        let top = key(before[before.len() - 1]);
                        assert(reachable(ms, starts@, top));
                        let rid = choose|m: nat| #[trigger] reach_within(ms, starts@, top, m);
                        assert(reach_within(ms, starts@, key(ms[i as int].id), rid));
                        assert forall|q: int| 0 <= q < pending@.len() implies
                            has_node(ms, key(#[trigger] pending@[q])) && reachable(ms, starts@, key(pending@[q])) by {
                            if q < mid.len() {
                                assert(pending@[q] == before[q]);
                            } else {
                                let dd = q - mid.len();
                                assert(pending@[q] == ms[i as int].dependencies@[dd]);
                                assert(has_node(ms, key(ms[i as int].dependencies@[dd])));
                                assert(reach_within(ms, starts@, key(pending@[q]), rid + 1));
                            }
                        }
                        assert forall|x: int| 0 <= x < n && #[trigger] marks@[x] implies reachable(ms, starts@, key(ms[x].id)) by {
                            if x != i {
                                assert(old_marks[x]);
                            }
                        }
                        assert forall|k: (Seq<char>, Seq<char>)| marked(ms, old_marks, k) || pending_has(before, k)
                            implies #[trigger] marked(ms, marks@, k) || pending_has(pending@, k) by {
                            if marked(ms, old_marks, k) {
                                let x = choose|x: int| 0 <= x < ms.len() && old_marks[x] && #[trigger] key(ms[x].id) == k;
                                assert(marks@[x]);
                            } else {
                                let q = choose|q: int| 0 <= q < before.len() && #[trigger] key(before[q]) == k;
                                if q == before.len() - 1 {
                                    assert(marks@[i as int] && key(ms[i as int].id) == k);
                                } else {
                                    assert(pending@[q] == before[q]);
                                }
                            }
                        }
                        assert forall|j: int| 0 <= j < starts@.len() implies
                            marked(ms, marks@, key(#[trigger] starts@[j])) || pending_has(pending@, key(starts@[j])) by {
                            assert(marked(ms, old_marks, key(starts@[j])) || pending_has(before, key(starts@[j])));
                        }
                        assert forall|a: int, e: int| 0 <= a < n && marks@[a] && 0 <= e < ms[a].dependencies@.len() implies
                            marked(ms, marks@, key(#[trigger] ms[a].dependencies@[e])) || pending_has(pending@, key(ms[a].dependencies@[e])) by {
                            if a == i {
                                assert(pending@[mid.len() + e] == ms[a].dependencies@[e]);
                            } else {
                                assert(old_marks[a]);
                                assert(marked(ms, old_marks, key(ms[a].dependencies@[e])) || pending_has(before, key(ms[a].dependencies@[e])));
                            }
                        }
                    }
                } else {
                    proof {
                        assert forall|k: (Seq<char>, Seq<char>)| marked(ms, marks@, k) || pending_has(before, k)
                            implies #[trigger] marked(ms, marks@, k) || pending_has(pending@, k) by {
                            if !marked(ms, marks@, k) {
                                let q = choose|q: int| 0 <= q < before.len() && #[trigger] key(before[q]) == k;
                                if q == before.len() - 1 {
                                    assert(marks@[i as int] && key(ms[i as int].id) == k);
                                } else {
                                    assert(pending@[q] == before[q]);
                                }
                            }
                        }
                        assert forall|j: int| 0 <= j < starts@.len() implies
                            marked(ms, marks@, key(#[trigger] starts@[j])) || pending_has(pending@, key(starts@[j])) by {
                            assert(marked(ms, marks@, key(starts@[j])) || pending_has(before, key(starts@[j])));
                        }
                        assert forall|a: int, e: int| 0 <= a < n && marks@[a] && 0 <= e < ms[a].dependencies@.len() implies
                            marked(ms, marks@, key(#[trigger] ms[a].dependencies@[e])) || pending_has(pending@, key(ms[a].dependencies@[e])) by {
                            assert(marked(ms, marks@, key(ms[a].dependencies@[e])) || pending_has(before, key(ms[a].dependencies@[e])));
                        }
                    }
                }
            },
        }
    }
    proof {
        assert forall|y: int| 0 <= y < n implies (marks@[y] <==> reachable(ms, starts@, key(ms[y].id))) by {
            if reachable(ms, starts@, key(ms[y].id)) {
                let ky = key(ms[y].id);
                let m = choose|m: nat| #[trigger] reach_within(ms, starts@, ky, m);
                assert(pending@ == Seq::<MigrationId>::empty());
                lemma_marks_complete(ms, starts@, marks@, ky, m);
                let x = choose|x: int| 0 <= x < ms.len() && marks@[x] && #[trigger] key(ms[x].id) == ky;
                assert(x == y);
            }
        }
    }
    marks
}

/// The migrations of `ordered` that `starts` reach through their
/// dependencies, `starts` included, in the order of `ordered`. Every start
/// and every dependency must be a migration of `ordered`, and keys are
/// unique, as in a checked migration graph.
pub fn reachable_migrations(ordered: &Vec<MigrationSummary>, starts: &Vec<MigrationId>) -> (r: Vec<MigrationId>)
    requires
        unique_keys(ordered@),
        closed_dependencies(ordered@),
        forall|j: int| 0 <= j < starts@.len() ==> has_node(ordered@, key(#[trigger] starts@[j])),
    ensures
        r@ == reached_in_order(ordered@, starts@, ordered@.len() as int),
{
    let ghost ms = ordered@;
    let n = ordered.len();
    let marks = reach_marks(ordered, starts);
    let mut r: Vec<MigrationId> = Vec::new();
    let mut x: usize = 0;
    while x < n
        invariant
            ms == ordered@,
            n == ms.len(),
            marks@.len() == n,
            x <= n,
            unique_keys(ms),
            forall|y: int| 0 <= y < n ==> (marks@[y] <==> reachable(ms, starts@, key(ms[y].id))),
            r@ == reached_in_order(ms, starts@, x as int),
        decreases n - x,
    {
        if marks[x] {
            r.push(copy_id(&ordered[x].id));
        }
        x += 1;
    }
    r
}

/// The migrations `target` needs, itself included, in the order of
/// `ordered`: what `migrate <app> <name>` applies at most.
pub fn migration_closure(ordered: &Vec<MigrationSummary>, target: &MigrationId) -> (r: Vec<MigrationId>)
    requires
        unique_keys(ordered@),
        closed_dependencies(ordered@),
        has_node(ordered@, key(*target)),
    ensures
        r@ == reached_in_order(ordered@, seq![*target], ordered@.len() as int),
{
    let mut starts: Vec<MigrationId> = Vec::new();
    starts.push(copy_id(target));
    proof { assert(starts@ == seq![*target]); }
    reachable_migrations(ordered, &starts)
}

/// `m` holds manual SQL.
pub open spec fn has_run_sql(m: MigrationSummary) -> bool {
    exists|j: int| 0 <= j < m.operations@.len() && (#[trigger] m.operations@[j]) is RunSql
}

/// The migrations among the first `n` of `ms` that `a` reaches exactly
/// when `in_a` and `b` reaches exactly when `in_b`, in order.
pub open spec fn reached_by(ms: Seq<MigrationSummary>, a: Seq<MigrationId>, b: Seq<MigrationId>, in_a: bool, in_b: bool, n: int) -> Seq<MigrationId>
    decreases n,
{
    if n <= 0 {
        Seq::empty()
    } else {
        let k = key(ms[n - 1].id);
        let prev = reached_by(ms, a, b, in_a, in_b, n - 1);
        if reachable(ms, a, k) == in_a && reachable(ms, b, k) == in_b { prev.push(ms[n - 1].id) } else { prev }
    }
}

/// The first of the first `n` migrations of `ms` that only one of `a` and
/// `b` reaches and that holds manual SQL.
pub open spec fn first_branch_run_sql(ms: Seq<MigrationSummary>, a: Seq<MigrationId>, b: Seq<MigrationId>, n: int) -> Option<MigrationId>
    decreases n,
{
    if n <= 0 {
        None
    } else {
        match first_branch_run_sql(ms, a, b, n - 1) {
            Some(id) => Some(id),
            None => {
                let k = key(ms[n - 1].id);
                if reachable(ms, a, k) != reachable(ms, b, k) && has_run_sql(ms[n - 1]) { Some(ms[n - 1].id) } else { None }
            },
        }
    }
}

/// The two heads of an app to merge and the migrations behind them: those
/// both need, and those only one of them needs, in migration order.
#[derive(Debug, Clone)]
pub struct MergeBranches {
    pub left_head: MigrationId,
    pub right_head: MigrationId,
    pub common: Vec<MigrationId>,
    pub left: Vec<MigrationId>,
    pub right: Vec<MigrationId>,
}

proof fn lemma_heads_are_nodes(ms: Seq<MigrationSummary>, app: Seq<char>, n: int)
    requires n <= ms.len(),
    ensures forall|t: int| 0 <= t < heads_of(ms, app, n).len() ==> has_node(ms, key(#[trigger] heads_of(ms, app, n)[t])),
    decreases n,
{
    if n > 0 {
        lemma_heads_are_nodes(ms, app, n - 1);
        let h = heads_of(ms, app, n);
        assert forall|t: int| 0 <= t < h.len() implies has_node(ms, key(#[trigger] h[t])) by {
            if t < heads_of(ms, app, n - 1).len() {
                assert(h[t] == heads_of(ms, app, n - 1)[t]);
            } else {
                assert(h[t] == ms[n - 1].id);
                assert(key(ms[n - 1].id) == key(h[t]));
            }
        }
    }
}

proof fn lemma_first_run_sql_stable(ms: Seq<MigrationSummary>, a: Seq<MigrationId>, b: Seq<MigrationId>, m: int, n: int)
    requires 0 <= m <= n, first_branch_run_sql(ms, a, b, m) is Some,
    ensures first_branch_run_sql(ms, a, b, n) == first_branch_run_sql(ms, a, b, m),
    decreases n - m,
{
    if n > m {
        lemma_first_run_sql_stable(ms, a, b, m, n - 1);
    }
}

fn contains_run_sql(m: &MigrationSummary) -> (r: bool)
    ensures r == has_run_sql(*m),
{
    let mut j: usize = 0;
    while j < m.operations.len()
        invariant
            j <= m.operations@.len(),
            forall|x: int| 0 <= x < j ==> !(#[trigger] m.operations@[x] is RunSql),
        decreases m.operations.len() - j,
    {
        match &m.operations[j] {
            OperationSummary::RunSql { .. } => { return true; },
            _ => {},
        }
        j += 1;
    }
    false
}

/// What `makemigrations <app> --merge` merges: `app` must have exactly two
/// heads, and no migration only one of them needs may hold manual SQL,
/// whose effect on the models cannot be replayed. The label must be a
/// valid migration name.
pub fn merge_branches(ordered: &Vec<MigrationSummary>, app: &str, label: &str) -> (r: Result<MergeBranches, ManageError>)
    requires
        unique_keys(ordered@),
        closed_dependencies(ordered@),
    ensures
        ({
            let heads = heads_of(ordered@, app@, ordered@.len() as int);
            if !migration_name_ok(label@) {
                r == Err::<MergeBranches, ManageError>(ManageError::InvalidMigrationName)
            } else if heads.len() < 2 {
                r matches Err(ManageError::NoMergeHeads(a)) && a@ == app@
            } else if heads.len() > 2 {
                r matches Err(ManageError::TooManyMergeHeads { app: a, count }) && a@ == app@ && count == heads.len()
            } else {
                let a = seq![heads[0]];
                let b = seq![heads[1]];
                let n = ordered@.len() as int;
                match first_branch_run_sql(ordered@, a, b, n) {
                    Some(id) => r matches Err(ManageError::MergeRunSql { app: x, name: y }) && x@ == id.app@ && y@ == id.name@,
                    None => r matches Ok(m) && {
                        &&& key(m.left_head) == key(heads[0])
                        &&& key(m.right_head) == key(heads[1])
                        &&& keys(m.common@) == keys(reached_by(ordered@, a, b, true, true, n))
                        &&& keys(m.left@) == keys(reached_by(ordered@, a, b, true, false, n))
                        &&& keys(m.right@) == keys(reached_by(ordered@, a, b, false, true, n))
                    },
                }
            }
        }),
{
    match validate_operation_migration_name(label) {
        Err(e) => { return Err(e); },
        Ok(()) => {},
    }
    let heads = app_heads(ordered, app);
    if heads.len() < 2 {
        return Err(ManageError::NoMergeHeads(owned(app)));
    }
    if heads.len() > 2 {
        return Err(ManageError::TooManyMergeHeads { app: owned(app), count: heads.len() as u64 });
    }
    proof { lemma_heads_are_nodes(ordered@, app@, ordered@.len() as int); }
    let mut a: Vec<MigrationId> = Vec::new();
    a.push(copy_id(&heads[0]));
    let mut b: Vec<MigrationId> = Vec::new();
    b.push(copy_id(&heads[1]));
    proof {
        assert(has_node(ordered@, key(heads@[0])));
        assert(has_node(ordered@, key(heads@[1])));
    }
    let ghost av = a@;
    let ghost bv = b@;
    let ghost ms = ordered@;
    let ghost hv = heads@;
    proof {
        assert(av =~= seq![hv[0]]);
        assert(bv =~= seq![hv[1]]);
    }
    let ma = reach_marks(ordered, &a);
    let mb = reach_marks(ordered, &b);
    let mut common: Vec<MigrationId> = Vec::new();
    let mut left: Vec<MigrationId> = Vec::new();
    let mut right: Vec<MigrationId> = Vec::new();
    let mut i: usize = 0;
    while i < ordered.len()
        invariant
            i <= ms.len(),
            ms == ordered@,
            ma@.len() == ms.len(),
            mb@.len() == ms.len(),
            forall|y: int| 0 <= y < ms.len() ==> (ma@[y] <==> reachable(ms, av, key(ms[y].id))),
            forall|y: int| 0 <= y < ms.len() ==> (mb@[y] <==> reachable(ms, bv, key(ms[y].id))),
            keys(common@) == keys(reached_by(ms, av, bv, true, true, i as int)),
            keys(left@) == keys(reached_by(ms, av, bv, true, false, i as int)),
            keys(right@) == keys(reached_by(ms, av, bv, false, true, i as int)),
            first_branch_run_sql(ms, av, bv, i as int) is None,
            hv == heads@,
            hv.len() == 2,
            migration_name_ok(label@),
            hv == heads_of(ordered@, app@, ordered@.len() as int),
            av == seq![hv[0]],
            bv == seq![hv[1]],
        decreases ordered.len() - i,
    {
        let m = &ordered[i];
        if ma[i] != mb[i] && contains_run_sql(m) {
            proof {
                assert(first_branch_run_sql(ms, av, bv, i + 1) == Some(ms[i as int].id));
                lemma_first_run_sql_stable(ms, av, bv, i + 1, ms.len() as int);
            }
            return Err(ManageError::MergeRunSql { app: m.id.app.clone(), name: m.id.name.clone() });
        }
        let ghost (c0, l0, r0) = (common@, left@, right@);
        if ma[i] && mb[i] {
            common.push(copy_id(&m.id));
            proof { assert(keys(common@) =~= keys(c0).push(key(ms[i as int].id))); }
        } else if ma[i] {
            left.push(copy_id(&m.id));
            proof { assert(keys(left@) =~= keys(l0).push(key(ms[i as int].id))); }
        } else if mb[i] {
            right.push(copy_id(&m.id));
            proof { assert(keys(right@) =~= keys(r0).push(key(ms[i as int].id))); }
        }
        proof {
            assert(keys(reached_by(ms, av, bv, true, true, i + 1)) =~= if ma@[i as int] && mb@[i as int] { keys(reached_by(ms, av, bv, true, true, i as int)).push(key(ms[i as int].id)) } else { keys(reached_by(ms, av, bv, true, true, i as int)) });
            assert(keys(reached_by(ms, av, bv, true, false, i + 1)) =~= if ma@[i as int] && !mb@[i as int] { keys(reached_by(ms, av, bv, true, false, i as int)).push(key(ms[i as int].id)) } else { keys(reached_by(ms, av, bv, true, false, i as int)) });
            assert(keys(reached_by(ms, av, bv, false, true, i + 1)) =~= if !ma@[i as int] && mb@[i as int] { keys(reached_by(ms, av, bv, false, true, i as int)).push(key(ms[i as int].id)) } else { keys(reached_by(ms, av, bv, false, true, i as int)) });
        }
        i += 1;
    }
    proof {
        assert(av == seq![heads@[0]]);
        assert(bv == seq![heads@[1]]);
    }
    let left_head = copy_id(&heads[0]);
    let right_head = copy_id(&heads[1]);
    Ok(MergeBranches { left_head, right_head, common, left, right })
}

/// Whether two branches merge, from replaying them in both orders over
/// their common history: both replays must succeed and reach the same
/// state (`same_state`).
pub fn merge_verdict(left_then_right: Result<(), String>, right_then_left: Result<(), String>, same_state: bool) -> (r: Result<(), ManageError>)
    ensures
        match (left_then_right, right_then_left) {
            (Ok(_), Ok(_)) => if same_state { r is Ok } else { r == Err::<(), ManageError>(ManageError::MergeStatesDiffer) },
            (Err(a), Err(b)) => r == Err::<(), ManageError>(ManageError::MergeIncompatibleBoth { left: a, right: b }),
            (Err(a), Ok(_)) => r == Err::<(), ManageError>(ManageError::MergeIncompatible(a)),
            (Ok(_), Err(b)) => r == Err::<(), ManageError>(ManageError::MergeIncompatible(b)),
        },
{
    match (left_then_right, right_then_left) {
        (Ok(()), Ok(())) => if same_state { Ok(()) } else { Err(ManageError::MergeStatesDiffer) },
        (Err(a), Err(b)) => Err(ManageError::MergeIncompatibleBoth { left: a, right: b }),
        (Err(a), Ok(())) => Err(ManageError::MergeIncompatible(a)),
        (Ok(()), Err(b)) => Err(ManageError::MergeIncompatible(b)),
    }
}

/// The migration that `sqlmigrate <app> <name>` renders, by its position in
/// `ordered`, with the migrations its dependencies need (the state its SQL
/// is planned against), in order.
pub fn sqlmigrate_target(ordered: &Vec<MigrationSummary>, app: &str, name: &str) -> (r: Result<(usize, Vec<MigrationId>), ManageError>)
    requires
        unique_keys(ordered@),
        closed_dependencies(ordered@),
    ensures
        has_node(ordered@, (app@, name@)) ==> (r matches Ok((i, required))
            && i < ordered@.len() && key(ordered@[i as int].id) == (app@, name@)
            && required@ == reached_in_order(ordered@, ordered@[i as int].dependencies@, ordered@.len() as int)),
        !has_node(ordered@, (app@, name@)) ==> (r matches Err(ManageError::UnknownSqlTarget { app: a, name: m })
            && a@ == app@ && m@ == name@),
{
    let target = MigrationId { app: owned(app), name: owned(name) };
    match index_of_id(ordered, &target) {
        None => Err(ManageError::UnknownSqlTarget { app: owned(app), name: owned(name) }),
        Some(i) => {
            proof {
                assert forall|j: int| 0 <= j < ordered@[i as int].dependencies@.len() implies
                    has_node(ordered@, key(#[trigger] ordered@[i as int].dependencies@[j])) by {}
            }
            let required = reachable_migrations(ordered, &ordered[i].dependencies);
            Ok((i, required))
        },
    }
}

/// The statement ends with `;`, trailing whitespace aside.
pub open spec fn ends_statement(s: Seq<char>) -> bool {
    let t = crate::registry::trim_end_ws(s);
    t.len() > 0 && t.last() == ';'
}

/// The lines of the statements `ss`: each ended by `;` if it is not already,
/// then a line feed.
pub open spec fn statement_lines(ss: Seq<String>) -> Seq<char>
    decreases ss.len(),
{
    if ss.len() == 0 {
        Seq::empty()
    } else {
        let s = ss.last()@;
        statement_lines(ss.drop_last()) + s + (if ends_statement(s) { Seq::empty() } else { ";"@ }) + "\n"@
    }
}

/// The output of `sqlmigrate` for `target`, given the SQL statements its
/// operations plan to.
pub open spec fn sql_text(target: MigrationSummary, statements: Seq<String>) -> Seq<char> {
    sql_text_of(target.id, target.operations@.len() > 0, statements)
}

/// The output of `sqlmigrate` for the migration `id`, which has operations
/// or not, given the SQL statements they plan to: a header naming it, a
/// note when it has no operations, and the statements, one per line, each
/// ended by `;`.
pub open spec fn sql_text_of(id: MigrationId, has_operations: bool, statements: Seq<String>) -> Seq<char> {
    "-- "@ + id_text(id) + "\n"@
        + (if !has_operations { "-- This migration has no SQL operations.\n"@ } else { Seq::empty() })
        + statement_lines(statements)
}

fn ends_with_semicolon(s: &str) -> (r: bool)
    ensures r == ends_statement(s@),
{
    let c = crate::text::chars_of(s);
    let mut e: usize = c.len();
    proof { assert(c@.take(c@.len() as int) == c@); }
    while e > 0 && crate::registry::char_is_ws(c[e - 1])
        invariant
            e <= c@.len(),
            c@ == s@,
            crate::registry::trim_end_ws(c@.take(e as int)) == crate::registry::trim_end_ws(s@),
        decreases e,
    {
        proof {
            assert(c@.take(e as int).drop_last() == c@.take(e - 1));
            assert(c@.take(e as int).last() == c@[e - 1]);
        }
        e -= 1;
    }
    proof {
        let t = c@.take(e as int);
        if e > 0 {
            assert(t.last() == c@[e - 1]);
        }
        assert(crate::registry::trim_end_ws(t) == t);
    }
    e > 0 && c[e - 1] == ';'
}

/// The output of `sqlmigrate` for `target`: a header naming it, a note
/// when it has no operations, and the statements its operations plan to,
/// one per line, each ended by `;`.
pub fn render_migration_sql(target: &MigrationSummary, statements: &Vec<String>) -> (r: String)
    ensures r@ == sql_text(*target, statements@),
{
    render_sql_of(&target.id, target.operations.len() > 0, statements)
}

/// The output of `sqlmigrate` for the migration `id`, given whether it has
/// operations and the statements they plan to.
pub(crate) fn render_sql_of(id: &MigrationId, has_operations: bool, statements: &Vec<String>) -> (r: String)
    ensures r@ == sql_text_of(*id, has_operations, statements@),
{
    let mut out = owned("-- ");
    push_id(&mut out, id);
    push_str(&mut out, "\n");
    if !has_operations {
        push_str(&mut out, "-- This migration has no SQL operations.\n");
    }
    let ghost head = out@;
    proof { assert(head == "-- "@ + id_text(*id) + "\n"@
        + (if !has_operations { "-- This migration has no SQL operations.\n"@ } else { Seq::empty() })); }
    let mut i: usize = 0;
    while i < statements.len()
        invariant
            i <= statements@.len(),
            out@ == head + statement_lines(statements@.take(i as int)),
        decreases statements.len() - i,
    {
        proof { assert(statements@.take(i + 1).drop_last() == statements@.take(i as int)); }
        let st = statements[i].as_str();
        push_str(&mut out, st);
        if !ends_with_semicolon(st) {
            push_str(&mut out, ";");
        }
        push_str(&mut out, "\n");
        i += 1;
    }
    proof { assert(statements@.take(statements@.len() as int) == statements@); }
    out
}

/// The checksum `refinery` records for a migration: a hash of its name,
/// version and SQL.
pub uninterp spec fn refinery_checksum(name: Seq<char>, version: int, sql: Seq<char>) -> u64;

/// `refinery::Migration::unapplied` on `V{version}__{name}` and `sql`. The
/// source reads the version and name with the pattern
/// `^([U|V])(\d+(?:\.\d+)?)__(\w+)`, so for fourteen ascii digits and a name
/// of ascii letters, digits and underscores the call succeeds with the
/// digits' value and the name; the checksum, a SipHash of name, version and
/// SQL, is named and not stated.
#[verifier::external_body]
fn refinery_migration(version: &str, name: &str, sql: &str) -> (r: Result<(i64, String, u64), String>)
    requires
        version@.len() == 14,
        all_digits(version@),
        migration_name_ok(name@),
    ensures
        r is Ok,
        r->Ok_0.0 == digits_value(version@),
        r->Ok_0.1@ == name@,
        r->Ok_0.2 == refinery_checksum(name@, r->Ok_0.0 as int, sql@),
{
    match refinery::Migration::unapplied(&format!("V{version}__{name}"), sql) {
        Ok(m) => Ok((m.version(), m.name().to_string(), m.checksum())),
        Err(e) => Err(e.to_string()),
    }
}

/// A SQL migration of an Atlas directory, as `refinery` records it.
#[derive(Debug, Clone, PartialEq, Eq)]
pub struct SqlMigration {
    pub version: i64,
    pub name: String,
    pub checksum: u64,
    pub sql: String,
}

/// A migration as mathematical values: version, name, checksum, SQL.
pub open spec fn sql_view(m: SqlMigration) -> (int, Seq<char>, u64, Seq<char>) {
    (m.version as int, m.name@, m.checksum, m.sql@)
}

/// The migration a checked file (version, name, path, SQL) becomes.
pub open spec fn loaded(g: (Seq<char>, Seq<char>, Seq<char>, Seq<char>)) -> (int, Seq<char>, u64, Seq<char>) {
    (digits_value(g.0) as int, g.1, refinery_checksum(g.1, digits_value(g.0) as int, g.3), g.3)
}

/// Versions never decrease along `ms`.
pub open spec fn by_version(ms: Seq<SqlMigration>) -> bool {
    forall|i: int, j: int| 0 <= i < j < ms.len() ==> ms[i].version <= ms[j].version
}

fn insert_by_version(v: &mut Vec<SqlMigration>, m: SqlMigration)
    requires by_version(old(v)@),
    ensures
        by_version(final(v)@),
        exists|p: int| 0 <= p <= old(v)@.len() && final(v)@ == old(v)@.insert(p, m),
{
    let mut p: usize = 0;
    while p < v.len() && v[p].version <= m.version
        invariant
            p <= v@.len(),
            v@ == old(v)@,
            forall|i: int| 0 <= i < p ==> v@[i].version <= m.version,
        decreases v.len() - p,
    {
        p += 1;
    }
    let ghost before = v@;
    v.insert(p, m);
    proof {
        assert(v@ == before.insert(p as int, m));
        assert forall|i: int, j: int| 0 <= i < j < v@.len() implies v@[i].version <= v@[j].version by {
            if j < p {
                assert(v@[i] == before[i] && v@[j] == before[j]);
            } else if j == p {
                assert(v@[i] == before[i]);
            } else if i == p {
                assert(v@[j] == before[j - 1]);
                assert(before[p as int].version > m.version);
            } else if i < p {
                assert(v@[i] == before[i] && v@[j] == before[j - 1]);
            } else {
                assert(v@[i] == before[i - 1] && v@[j] == before[j - 1]);
            }
        }
    }
}

/// The views of `ms`.
pub open spec fn sql_views(ms: Seq<SqlMigration>) -> Seq<(int, Seq<char>, u64, Seq<char>)> {
    Seq::new(ms.len(), |i: int| sql_view(ms[i]))
}

/// The migrations the checked files `goods` become, in order.
pub open spec fn loaded_all(goods: Seq<(Seq<char>, Seq<char>, Seq<char>, Seq<char>)>) -> Seq<(int, Seq<char>, u64, Seq<char>)> {
    Seq::new(goods.len(), |i: int| loaded(goods[i]))
}

/// Loads the migrations of an Atlas directory, given as (path, file name,
/// SQL text) in the order the directory lists them: the `.sql` files are
/// checked as `check_atlas_files` checks them, become `refinery` migrations
/// `V{version}__{name}`, and are ordered by version.
pub fn load_atlas_migrations(entries: &Vec<(String, String, String)>) -> (r: Result<Vec<SqlMigration>, ManageError>)
    ensures
        ({
            let names = entry_names(entries@);
            let goods = atlas_goods(entries@, entries@.len() as int);
            match r {
                Err(e) => atlas_refusal(entries@, e),
                Ok(ms) => (forall|i: int| 0 <= i < names.len() ==> !atlas_stops(names, i))
                    && by_version(ms@)
                    && sql_views(ms@).to_multiset() == loaded_all(goods).to_multiset(),
            }
        }),
{
    let files = match check_atlas_files(entries) {
        Err(e) => { return Err(e); },
        Ok(files) => files,
    };
    let ghost goods = atlas_goods(entries@, entries@.len() as int);
    let mut out: Vec<SqlMigration> = Vec::new();
    proof {
        assert(sql_views(out@) == Seq::<(int, Seq<char>, u64, Seq<char>)>::empty());
        assert(loaded_all(goods.take(0)) == Seq::<(int, Seq<char>, u64, Seq<char>)>::empty());
    }
    let mut i: usize = 0;
    while i < files.len()
        invariant
            i <= files@.len(),
            atlas_views(files@) == goods,
            goods == atlas_goods(entries@, entries@.len() as int),
            forall|k: int| 0 <= k < entry_names(entries@).len() ==> !atlas_stops(entry_names(entries@), k),
            by_version(out@),
            sql_views(out@).to_multiset() == loaded_all(goods.take(i as int)).to_multiset(),
        decreases files.len() - i,
    {
        let f = &files[i];
        proof {
            assert(goods[i as int] == (f.version@, f.name@, f.path@, f.sql@));
            lemma_goods_valid(entries@, entries@.len() as int, i as int);
        }
        let m = match refinery_migration(f.version.as_str(), f.name.as_str(), f.sql.as_str()) {
            Ok((version, name, checksum)) => SqlMigration { version, name, checksum, sql: f.sql.clone() },
            Err(message) => { return Err(ManageError::AtlasMigration(message)); },
        };
        proof { assert(sql_view(m) == loaded(goods[i as int])); }
        let ghost before = out@;
        insert_by_version(&mut out, m);
        proof {
            let p = choose|p: int| 0 <= p <= before.len() && out@ == before.insert(p, m);
            assert(sql_views(out@) == sql_views(before).insert(p, sql_view(m)));
            vstd::seq_lib::to_multiset_insert(sql_views(before), p, sql_view(m));
            assert(loaded_all(goods.take(i + 1)) == loaded_all(goods.take(i as int)).push(loaded(goods[i as int])));
            vstd::seq_lib::to_multiset_build(loaded_all(goods.take(i as int)), loaded(goods[i as int]));
        }
        i += 1;
    }
    proof { assert(goods.take(files@.len() as int) == goods); }
    Ok(out)
}

/// A row of the migration history table: version, name and checksum.
#[derive(Debug, Clone, PartialEq, Eq)]
pub struct AppliedMigration {
    pub version: i64,
    pub name: String,
    pub checksum: u64,
}

/// `V{version}__{name}`, as `refinery` names a migration.
pub open spec fn migration_label(version: int, name: Seq<char>) -> Seq<char> {
    "V"@ + decimal_signed(version) + "__"@ + name
}

/// The first migration file from `from` on with version `v`, or -1.
pub open spec fn file_with(files: Seq<SqlMigration>, v: int, from: int) -> int
    decreases files.len() - from,
{
    if from < 0 || from >= files.len() {
        -1
    } else if files[from].version == v {
        from
    } else {
        file_with(files, v, from + 1)
    }
}

/// What the history says of applied migration `a`: `None` when the file
/// with its version has its name and checksum; else the refusal.
pub open spec fn history_problem(files: Seq<SqlMigration>, a: AppliedMigration) -> Option<ManageError> {
    let k = file_with(files, a.version as int, 0);
    if k < 0 {
        Some(ManageError::MissingHistory(arbitrary()))
    } else if files[k].name@ == a.name@ && files[k].checksum == a.checksum {
        None
    } else {
        Some(ManageError::DivergentHistory { applied: arbitrary(), filesystem: arbitrary() })
    }
}

/// The status line of applied migration `a`.
pub open spec fn applied_line(files: Seq<SqlMigration>, a: AppliedMigration) -> Seq<char> {
    let k = file_with(files, a.version as int, 0);
    if k < 0 {
        "missing "@ + migration_label(a.version as int, a.name@)
    } else if files[k].name@ == a.name@ && files[k].checksum == a.checksum {
        "applied "@ + migration_label(a.version as int, a.name@)
    } else {
        "divergent "@ + migration_label(a.version as int, a.name@) + " (filesystem: "@
            + migration_label(files[k].version as int, files[k].name@) + ")"@
    }
}

/// `applied` holds a migration with version `v`.
pub open spec fn applied_version(applied: Seq<AppliedMigration>, v: int) -> bool {
    exists|i: int| 0 <= i < applied.len() && (#[trigger] applied[i]).version == v
}

/// The status lines of the first `n` applied migrations.
pub open spec fn applied_lines(files: Seq<SqlMigration>, applied: Seq<AppliedMigration>, n: int) -> Seq<char>
    decreases n,
{
    if n <= 0 { Seq::empty() } else { applied_lines(files, applied, n - 1) + applied_line(files, applied[n - 1]) + "\n"@ }
}

/// The pending lines of the first `n` files: those whose version was not
/// applied.
pub open spec fn pending_lines(files: Seq<SqlMigration>, applied: Seq<AppliedMigration>, n: int) -> Seq<char>
    decreases n,
{
    if n <= 0 {
        Seq::empty()
    } else if applied_version(applied, files[n - 1].version as int) {
        pending_lines(files, applied, n - 1)
    } else {
        pending_lines(files, applied, n - 1) + "pending "@ + migration_label(files[n - 1].version as int, files[n - 1].name@) + "\n"@
    }
}

/// The positions of the files among the first `n` whose version was not
/// applied, in order.
pub open spec fn pending_files(files: Seq<SqlMigration>, applied: Seq<AppliedMigration>, n: int) -> Seq<usize>
    decreases n,
{
    if n <= 0 {
        Seq::empty()
    } else if applied_version(applied, files[n - 1].version as int) {
        pending_files(files, applied, n - 1)
    } else {
        pending_files(files, applied, n - 1).push((n - 1) as usize)
    }
}

/// The status of a migration directory against its history: one line per
/// applied migration, then one per pending file; the number of pending
/// files; and whether a history entry is missing or divergent.
#[derive(Debug, Clone, PartialEq, Eq)]
pub struct StatusReport {
    pub text: String,
    pub pending: usize,
    pub problem: bool,
}

fn find_file(files: &Vec<SqlMigration>, v: i64) -> (r: Option<usize>)
    ensures
        match r {
            Some(k) => k < files@.len() && k as int == file_with(files@, v as int, 0),
            None => file_with(files@, v as int, 0) == -1,
        },
{
    let mut k: usize = 0;
    while k < files.len()
        invariant
            k <= files@.len(),
            file_with(files@, v as int, 0) == file_with(files@, v as int, k as int),
        decreases files.len() - k,
    {
        if files[k].version == v {
            return Some(k);
        }
        k += 1;
    }
    None
}

fn push_label(out: &mut String, version: i64, name: &String)
    ensures final(out)@ == old(out)@ + migration_label(version as int, name@),
{
    push_str(out, "V");
    let v = i64_to_decimal(version);
    push_str(out, v.as_str());
    push_str(out, "__");
    push_str(out, name.as_str());
}

fn has_version(applied: &Vec<AppliedMigration>, v: i64) -> (r: bool)
    ensures r == applied_version(applied@, v as int),
{
    let mut i: usize = 0;
    while i < applied.len()
        invariant
            i <= applied@.len(),
            forall|j: int| 0 <= j < i ==> (#[trigger] applied@[j]).version != v,
        decreases applied.len() - i,
    {
        if applied[i].version == v {
            return true;
        }
        i += 1;
    }
    false
}

/// The status of the migration files `files` (ordered by version) against
/// the history `applied`.
pub fn migration_status_report(files: &Vec<SqlMigration>, applied: &Vec<AppliedMigration>) -> (r: StatusReport)
    ensures
        r.text@ == applied_lines(files@, applied@, applied@.len() as int) + pending_lines(files@, applied@, files@.len() as int),
        r.pending as int == pending_files(files@, applied@, files@.len() as int).len(),
        r.problem == exists|i: int| 0 <= i < applied@.len() && history_problem(files@, #[trigger] applied@[i]) is Some,
{
    let mut text = String::new();
    let mut problem = false;
    let mut i: usize = 0;
    while i < applied.len()
        invariant
            i <= applied@.len(),
            text@ == applied_lines(files@, applied@, i as int),
            problem == exists|j: int| 0 <= j < i && history_problem(files@, #[trigger] applied@[j]) is Some,
        decreases applied.len() - i,
    {
        let a = &applied[i];
        match find_file(files, a.version) {
            None => {
                push_str(&mut text, "missing ");
                push_label(&mut text, a.version, &a.name);
                problem = true;
            },
            Some(k) => {
                let f = &files[k];
                if str_eq(f.name.as_str(), a.name.as_str()) && f.checksum == a.checksum {
                    push_str(&mut text, "applied ");
                    push_label(&mut text, a.version, &a.name);
                } else {
                    push_str(&mut text, "divergent ");
                    push_label(&mut text, a.version, &a.name);
                    push_str(&mut text, " (filesystem: ");
                    push_label(&mut text, f.version, &f.name);
                    push_str(&mut text, ")");
                    problem = true;
                }
            },
        }
        push_str(&mut text, "\n");
        proof {
            if history_problem(files@, applied@[i as int]) is Some {
                assert(exists|j: int| 0 <= j < i + 1 && history_problem(files@, #[trigger] applied@[j]) is Some);
            }
        }
        i += 1;
    }
    let ghost head = text@;
    let mut pending: usize = 0;
    let mut k: usize = 0;
    while k < files.len()
        invariant
            k <= files@.len(),
            text@ == head + pending_lines(files@, applied@, k as int),
            pending as int == pending_files(files@, applied@, k as int).len(),
            pending <= k,
        decreases files.len() - k,
    {
        if !has_version(applied, files[k].version) {
            push_str(&mut text, "pending ");
            push_label(&mut text, files[k].version, &files[k].name);
            push_str(&mut text, "\n");
            pending += 1;
        }
        k += 1;
    }
    StatusReport { text, pending, problem }
}

/// The files to apply: the history `applied` must agree with `files`
/// (ordered by version), the first disagreeing entry refused; then the
/// files whose version was not applied, by position, in order.
pub fn pending_migrations(files: &Vec<SqlMigration>, applied: &Vec<AppliedMigration>) -> (r: Result<Vec<usize>, ManageError>)
    ensures
        match r {
            Ok(p) => (forall|i: int| 0 <= i < applied@.len() ==> history_problem(files@, #[trigger] applied@[i]) is None)
                && p@ == pending_files(files@, applied@, files@.len() as int),
            Err(e) => exists|i: int| 0 <= i < applied@.len()
                && (forall|j: int| 0 <= j < i ==> history_problem(files@, #[trigger] applied@[j]) is None)
                && match history_problem(files@, #[trigger] applied@[i]) {
                    Some(ManageError::MissingHistory(_)) => e matches ManageError::MissingHistory(m)
                        && m@ == migration_label(applied@[i].version as int, applied@[i].name@),
                    Some(_) => e matches ManageError::DivergentHistory { applied: x, filesystem: y }
                        && x@ == migration_label(applied@[i].version as int, applied@[i].name@)
                        && y@ == migration_label(files@[file_with(files@, applied@[i].version as int, 0)].version as int,
                            files@[file_with(files@, applied@[i].version as int, 0)].name@),
                    None => false,
                },
        },
{
    let mut i: usize = 0;
    while i < applied.len()
        invariant
            i <= applied@.len(),
            forall|j: int| 0 <= j < i ==> history_problem(files@, #[trigger] applied@[j]) is None,
        decreases applied.len() - i,
    {
        let a = &applied[i];
        match find_file(files, a.version) {
            None => {
                let mut m = String::new();
                push_label(&mut m, a.version, &a.name);
                return Err(ManageError::MissingHistory(m));
            },
            Some(k) => {
                let f = &files[k];
                if !(str_eq(f.name.as_str(), a.name.as_str()) && f.checksum == a.checksum) {
                    let mut x = String::new();
                    push_label(&mut x, a.version, &a.name);
                    let mut y = String::new();
                    push_label(&mut y, f.version, &f.name);
                    return Err(ManageError::DivergentHistory { applied: x, filesystem: y });
                }
            },
        }
        i += 1;
    }
    let mut p: Vec<usize> = Vec::new();
    let mut k: usize = 0;
    while k < files.len()
        invariant
            k <= files@.len(),
            p@ == pending_files(files@, applied@, k as int),
        decreases files.len() - k,
    {
        if !has_version(applied, files[k].version) {
            p.push(k);
        }
        k += 1;
    }
    Ok(p)
}

/// `a` comes before `b` ordered by app, then name.
pub open spec fn key_lt(a: (Seq<char>, Seq<char>), b: (Seq<char>, Seq<char>)) -> bool {
    seq_lt(a.0, b.0) || (a.0 == b.0 && seq_lt(a.1, b.1))
}

proof fn lemma_key_lt_order(a: (Seq<char>, Seq<char>), b: (Seq<char>, Seq<char>), c: (Seq<char>, Seq<char>))
    ensures
        !key_lt(a, a),
        a != b ==> key_lt(a, b) || key_lt(b, a),
        !(key_lt(a, b) && key_lt(b, a)),
        key_lt(a, b) && key_lt(b, c) ==> key_lt(a, c),
{
    lemma_seq_lt_irreflexive(a.0);
    lemma_seq_lt_irreflexive(a.1);
    lemma_seq_lt_total(a.0, b.0);
    lemma_seq_lt_total(a.1, b.1);
    if key_lt(a, b) && key_lt(b, c) {
        if seq_lt(a.0, b.0) && seq_lt(b.0, c.0) { lemma_seq_lt_transitive(a.0, b.0, c.0); }
        if a.0 == b.0 && b.0 == c.0 && seq_lt(a.1, b.1) && seq_lt(b.1, c.1) { lemma_seq_lt_transitive(a.1, b.1, c.1); }
    }
    if a != b && a.0 == b.0 {
        assert(a.1 != b.1);
    }
}

/// The keys of `ids`.
pub open spec fn keys(ids: Seq<MigrationId>) -> Seq<(Seq<char>, Seq<char>)> {
    Seq::new(ids.len(), |i: int| key(ids[i]))
}

/// `ks` is strictly increasing by app, then name.
pub open spec fn keys_sorted(ks: Seq<(Seq<char>, Seq<char>)>) -> bool {
    forall|i: int, j: int| 0 <= i < j < ks.len() ==> key_lt(#[trigger] ks[i], #[trigger] ks[j])
}

/// The elements of `ks`.
pub open spec fn key_set(ks: Seq<(Seq<char>, Seq<char>)>) -> Set<(Seq<char>, Seq<char>)> {
    Set::new(|k: (Seq<char>, Seq<char>)| exists|i: int| 0 <= i < ks.len() && #[trigger] ks[i] == k)
}

fn id_lt(a: &MigrationId, b: &MigrationId) -> (r: bool)
    ensures r == key_lt(key(*a), key(*b)),
{
    str_lt(a.app.as_str(), b.app.as_str()) || (str_eq(a.app.as_str(), b.app.as_str()) && str_lt(a.name.as_str(), b.name.as_str()))
}

fn insert_id(v: &mut Vec<MigrationId>, x: MigrationId)
    requires keys_sorted(keys(old(v)@)),
    ensures
        keys_sorted(keys(final(v)@)),
        key_set(keys(final(v)@)) == key_set(keys(old(v)@)).insert(key(x)),
{
    let ghost old_s = keys(v@);
    let mut p: usize = 0;
    while p < v.len() && id_lt(&v[p], &x)
        invariant
            p <= v@.len(),
            keys(v@) == old_s,
            keys_sorted(old_s),
            forall|i: int| 0 <= i < p ==> key_lt(#[trigger] old_s[i], key(x)),
        decreases v.len() - p,
    {
        p += 1;
    }
    if p < v.len() && str_eq(v[p].app.as_str(), x.app.as_str()) && str_eq(v[p].name.as_str(), x.name.as_str()) {
        proof {
            assert(old_s[p as int] == key(x));
            assert(key_set(old_s).insert(key(x)) =~= key_set(old_s));
        }
        return;
    }
    proof {
        if p < old_s.len() {
            lemma_key_lt_order(old_s[p as int], key(x), key(x));
            assert(key_lt(key(x), old_s[p as int]));
        }
    }
    let ghost xk = key(x);
    v.insert(p, x);
    proof {
        let s = keys(v@);
        assert(s =~= old_s.insert(p as int, xk));
        assert forall|i: int, j: int| 0 <= i < j < s.len() implies key_lt(#[trigger] s[i], #[trigger] s[j]) by {
            if j < p {
                assert(key_lt(old_s[i], old_s[j]));
            } else if j == p {
            } else if i == p {
                if j - 1 > p {
                    assert(key_lt(old_s[p as int], old_s[j - 1]));
                    lemma_key_lt_order(xk, old_s[p as int], old_s[j - 1]);
                }
            } else if i < p {
                if j - 1 == p {
                    lemma_key_lt_order(old_s[i], xk, old_s[p as int]);
                } else {
                    assert(key_lt(old_s[i], old_s[j - 1]));
                }
            } else {
                assert(key_lt(old_s[i - 1], old_s[j - 1]));
            }
        }
        assert forall|y: (Seq<char>, Seq<char>)| key_set(s).contains(y) <==> key_set(old_s).insert(xk).contains(y) by {
            if key_set(s).contains(y) {
                let k = choose|k: int| 0 <= k < s.len() && #[trigger] s[k] == y;
                if k < p { assert(old_s[k] == y); } else if k > p { assert(old_s[k - 1] == y); }
            }
            if key_set(old_s).contains(y) {
                let k = choose|k: int| 0 <= k < old_s.len() && #[trigger] old_s[k] == y;
                if k < p { assert(s[k] == y); } else { assert(s[k + 1] == y); }
            }
            if y == xk {
                assert(s[p as int] == y);
            }
        }
        assert(key_set(s) =~= key_set(old_s).insert(xk));
    }
}

/// The heads of every app among the first `n` migrations of `ms`.
pub open spec fn all_heads_within(ms: Seq<MigrationSummary>, n: int) -> Set<(Seq<char>, Seq<char>)> {
    Set::new(|k: (Seq<char>, Seq<char>)| exists|i: int| 0 <= i < n && key((#[trigger] ms[i]).id) == k
        && is_head(ms, ms[i].id.app@, ms[i]))
}

/// What a generated migration depends on: the heads of every app of the
/// compiled history `ordered` (the heads of the app itself and of the apps
/// its foreign keys reference among them), ordered by app, then name. A
/// generated migration replays from that whole history.
pub fn generated_dependencies(ordered: &Vec<MigrationSummary>) -> (r: Vec<MigrationId>)
    ensures
        keys_sorted(keys(r@)),
        key_set(keys(r@)) == all_heads_within(ordered@, ordered@.len() as int),
{
    let mut r: Vec<MigrationId> = Vec::new();
    let mut i: usize = 0;
    proof { assert(key_set(keys(r@)) =~= all_heads_within(ordered@, 0)); }
    while i < ordered.len()
        invariant
            i <= ordered@.len(),
            keys_sorted(keys(r@)),
            key_set(keys(r@)) == all_heads_within(ordered@, i as int),
        decreases ordered.len() - i,
    {
        let m = &ordered[i];
        if !is_depended_on(ordered, m.id.app.as_str(), m.id.name.as_str()) {
            insert_id(&mut r, copy_id(&m.id));
            proof {
                assert(all_heads_within(ordered@, i + 1) =~= all_heads_within(ordered@, i as int).insert(key(ordered@[i as int].id)));
            }
        } else {
            proof { assert(all_heads_within(ordered@, i + 1) =~= all_heads_within(ordered@, i as int)); }
        }
        i += 1;
    }
    r
}

} // verus!
