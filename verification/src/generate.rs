use vstd::prelude::*;

use che_orm::{Migration, MigrationGraph, MigrationOperation, ProjectState, StateChange};

use crate::batch::{reference_problem, validate_generated_references};
use crate::history::{
    all_heads_within, closed_dependencies, generated_dependencies, has_node, key, key_set, keys, keys_sorted, reach_within,
    reachable, reached_in_order, render_sql_of, sql_text_of, sqlmigrate_target, unique_keys, MergeBranches, MigrationSummary,
};
use crate::management::{
    first_unnumbered, highest_number, lemma_numbering_bounds, installed, migration_name_ok, next_operation_migration_number,
    numbered_migration_name, padded_number, validate_operation_migration_name, ManageError, MigrationId,
};
use crate::text::{owned, push_str, str_eq};

verus! {

#[verifier::external_type_specification]
#[verifier::external_body]
pub struct ExProjectState(che_orm::ProjectState);

#[verifier::external_type_specification]
#[verifier::external_body]
pub struct ExMigrationOperation(che_orm::MigrationOperation);

#[verifier::external_type_specification]
#[verifier::external_body]
pub struct ExStateChange(che_orm::StateChange);

#[verifier::external_type_specification]
#[verifier::external_body]
pub struct ExMigration(che_orm::Migration);

#[verifier::external_type_specification]
#[verifier::external_body]
pub struct ExMigrationGraph(che_orm::MigrationGraph);

/// The state after `MigrationOperation::state_forwards` of `op` on `state`.
pub uninterp spec fn forwarded(op: MigrationOperation, state: ProjectState) -> ProjectState;

/// The error of `MigrationOperation::state_forwards` of `op` on `state`, as
/// text, if it fails.
pub uninterp spec fn forwards_failure(op: MigrationOperation, state: ProjectState) -> Option<Seq<char>>;

/// The error of `ProjectState::validate` on `state`, as text, if any.
pub uninterp spec fn validation_failure(state: ProjectState) -> Option<Seq<char>>;

/// `MigrationGraph::new` on `migrations`: the checked graph, or its error.
pub uninterp spec fn migration_graph(migrations: Seq<Migration>) -> Result<MigrationGraph, Seq<char>>;

/// The error of `MigrationGraph::plan_forward` from an empty history, if any.
pub uninterp spec fn forward_plan_failure(graph: MigrationGraph) -> Option<Seq<char>>;

/// `MigrationGraph::replay` from the default state.
pub uninterp spec fn replayed(graph: MigrationGraph) -> Result<ProjectState, Seq<char>>;

/// The ids and dependencies of the migrations of `graph`, in its order.
pub uninterp spec fn ordered_ids(graph: MigrationGraph) -> Seq<(MigrationId, Vec<MigrationId>)>;

/// `ProjectState::diff` from `history` to `desired`.
pub uninterp spec fn diff_of(history: ProjectState, desired: ProjectState) -> Result<Seq<StateChange>, Seq<char>>;

/// `StateChange::app`: the app owning the changed model.
pub uninterp spec fn app_of_change(change: StateChange) -> Seq<char>;

/// The foreign-key targets of the columns a change creates or alters, one
/// per column (`None` for a column without one).
pub uninterp spec fn column_references(change: StateChange) -> Seq<Option<String>>;

/// `StateChange::into_operation`.
pub uninterp spec fn operation_of_change(change: StateChange) -> MigrationOperation;

/// The (table, app) of each model of `state`.
pub uninterp spec fn tables_of(state: ProjectState) -> Seq<(String, String)>;

/// The (app, table, column) of each column of each model of `state`.
pub uninterp spec fn columns_of(state: ProjectState) -> Seq<(String, String, String)>;

/// `Migration::new` (which adds the checksum).
pub uninterp spec fn migration_of(id: MigrationId, dependencies: Seq<MigrationId>, operations: Seq<MigrationOperation>) -> Migration;

/// `StateChange::clone`: the derived copy, equal to the value copied.
#[verifier::external_body]
fn copy_change(change: &StateChange) -> (r: StateChange)
    ensures r == *change,
{
    change.clone()
}

/// `ProjectState::clone`: the derived copy, equal to the value copied.
#[verifier::external_body]
fn copy_state(state: &ProjectState) -> (r: ProjectState)
    ensures r == *state,
{
    state.clone()
}

/// `MigrationOperation::state_forwards`: applies `op` to `state` in place,
/// giving its error as text when it fails.
#[verifier::external_body]
fn state_forwards(op: &MigrationOperation, state: &mut ProjectState) -> (r: Option<String>)
    ensures
        *final(state) == forwarded(*op, *old(state)),
        match forwards_failure(*op, *old(state)) {
            Some(m) => r matches Some(e) && e@ == m,
            None => r is None,
        },
{
    match op.state_forwards(state) {
        Ok(()) => None,
        Err(e) => Some(e.to_string()),
    }
}

/// `ProjectState::validate`: the structural error of `state`, as text.
#[verifier::external_body]
fn validate_state(state: &ProjectState) -> (r: Option<String>)
    ensures
        match validation_failure(*state) {
            Some(m) => r matches Some(e) && e@ == m,
            None => r is None,
        },
{
    match state.validate() {
        Ok(()) => None,
        Err(e) => Some(e.to_string()),
    }
}

/// The id of a migration (its `id` field).
pub uninterp spec fn migration_id(m: Migration) -> MigrationId;

/// `MigrationGraph::new` on a copy of `migrations`. A graph it builds holds
/// the given migrations keyed by id (a repeated id is refused), so the ids
/// it orders are exactly theirs, one each.
#[verifier::external_body]
fn graph_new(migrations: &Vec<Migration>) -> (r: Result<MigrationGraph, String>)
    ensures
        match migration_graph(migrations@) {
            Ok(g) => r == Ok::<MigrationGraph, String>(g) && ordered_ids(g).len() == migrations@.len()
                && forall|i: int| 0 <= i < migrations@.len() ==> exists|j: int| 0 <= j < ordered_ids(g).len()
                    && #[trigger] key(ordered_ids(g)[j].0) == key(migration_id(#[trigger] migrations@[i])),
            Err(m) => r matches Err(e) && e@ == m,
        },
{
    match MigrationGraph::new(migrations.clone()) {
        Ok(g) => Ok(g),
        Err(e) => Err(e.to_string()),
    }
}

/// `MigrationGraph::plan_forward` with nothing applied and no target; only
/// its error is kept.
#[verifier::external_body]
fn plan_forward_check(graph: &MigrationGraph) -> (r: Option<String>)
    ensures
        match forward_plan_failure(*graph) {
            Some(m) => r matches Some(e) && e@ == m,
            None => r is None,
        },
{
    match graph.plan_forward(&std::collections::BTreeSet::new(), None) {
        Ok(_) => None,
        Err(e) => Some(e.to_string()),
    }
}

/// `MigrationGraph::replay` from `ProjectState::default()`.
#[verifier::external_body]
fn graph_replay(graph: &MigrationGraph) -> (r: Result<ProjectState, String>)
    ensures
        match replayed(*graph) {
            Ok(s) => r == Ok::<ProjectState, String>(s),
            Err(m) => r matches Err(e) && e@ == m,
        },
{
    match graph.replay(ProjectState::default()) {
        Ok(s) => Ok(s),
        Err(e) => Err(e.to_string()),
    }
}

/// No two migrations of `ids` share an app and a name.
pub open spec fn distinct_ids(ids: Seq<(MigrationId, Vec<MigrationId>)>) -> bool {
    forall|i: int, j: int| 0 <= i < ids.len() && 0 <= j < ids.len() && #[trigger] key(ids[i].0) == #[trigger] key(ids[j].0) ==> i == j
}

/// Every dependency of a migration of `ids` is a migration of `ids`.
pub open spec fn known_dependencies(ids: Seq<(MigrationId, Vec<MigrationId>)>) -> bool {
    forall|i: int, d: int| 0 <= i < ids.len() && 0 <= d < ids[i].1@.len()
        ==> exists|j: int| 0 <= j < ids.len() && key(ids[j].0) == key(#[trigger] ids[i].1@[d])
}

/// `MigrationGraph::ordered`, each migration taken by its id and
/// dependencies. The graph was checked when it was built: its migrations
/// are keyed by id, so no id comes twice, and a dependency on a migration
/// it does not hold was refused.
#[verifier::external_body]
fn graph_ids(graph: &MigrationGraph) -> (r: Vec<(MigrationId, Vec<MigrationId>)>)
    ensures
        r@ == ordered_ids(*graph),
        distinct_ids(r@),
        known_dependencies(r@),
{
    graph
        .ordered()
        .map(|m| (
            MigrationId { app: m.id.app.clone(), name: m.id.name.clone() },
            m.dependencies.iter().map(|d| MigrationId { app: d.app.clone(), name: d.name.clone() }).collect(),
        ))
        .collect()
}

/// `ProjectState::diff` from `history` to `desired`.
#[verifier::external_body]
fn state_diff(history: &ProjectState, desired: &ProjectState) -> (r: Result<Vec<StateChange>, String>)
    ensures
        match diff_of(*history, *desired) {
            Ok(c) => r matches Ok(v) && v@ == c,
            Err(m) => r matches Err(e) && e@ == m,
        },
{
    match history.diff(desired) {
        Ok(changes) => Ok(changes),
        Err(e) => Err(e.to_string()),
    }
}

/// `StateChange::app`.
#[verifier::external_body]
fn change_app(change: &StateChange) -> (r: String)
    ensures r@ == app_of_change(*change),
{
    change.app().to_string()
}

/// The foreign-key target of each column that `change` creates
/// (`CreateModel`, `AddColumn`) or alters (`AlterColumn`, the new column).
#[verifier::external_body]
fn change_references(change: &StateChange) -> (r: Vec<Option<String>>)
    ensures r@ == column_references(*change),
{
    let target = |c: &che_orm::ColumnState| c.references.as_ref().map(|f| f.target.clone());
    match change {
        StateChange::CreateModel(model) => model.table.columns.iter().map(target).collect(),
        StateChange::AddColumn { column, .. } => vec![target(column)],
        StateChange::AlterColumn { new_column, .. } => vec![target(new_column)],
        _ => Vec::new(),
    }
}

/// `StateChange::into_operation` on a copy of `change`.
#[verifier::external_body]
fn change_operation(change: &StateChange) -> (r: MigrationOperation)
    ensures r == operation_of_change(*change),
{
    change.clone().into_operation()
}

/// `ProjectState::models`, each taken by its table and app.
#[verifier::external_body]
fn model_tables(state: &ProjectState) -> (r: Vec<(String, String)>)
    ensures r@ == tables_of(*state),
{
    state.models().into_iter().map(|m| (m.table.name, m.key.app)).collect()
}

/// `ProjectState::models`, each column taken by its app, table and name.
#[verifier::external_body]
fn model_columns(state: &ProjectState) -> (r: Vec<(String, String, String)>)
    ensures r@ == columns_of(*state),
{
    state
        .models()
        .into_iter()
        .flat_map(|m| {
            let (app, table) = (m.key.app, m.table.name);
            m.table.columns.into_iter().map(move |c| (app.clone(), table.clone(), c.name))
        })
        .collect()
}

/// `Migration::new` with `id`, `dependencies` and `operations`.
#[verifier::external_body]
fn new_migration(id: &MigrationId, dependencies: &Vec<MigrationId>, operations: Vec<MigrationOperation>) -> (r: Migration)
    ensures
        r == migration_of(*id, dependencies@, operations@),
        key(migration_id(r)) == key(*id),
{
    let orm_id = |i: &MigrationId| che_orm::MigrationId { app: i.app.clone(), name: i.name.clone() };
    Migration::new(orm_id(id), dependencies.iter().map(orm_id).collect(), operations)
}

// ---------------------------------------------------------------------
// Ordering the generated operations.

/// The state after applying `op` to `state` and validating it, if both
/// succeed.
pub open spec fn step(op: MigrationOperation, state: ProjectState) -> Option<ProjectState> {
    if forwards_failure(op, state) is None && validation_failure(forwarded(op, state)) is None {
        Some(forwarded(op, state))
    } else {
        None
    }
}

/// Why `op` cannot be applied to `state`.
pub open spec fn step_error(op: MigrationOperation, state: ProjectState) -> Seq<char> {
    match forwards_failure(op, state) {
        Some(e) => e,
        None => match validation_failure(forwarded(op, state)) {
            Some(e) => e,
            None => Seq::empty(),
        },
    }
}

/// The first operation of `pending`, from `from` on, that applies to
/// `state`, or -1.
pub open spec fn first_ready(state: ProjectState, pending: Seq<MigrationOperation>, from: int) -> int
    decreases pending.len() - from,
{
    if from < 0 || from >= pending.len() {
        -1
    } else if step(pending[from], state) is Some {
        from
    } else {
        first_ready(state, pending, from + 1)
    }
}

pub proof fn lemma_first_ready(state: ProjectState, pending: Seq<MigrationOperation>, from: int)
    requires 0 <= from,
    ensures
        first_ready(state, pending, from) == -1 || (from <= first_ready(state, pending, from) < pending.len()
            && step(pending[first_ready(state, pending, from)], state) is Some),
        first_ready(state, pending, from) == -1 ==> forall|j: int| from <= j < pending.len() ==> step(#[trigger] pending[j], state) is None,
    decreases pending.len() - from,
{
    if from < pending.len() && step(pending[from], state) is None {
        lemma_first_ready(state, pending, from + 1);
    }
}

/// The operations `pending` in the order they are applied to `state`, and
/// the state they reach: each round applies the first operation that
/// applies; when none does, the error of the last one refuses the order.
pub open spec fn ordered_ops(state: ProjectState, pending: Seq<MigrationOperation>) -> Result<(Seq<MigrationOperation>, ProjectState), Seq<char>>
    decreases pending.len(),
{
    if pending.len() == 0 {
        Ok((Seq::empty(), state))
    } else {
        let i = first_ready(state, pending, 0);
        proof { lemma_first_ready(state, pending, 0); }
        if i < 0 {
            Err(step_error(pending.last(), state))
        } else {
            match ordered_ops(step(pending[i], state)->0, pending.remove(i)) {
                Ok((o, s)) => Ok((seq![pending[i]] + o, s)),
                Err(e) => Err(e),
            }
        }
    }
}

/// The state reached by applying `ops` in order to `state`, if each
/// applies.
pub open spec fn run(state: ProjectState, ops: Seq<MigrationOperation>) -> Option<ProjectState>
    decreases ops.len(),
{
    if ops.len() == 0 {
        Some(state)
    } else {
        match step(ops[0], state) {
            Some(s) => run(s, ops.drop_first()),
            None => None,
        }
    }
}

/// An ordering keeps the operations and applies them all, in its order.
pub proof fn lemma_ordered_ops(state: ProjectState, pending: Seq<MigrationOperation>)
    requires ordered_ops(state, pending) is Ok,
    ensures
        ordered_ops(state, pending)->Ok_0.0.to_multiset() == pending.to_multiset(),
        run(state, ordered_ops(state, pending)->Ok_0.0) == Some(ordered_ops(state, pending)->Ok_0.1),
    decreases pending.len(),
{
    broadcast use vstd::multiset::group_multiset_axioms, vstd::seq_lib::group_to_multiset_ensures;
    if pending.len() > 0 {
        lemma_first_ready(state, pending, 0);
        let i = first_ready(state, pending, 0);
        let next = step(pending[i], state)->0;
        let rest = pending.remove(i);
        lemma_ordered_ops(next, rest);
        let (o, s) = ordered_ops(next, rest)->Ok_0;
        let all = seq![pending[i]] + o;
        assert(all =~= o.insert(0, pending[i]));
        vstd::seq_lib::to_multiset_insert(o, 0, pending[i]);
        vstd::seq_lib::to_multiset_remove(pending, i);
        assert(pending.to_multiset().remove(pending[i]).insert(pending[i]) =~= pending.to_multiset());
        assert(all.drop_first() =~= o);
    } else {
        assert(pending =~= Seq::<MigrationOperation>::empty());
    }
}

fn find_ready(state: &ProjectState, pending: &Vec<MigrationOperation>) -> (r: Result<(usize, ProjectState), String>)
    requires pending@.len() > 0,
    ensures
        ({
            let i = first_ready(*state, pending@, 0);
            if i < 0 {
                r matches Err(e) && e@ == step_error(pending@.last(), *state)
            } else {
                r matches Ok((k, s)) && k == i && Some(s) == step(pending@[i], *state)
            }
        }),
{
    let mut last_error = String::new();
    let mut k: usize = 0;
    while k < pending.len()
        invariant
            k <= pending@.len(),
            pending@.len() > 0,
            first_ready(*state, pending@, 0) == first_ready(*state, pending@, k as int),
            k > 0 ==> last_error@ == step_error(pending@[k - 1], *state),
        decreases pending.len() - k,
    {
        let mut candidate = copy_state(state);
        match state_forwards(&pending[k], &mut candidate) {
            Some(e) => { last_error = e; },
            None => match validate_state(&candidate) {
                Some(e) => { last_error = e; },
                None => { return Ok((k, candidate)); },
            },
        }
        k += 1;
    }
    Err(last_error)
}

/// Orders `pending` by applying the operations to `history`: each round
/// takes the first operation that applies; when none does, the order is
/// refused with the error of the last one. Gives the order and the state
/// it reaches.
pub fn order_generated_operations(pending: Vec<MigrationOperation>, history: &ProjectState)
    -> (r: Result<(Vec<MigrationOperation>, ProjectState), ManageError>)
    ensures
        match ordered_ops(*history, pending@) {
            Ok((o, s)) => r matches Ok((v, t)) && v@ == o && t == s,
            Err(m) => r matches Err(ManageError::CannotOrder(e)) && e@ == m,
        },
        r matches Ok((v, t)) ==> v@.to_multiset() == pending@.to_multiset() && run(*history, v@) == Some(t),
{
    let ghost p0 = pending@;
    let mut rest = pending;
    let mut state = copy_state(history);
    let mut ordered: Vec<MigrationOperation> = Vec::new();
    while rest.len() > 0
        invariant
            p0 == pending@,
            match ordered_ops(state, rest@) {
                Ok((o, s)) => ordered_ops(*history, p0) == Ok::<(Seq<MigrationOperation>, ProjectState), Seq<char>>((ordered@ + o, s)),
                Err(e) => ordered_ops(*history, p0) == Err::<(Seq<MigrationOperation>, ProjectState), Seq<char>>(e),
            },
        decreases rest.len(),
    {
        proof { lemma_first_ready(state, rest@, 0); }
        match find_ready(&state, &rest) {
            Err(e) => {
                proof {
                    assert(first_ready(state, rest@, 0) < 0);
                    assert(e@ == step_error(rest@.last(), state));
                    assert(ordered_ops(state, rest@) == Err::<(Seq<MigrationOperation>, ProjectState), Seq<char>>(step_error(rest@.last(), state)));
                    assert(ordered_ops(*history, p0) == Err::<(Seq<MigrationOperation>, ProjectState), Seq<char>>(e@));
                }
                return Err(ManageError::CannotOrder(e));
            },
            Ok((i, next)) => {
                let ghost before = rest@;
                let ghost ord0 = ordered@;
                let op = rest.remove(i);
                proof {
                    assert(rest@ == before.remove(i as int));
                    match ordered_ops(next, rest@) {
                        Ok((o, s)) => { assert(ord0.push(op) + o =~= ord0 + (seq![op] + o)); },
                        Err(_) => {},
                    }
                }
                ordered.push(op);
                state = next;
            },
        }
    }
    proof {
        assert(ordered@ + Seq::<MigrationOperation>::empty() =~= ordered@);
        lemma_ordered_ops(*history, p0);
    }
    Ok((ordered, state))
}


// ---------------------------------------------------------------------
// Building the next migration of an app.

/// The changes of the first `n` of `changes` that belong to `app`, in order.
pub open spec fn app_changes(changes: Seq<StateChange>, app: Seq<char>, n: int) -> Seq<StateChange>
    decreases n,
{
    if n <= 0 {
        Seq::empty()
    } else if app_of_change(changes[n - 1]) == app {
        app_changes(changes, app, n - 1).push(changes[n - 1])
    } else {
        app_changes(changes, app, n - 1)
    }
}

/// The targets among the first `n` of `refs`, in order.
pub open spec fn present_refs(refs: Seq<Option<String>>, n: int) -> Seq<String>
    decreases n,
{
    if n <= 0 {
        Seq::empty()
    } else {
        match refs[n - 1] {
            Some(t) => present_refs(refs, n - 1).push(t),
            None => present_refs(refs, n - 1),
        }
    }
}

/// The foreign keys of the columns the first `n` of `changes` create or
/// alter, in order.
pub open spec fn change_refs(changes: Seq<StateChange>, n: int) -> Seq<String>
    decreases n,
{
    if n <= 0 {
        Seq::empty()
    } else {
        let refs = column_references(changes[n - 1]);
        change_refs(changes, n - 1) + present_refs(refs, refs.len() as int)
    }
}

/// The operation of each change.
pub open spec fn change_ops(changes: Seq<StateChange>) -> Seq<MigrationOperation> {
    Seq::new(changes.len(), |i: int| operation_of_change(changes[i]))
}

/// The first refused foreign key of `refs` from `i` on, if any.
pub open spec fn first_problem(
    refs: Seq<String>,
    tables: Seq<(String, String)>,
    app: Seq<char>,
    desired: Seq<(String, String, String)>,
    history: Seq<(String, String, String)>,
    i: int,
) -> Option<Option<(Seq<char>, Seq<char>)>>
    decreases refs.len() - i,
{
    if i < 0 || i >= refs.len() {
        None
    } else {
        match reference_problem(refs[i]@, tables, app, desired, history) {
            Some(p) => Some(p),
            None => first_problem(refs, tables, app, desired, history, i + 1),
        }
    }
}

proof fn lemma_first_problem(
    refs: Seq<String>,
    tables: Seq<(String, String)>,
    app: Seq<char>,
    desired: Seq<(String, String, String)>,
    history: Seq<(String, String, String)>,
    i: int,
    k: int,
)
    requires
        0 <= i <= k <= refs.len(),
        forall|j: int| i <= j < k ==> reference_problem((#[trigger] refs[j])@, tables, app, desired, history) is None,
    ensures first_problem(refs, tables, app, desired, history, i) == first_problem(refs, tables, app, desired, history, k),
    decreases k - i,
{
    if i < k {
        lemma_first_problem(refs, tables, app, desired, history, i + 1, k);
    }
}

/// The ids of `ids`, in order.
pub open spec fn id_list(ids: Seq<(MigrationId, Vec<MigrationId>)>) -> Seq<MigrationId> {
    Seq::new(ids.len(), |i: int| ids[i].0)
}

/// `sums` are the migrations `ids` with their dependencies.
pub open spec fn summaries_of(sums: Seq<MigrationSummary>, ids: Seq<(MigrationId, Vec<MigrationId>)>) -> bool {
    &&& sums.len() == ids.len()
    &&& forall|i: int| 0 <= i < sums.len() ==> (#[trigger] sums[i]).id == ids[i].0 && sums[i].dependencies@ == ids[i].1@
}

/// What generating the next migration of `app` gives once the history
/// `history` of graph `graph` is replayed and its `changes` towards
/// `desired` are known: nothing without changes (unless an empty migration
/// is asked for); else the next number, the foreign keys checked, the
/// operations ordered and, for a non-empty migration, checked to reproduce
/// the desired models of `app`; then the migration numbered and named
/// `label`, depending on the heads of every app.
pub open spec fn generated(
    r: Result<Option<Migration>, ManageError>,
    desired: ProjectState,
    graph: MigrationGraph,
    history: ProjectState,
    changes: Seq<StateChange>,
    app: Seq<char>,
    label: Seq<char>,
    empty: bool,
) -> bool {
    let ids = ordered_ids(graph);
    let ms = id_list(ids);
    if changes.len() == 0 && !empty {
        r == Ok::<Option<Migration>, ManageError>(None)
    } else if first_unnumbered(ms, app) < ms.len() {
        r matches Err(ManageError::NoNumericPrefix(n)) && n@ == ms[first_unnumbered(ms, app)].name@
    } else if highest_number(ms, app) == u32::MAX {
        r == Err::<Option<Migration>, ManageError>(ManageError::NumberOverflow)
    } else {
        checked_references(r, desired, ids, history, changes, app, label, empty, (highest_number(ms, app) + 1) as nat)
    }
}

/// The foreign keys of `changes` are checked; then the operations are
/// ordered (see `ordered_outcome`).
#[verifier::opaque]
pub open spec fn checked_references(
    r: Result<Option<Migration>, ManageError>,
    desired: ProjectState,
    ids: Seq<(MigrationId, Vec<MigrationId>)>,
    history: ProjectState,
    changes: Seq<StateChange>,
    app: Seq<char>,
    label: Seq<char>,
    empty: bool,
    number: nat,
) -> bool {
    match first_problem(change_refs(changes, changes.len() as int), tables_of(desired), app,
        columns_of(desired), columns_of(history), 0) {
        Some(None) => r == Err::<Option<Migration>, ManageError>(ManageError::InvalidForeignKey),
        Some(Some((t, o))) => r matches Err(ManageError::ForeignKeyNeedsMigration { target, owner })
            && target@ == t && owner@ == o,
        None => ordered_outcome(r, desired, ids, history, changes, app, label, empty, number),
    }
}

/// The operations of `changes` are ordered on `history`; a non-empty
/// migration must reproduce the desired models of `app`; the migration is
/// numbered `number`, named `label`, and depends on the heads of every app.
#[verifier::opaque]
pub open spec fn ordered_outcome(
    r: Result<Option<Migration>, ManageError>,
    desired: ProjectState,
    ids: Seq<(MigrationId, Vec<MigrationId>)>,
    history: ProjectState,
    changes: Seq<StateChange>,
    app: Seq<char>,
    label: Seq<char>,
    empty: bool,
    number: nat,
) -> bool {
    match ordered_ops(history, change_ops(changes)) {
        Err(m) => r matches Err(ManageError::CannotOrder(e)) && e@ == m,
        Ok((ops, reached)) => if !empty && diff_of(reached, desired) is Err {
            r matches Err(ManageError::OrmError(e)) && e@ == diff_of(reached, desired)->Err_0
        } else if !empty && app_changes(diff_of(reached, desired)->Ok_0, app,
            diff_of(reached, desired)->Ok_0.len() as int).len() > 0 {
            r == Err::<Option<Migration>, ManageError>(ManageError::NotReproduced)
        } else {
            r matches Ok(Some(m)) && exists|sums: Seq<MigrationSummary>| #[trigger] summaries_of(sums, ids)
                && exists|id: MigrationId, deps: Seq<MigrationId>| {
                    &&& id.app@ == app
                    &&& id.name@ == padded_number(number) + "_"@ + label
                    &&& keys_sorted(keys(deps))
                    &&& key_set(keys(deps)) == all_heads_within(sums, sums.len() as int)
                    &&& m == #[trigger] migration_of(id, deps, ops)
                }
        },
    }
}

fn copy_id(id: &MigrationId) -> (r: MigrationId)
    ensures r == *id,
{
    MigrationId { app: id.app.clone(), name: id.name.clone() }
}

fn copy_ids(ids: &Vec<MigrationId>) -> (r: Vec<MigrationId>)
    ensures r@ == ids@,
{
    let mut r: Vec<MigrationId> = Vec::new();
    let mut i: usize = 0;
    while i < ids.len()
        invariant
            i <= ids@.len(),
            r@ == ids@.take(i as int),
        decreases ids.len() - i,
    {
        r.push(copy_id(&ids[i]));
        proof { assert(ids@.take(i + 1) == ids@.take(i as int).push(ids@[i as int])); }
        i += 1;
    }
    proof { assert(ids@.take(ids@.len() as int) == ids@); }
    r
}

/// The changes of `changes` that belong to `app`, in order.
fn changes_of_app(changes: &Vec<StateChange>, app: &str) -> (r: Vec<StateChange>)
    ensures r@ == app_changes(changes@, app@, changes@.len() as int),
{
    let mut r: Vec<StateChange> = Vec::new();
    let mut i: usize = 0;
    while i < changes.len()
        invariant
            i <= changes@.len(),
            r@ == app_changes(changes@, app@, i as int),
        decreases changes.len() - i,
    {
        let owner = change_app(&changes[i]);
        if str_eq(owner.as_str(), app) {
            r.push(copy_change(&changes[i]));
        }
        i += 1;
    }
    r
}

fn references_of(changes: &Vec<StateChange>) -> (r: Vec<String>)
    ensures r@ == change_refs(changes@, changes@.len() as int),
{
    let mut r: Vec<String> = Vec::new();
    let mut k: usize = 0;
    while k < changes.len()
        invariant
            k <= changes@.len(),
            r@ == change_refs(changes@, k as int),
        decreases changes.len() - k,
    {
        let refs = change_references(&changes[k]);
        let ghost base = r@;
        let mut j: usize = 0;
        while j < refs.len()
            invariant
                j <= refs@.len(),
                r@ == base + present_refs(refs@, j as int),
            decreases refs.len() - j,
        {
            match &refs[j] {
                Some(t) => {
                    let ghost before = r@;
                    r.push(t.clone());
                    proof { assert(r@ == before.push(refs@[j as int]->0)); assert(base + present_refs(refs@, j + 1) =~= (base + present_refs(refs@, j as int)).push(refs@[j as int]->0)); }
                },
                None => {},
            }
            j += 1;
        }
        k += 1;
    }
    r
}

fn operations_of(changes: &Vec<StateChange>) -> (r: Vec<MigrationOperation>)
    ensures r@ == change_ops(changes@),
{
    let mut r: Vec<MigrationOperation> = Vec::new();
    let mut k: usize = 0;
    while k < changes.len()
        invariant
            k <= changes@.len(),
            r@ == change_ops(changes@).take(k as int),
        decreases changes.len() - k,
    {
        r.push(change_operation(&changes[k]));
        proof { assert(change_ops(changes@).take(k + 1) =~= change_ops(changes@).take(k as int).push(operation_of_change(changes@[k as int]))); }
        k += 1;
    }
    proof { assert(change_ops(changes@).take(changes@.len() as int) =~= change_ops(changes@)); }
    r
}

fn ids_and_summaries(ids: &Vec<(MigrationId, Vec<MigrationId>)>) -> (r: (Vec<MigrationId>, Vec<MigrationSummary>))
    ensures r.0@ == id_list(ids@), summaries_of(r.1@, ids@),
{
    let mut list: Vec<MigrationId> = Vec::new();
    let mut sums: Vec<MigrationSummary> = Vec::new();
    let mut i: usize = 0;
    while i < ids.len()
        invariant
            i <= ids@.len(),
            list@ == id_list(ids@).take(i as int),
            sums@.len() == i,
            forall|j: int| 0 <= j < i ==> (#[trigger] sums@[j]).id == ids@[j].0 && sums@[j].dependencies@ == ids@[j].1@,
        decreases ids.len() - i,
    {
        list.push(copy_id(&ids[i].0));
        sums.push(MigrationSummary { id: copy_id(&ids[i].0), dependencies: copy_ids(&ids[i].1), operations: Vec::new() });
        proof { assert(id_list(ids@).take(i + 1) =~= id_list(ids@).take(i as int).push(ids@[i as int].0)); }
        i += 1;
    }
    proof { assert(id_list(ids@).take(ids@.len() as int) =~= id_list(ids@)); }
    (list, sums)
}

fn app_installed(apps: &Vec<String>, app: &str) -> (r: bool)
    ensures r == installed(apps@, app@),
{
    let mut i: usize = 0;
    while i < apps.len()
        invariant
            i <= apps@.len(),
            forall|j: int| 0 <= j < i ==> (#[trigger] apps@[j])@ != app@,
        decreases apps.len() - i,
    {
        if str_eq(apps[i].as_str(), app) {
            return true;
        }
        i += 1;
    }
    false
}

#[verifier::rlimit(100)]
fn generate_from_changes(
    desired: &ProjectState,
    graph: &MigrationGraph,
    history: ProjectState,
    changes: Vec<StateChange>,
    app: &str,
    label: &str,
    empty: bool,
) -> (r: Result<Option<Migration>, ManageError>)
    ensures generated(r, *desired, *graph, history, changes@, app@, label@, empty),
{
    if changes.len() == 0 && !empty {
        return Ok(None);
    }
    let ids = graph_ids(graph);
    let (list, sums) = ids_and_summaries(&ids);
    let ghost ms = id_list(ordered_ids(*graph));
    assert(list@ == ms);
    proof { lemma_numbering_bounds(ms, app@); }
    let number = match next_operation_migration_number(&list, app) {
        Ok(n) => n,
        Err(e) => {
            assert(first_unnumbered(ms, app@) < ms.len() || highest_number(ms, app@) == u32::MAX);
            return Err(e);
        },
    };
    assert(first_unnumbered(ms, app@) == ms.len() && highest_number(ms, app@) < u32::MAX);
    assert(number as nat == (highest_number(ms, app@) + 1) as nat);
    check_references(desired, &ids, &sums, history, changes, app, label, empty, number)
}

fn check_references(
    desired: &ProjectState,
    ids: &Vec<(MigrationId, Vec<MigrationId>)>,
    sums: &Vec<MigrationSummary>,
    history: ProjectState,
    changes: Vec<StateChange>,
    app: &str,
    label: &str,
    empty: bool,
    number: u32,
) -> (r: Result<Option<Migration>, ManageError>)
    requires summaries_of(sums@, ids@),
    ensures checked_references(r, *desired, ids@, history, changes@, app@, label@, empty, number as nat),
{
    reveal(checked_references);
    let refs = references_of(&changes);
    let tables = model_tables(desired);
    let desired_columns = model_columns(desired);
    let history_columns = model_columns(&history);
    match validate_generated_references(&refs, &tables, app, &desired_columns, &history_columns) {
        Err(e) => {
            proof {
                let k = choose|k: int| 0 <= k < refs@.len()
                    && (forall|j: int| 0 <= j < k ==> reference_problem((#[trigger] refs@[j])@, tables@, app@, desired_columns@, history_columns@) is None)
                    && match reference_problem((#[trigger] refs@[k])@, tables@, app@, desired_columns@, history_columns@) {
                        Some(None) => e == ManageError::InvalidForeignKey,
                        Some(Some((t, o))) => e matches ManageError::ForeignKeyNeedsMigration { target, owner } && target@ == t && owner@ == o,
                        None => false,
                    };
                lemma_first_problem(refs@, tables@, app@, desired_columns@, history_columns@, 0, k);
            }
            return Err(e);
        },
        Ok(()) => {
            proof { lemma_first_problem(refs@, tables@, app@, desired_columns@, history_columns@, 0, refs@.len() as int); }
        },
    }
    order_and_build(desired, ids, sums, history, changes, app, label, empty, number)
}

fn order_and_build(
    desired: &ProjectState,
    ids: &Vec<(MigrationId, Vec<MigrationId>)>,
    sums: &Vec<MigrationSummary>,
    history: ProjectState,
    changes: Vec<StateChange>,
    app: &str,
    label: &str,
    empty: bool,
    number: u32,
) -> (r: Result<Option<Migration>, ManageError>)
    requires summaries_of(sums@, ids@),
    ensures ordered_outcome(r, *desired, ids@, history, changes@, app@, label@, empty, number as nat),
{
    reveal(ordered_outcome);
    let deps = generated_dependencies(sums);
    let ops = operations_of(&changes);
    let (ordered, reached) = match order_generated_operations(ops, &history) {
        Ok(x) => x,
        Err(e) => { return Err(e); },
    };
    if !empty {
        match state_diff(&reached, desired) {
            Err(e) => { return Err(ManageError::OrmError(e)); },
            Ok(after) => {
                let own = changes_of_app(&after, app);
                if own.len() > 0 {
                    return Err(ManageError::NotReproduced);
                }
            },
        }
    }
    let id = MigrationId { app: owned(app), name: numbered_migration_name(number, label) };
    let ghost (sv, dv, ov) = (sums@, deps@, ordered@);
    let m = new_migration(&id, &deps, ordered);
    proof {
        assert(summaries_of(sv, ids@));
        assert(m == migration_of(id, dv, ov));
    }
    Ok(Some(m))
}

/// Builds the next migration of installed app `app` (among `apps`) from the
/// compiled history `migrations` and the state `desired` of the installed
/// models: the label must be a valid migration name and the app installed;
/// the history is checked as a graph and for a forward plan, then replayed;
/// the changes towards `desired` that belong to `app` (none when `empty`
/// asks for a migration without changes) give the migration, as
/// `generated` says.
pub fn build_operation_migration(
    apps: &Vec<String>,
    desired: &ProjectState,
    migrations: &Vec<Migration>,
    app: &str,
    label: &str,
    empty: bool,
) -> (r: Result<Option<Migration>, ManageError>)
    ensures
        !migration_name_ok(label@) ==> r == Err::<Option<Migration>, ManageError>(ManageError::InvalidMigrationName),
        migration_name_ok(label@) && !installed(apps@, app@) ==> (r matches Err(ManageError::UnknownApp(a)) && a@ == app@),
        migration_name_ok(label@) && installed(apps@, app@) ==> match migration_graph(migrations@) {
            Err(m) => r matches Err(ManageError::OrmError(e)) && e@ == m,
            Ok(g) => match forward_plan_failure(g) {
                Some(m) => r matches Err(ManageError::OrmError(e)) && e@ == m,
                None => match replayed(g) {
                    Err(m) => r matches Err(ManageError::OrmError(e)) && e@ == m,
                    Ok(h) => if empty {
                        generated(r, *desired, g, h, Seq::empty(), app@, label@, true)
                    } else {
                        match diff_of(h, *desired) {
                            Err(m) => r matches Err(ManageError::OrmError(e)) && e@ == m,
                            Ok(all) => generated(r, *desired, g, h, app_changes(all, app@, all.len() as int), app@, label@, false),
                        }
                    },
                },
            },
        },
{
    match validate_operation_migration_name(label) {
        Err(e) => { return Err(e); },
        Ok(()) => {},
    }
    if !app_installed(apps, app) {
        return Err(ManageError::UnknownApp(owned(app)));
    }
    let graph = match graph_new(migrations) {
        Ok(g) => g,
        Err(e) => { return Err(ManageError::OrmError(e)); },
    };
    match plan_forward_check(&graph) {
        Some(e) => { return Err(ManageError::OrmError(e)); },
        None => {},
    }
    let history = match graph_replay(&graph) {
        Ok(h) => h,
        Err(e) => { return Err(ManageError::OrmError(e)); },
    };
    let changes: Vec<StateChange> = if empty {
        Vec::new()
    } else {
        match state_diff(&history, desired) {
            Err(e) => { return Err(ManageError::OrmError(e)); },
            Ok(all) => changes_of_app(&all, app),
        }
    };
    proof { if empty { assert(changes@ =~= Seq::<StateChange>::empty()); } }
    generate_from_changes(desired, &graph, history, changes, app, label, empty)
}

/// `MigrationGraph::replay_selected` from `ProjectState::default()` over the
/// migrations of `graph` whose ids are in `selected`.
pub uninterp spec fn replayed_selected(graph: MigrationGraph, selected: Seq<MigrationId>) -> Result<ProjectState, Seq<char>>;

/// `MigrationGraph::replay_selected` from the default state, the ids taken
/// as a set; its error as text.
#[verifier::external_body]
fn graph_replay_selected(graph: &MigrationGraph, selected: &Vec<MigrationId>) -> (r: Result<ProjectState, String>)
    ensures
        match replayed_selected(*graph, selected@) {
            Ok(s) => r == Ok::<ProjectState, String>(s),
            Err(m) => r matches Err(e) && e@ == m,
        },
{
    let selected: std::collections::BTreeSet<che_orm::MigrationId> =
        selected.iter().map(|id| che_orm::MigrationId { app: id.app.clone(), name: id.name.clone() }).collect();
    match graph.replay_selected(ProjectState::default(), &selected) {
        Ok(s) => Ok(s),
        Err(e) => Err(e.to_string()),
    }
}

/// The operations of each migration of `graph`, in its order.
pub uninterp spec fn ordered_operations(graph: MigrationGraph) -> Seq<Seq<MigrationOperation>>;

/// `MigrationGraph::ordered`, each migration taken by a copy of its
/// operations: one list for each migration that `ordered` yields.
#[verifier::external_body]
fn graph_operations(graph: &MigrationGraph) -> (r: Vec<Vec<MigrationOperation>>)
    ensures
        r@.len() == ordered_operations(*graph).len(),
        r@.len() == ordered_ids(*graph).len(),
        forall|i: int| 0 <= i < r@.len() ==> (#[trigger] r@[i])@ == ordered_operations(*graph)[i],
{
    graph.ordered().map(|m| m.operations.clone()).collect()
}

/// `SqliteSchemaEditor::plan` of `op` on `state`: its SQL statements and the
/// state after it, or its error as text.
pub uninterp spec fn sqlite_plan(op: MigrationOperation, state: ProjectState) -> Result<(Seq<String>, ProjectState), Seq<char>>;

/// `che_orm::SqliteSchemaEditor::plan`.
#[verifier::external_body]
fn plan_sqlite(op: &MigrationOperation, state: &ProjectState) -> (r: Result<(Vec<String>, ProjectState), String>)
    ensures
        match sqlite_plan(*op, *state) {
            Ok((statements, after)) => r matches Ok((v, t)) && v@ == statements && t == after,
            Err(m) => r matches Err(e) && e@ == m,
        },
{
    match che_orm::SqliteSchemaEditor::plan(op, state) {
        Ok(plan) => Ok((plan.statements, plan.resulting_state)),
        Err(e) => Err(e.to_string()),
    }
}

/// The statements the first `n` operations of `ops` plan to from `state`,
/// each planned against the state the ones before it leave, and the state
/// after them; or the first planning error.
pub open spec fn planned(ops: Seq<MigrationOperation>, state: ProjectState, n: int) -> Result<(Seq<String>, ProjectState), Seq<char>>
    decreases n,
{
    if n <= 0 {
        Ok((Seq::empty(), state))
    } else {
        match planned(ops, state, n - 1) {
            Err(m) => Err(m),
            Ok((statements, before)) => match sqlite_plan(ops[n - 1], before) {
                Err(m) => Err(m),
                Ok((more, after)) => Ok((statements + more, after)),
            },
        }
    }
}

fn plan_operations(ops: &Vec<MigrationOperation>, state: ProjectState) -> (r: Result<Vec<String>, String>)
    ensures
        match planned(ops@, state, ops@.len() as int) {
            Ok((statements, _)) => r matches Ok(v) && v@ == statements,
            Err(m) => r matches Err(e) && e@ == m,
        },
{
    let ghost start = state;
    let mut current = state;
    let mut out: Vec<String> = Vec::new();
    let mut i: usize = 0;
    while i < ops.len()
        invariant
            i <= ops@.len(),
            start == state,
            planned(ops@, start, i as int) == Ok::<(Seq<String>, ProjectState), Seq<char>>((out@, current)),
        decreases ops.len() - i,
    {
        match plan_sqlite(&ops[i], &current) {
            Err(e) => {
                proof {
                    assert(planned(ops@, start, i + 1) == Err::<(Seq<String>, ProjectState), Seq<char>>(e@));
                    lemma_planned_err(ops@, start, i + 1, ops@.len() as int);
                }
                return Err(e);
            },
            Ok((mut statements, after)) => {
                let ghost before = out@;
                out.append(&mut statements);
                current = after;
            },
        }
        i += 1;
    }
    Ok(out)
}

proof fn lemma_planned_err(ops: Seq<MigrationOperation>, state: ProjectState, k: int, n: int)
    requires 0 < k <= n, planned(ops, state, k) is Err,
    ensures planned(ops, state, n) == planned(ops, state, k),
    decreases n - k,
{
    if k < n {
        lemma_planned_err(ops, state, k, n - 1);
    }
}

/// Summaries of the migrations of `ids`, each with its id and dependencies.
pub open spec fn summaries_for(ids: Seq<(MigrationId, Vec<MigrationId>)>) -> Seq<MigrationSummary> {
    choose|sums: Seq<MigrationSummary>| summaries_of(sums, ids)
}

proof fn lemma_same_reach_within(a: Seq<MigrationSummary>, b: Seq<MigrationSummary>, starts: Seq<MigrationId>, k: (Seq<char>, Seq<char>), n: nat)
    requires
        a.len() == b.len(),
        forall|i: int| 0 <= i < a.len() ==> (#[trigger] a[i]).id == b[i].id && a[i].dependencies@ == b[i].dependencies@,
    ensures reach_within(a, starts, k, n) == reach_within(b, starts, k, n),
    decreases n,
{
    if n > 0 {
        lemma_same_reach_within(a, b, starts, k, (n - 1) as nat);
        assert forall|k2: (Seq<char>, Seq<char>)|
            #![trigger reach_within(a, starts, k2, (n - 1) as nat)]
            #![trigger reach_within(b, starts, k2, (n - 1) as nat)]
            reach_within(a, starts, k2, (n - 1) as nat) == reach_within(b, starts, k2, (n - 1) as nat) by {
            lemma_same_reach_within(a, b, starts, k2, (n - 1) as nat);
        }
        if reach_within(a, starts, k, n) && !reach_within(a, starts, k, (n - 1) as nat) {
            let (i, d) = choose|i: int, d: int| 0 <= i < a.len() && 0 <= d < a[i].dependencies@.len()
                && reach_within(a, starts, key(a[i].id), (n - 1) as nat) && key(#[trigger] a[i].dependencies@[d]) == k;
            assert(b[i].dependencies@[d] == a[i].dependencies@[d]);
            assert(reach_within(b, starts, key(b[i].id), (n - 1) as nat));
            assert(key(b[i].dependencies@[d]) == k);
        }
        if reach_within(b, starts, k, n) && !reach_within(b, starts, k, (n - 1) as nat) {
            let (i, d) = choose|i: int, d: int| 0 <= i < b.len() && 0 <= d < b[i].dependencies@.len()
                && reach_within(b, starts, key(b[i].id), (n - 1) as nat) && key(#[trigger] b[i].dependencies@[d]) == k;
            assert(a[i].dependencies@[d] == b[i].dependencies@[d]);
            assert(reach_within(a, starts, key(a[i].id), (n - 1) as nat));
            assert(key(a[i].dependencies@[d]) == k);
        }
    }
}

proof fn lemma_same_reached(a: Seq<MigrationSummary>, b: Seq<MigrationSummary>, starts: Seq<MigrationId>, n: int)
    requires
        a.len() == b.len(),
        n <= a.len(),
        forall|i: int| 0 <= i < a.len() ==> (#[trigger] a[i]).id == b[i].id && a[i].dependencies@ == b[i].dependencies@,
    ensures reached_in_order(a, starts, n) == reached_in_order(b, starts, n),
    decreases n,
{
    if n > 0 {
        lemma_same_reached(a, b, starts, n - 1);
        let k = key(a[n - 1].id);
        assert forall|m: nat|
            #![trigger reach_within(a, starts, k, m)]
            #![trigger reach_within(b, starts, k, m)]
            reach_within(a, starts, k, m) == reach_within(b, starts, k, m) by {
            lemma_same_reach_within(a, b, starts, k, m);
        }
        assert(reachable(a, starts, k) == reachable(b, starts, k));
    }
}

/// What `sqlmigrate <app> <name>` prints for the checked graph `graph`:
/// an unknown migration is refused; else the migrations the target depends
/// on, directly or not, are replayed from the default state, and the
/// target's operations are planned against the result in turn.
pub open spec fn sql_outcome(graph: MigrationGraph, app: Seq<char>, name: Seq<char>, r: Result<String, ManageError>) -> bool {
    let ids = ordered_ids(graph);
    if !(exists|i: int| 0 <= i < ids.len() && key(#[trigger] ids[i].0) == (app, name)) {
        r matches Err(ManageError::UnknownSqlTarget { app: a, name: m }) && a@ == app && m@ == name
    } else {
        let i = choose|i: int| 0 <= i < ids.len() && key(#[trigger] ids[i].0) == (app, name);
        let ops = ordered_operations(graph)[i];
        match replayed_selected(graph, reached_in_order(summaries_for(ids), ids[i].1@, ids.len() as int)) {
            Err(m) => r matches Err(ManageError::OrmError(e)) && e@ == m,
            Ok(state) => match planned(ops, state, ops.len() as int) {
                Err(m) => r matches Err(ManageError::OrmError(e)) && e@ == m,
                Ok((statements, _)) => r matches Ok(t) && t@ == sql_text_of(ids[i].0, ops.len() > 0, statements),
            },
        }
    }
}

/// The SQL that `sqlmigrate <app> <name>` prints for the migration `app`:
/// `name` among `migrations`: planned for SQLite against the state that
/// the migrations it depends on leave. A graph `MigrationGraph::new`
/// refuses, an unknown migration, and a failed replay or plan are errors.
pub fn operation_migration_sql(migrations: &Vec<Migration>, app: &str, name: &str) -> (r: Result<String, ManageError>)
    ensures
        match migration_graph(migrations@) {
            Err(m) => r matches Err(ManageError::OrmError(e)) && e@ == "invalid operation migration graph: "@ + m,
            Ok(graph) => sql_outcome(graph, app@, name@, r),
        },
{
    let graph = match graph_new(migrations) {
        Ok(g) => g,
        Err(e) => {
            let mut message = owned("invalid operation migration graph: ");
            push_str(&mut message, e.as_str());
            return Err(ManageError::OrmError(message));
        },
    };
    let ids = graph_ids(&graph);
    let (_, ordered) = ids_and_summaries(&ids);
    proof {
        assert(unique_keys(ordered@)) by {
            assert forall|i: int, j: int| 0 <= i < ordered@.len() && 0 <= j < ordered@.len()
                && #[trigger] key(ordered@[i].id) == #[trigger] key(ordered@[j].id) implies i == j by {
                assert(key(ids@[i].0) == key(ids@[j].0));
            }
        }
        assert(closed_dependencies(ordered@)) by {
            assert forall|i: int, d: int| 0 <= i < ordered@.len() && 0 <= d < ordered@[i].dependencies@.len()
                implies has_node(ordered@, key(#[trigger] ordered@[i].dependencies@[d])) by {
                assert(ordered@[i].dependencies@[d] == ids@[i].1@[d]);
                let j = choose|j: int| 0 <= j < ids@.len() && key(ids@[j].0) == key(ids@[i].1@[d]);
                assert(key(ordered@[j].id) == key(ids@[j].0));
            }
        }
        assert(summaries_of(ordered@, ids@));
        assert(summaries_of(summaries_for(ids@), ids@));
        lemma_same_reached(ordered@, summaries_for(ids@), ids@[0].1@, 0);
    }
    let (index, required) = match sqlmigrate_target(&ordered, app, name) {
        Ok(found) => found,
        Err(e) => {
            proof {
                if exists|i: int| 0 <= i < ids@.len() && key(#[trigger] ids@[i].0) == (app@, name@) {
                    let i = choose|i: int| 0 <= i < ids@.len() && key(#[trigger] ids@[i].0) == (app@, name@);
                    assert(key(ordered@[i].id) == (app@, name@));
                }
            }
            return Err(e);
        },
    };
    proof {
        assert(key(ids@[index as int].0) == (app@, name@));
        let i = choose|i: int| 0 <= i < ids@.len() && key(#[trigger] ids@[i].0) == (app@, name@);
        assert(i == index);
        lemma_same_reached(ordered@, summaries_for(ids@), ordered@[index as int].dependencies@, ids@.len() as int);
    }
    let state = match graph_replay_selected(&graph, &required) {
        Ok(s) => s,
        Err(e) => { return Err(ManageError::OrmError(e)); },
    };
    let operations = graph_operations(&graph);
    let ops = &operations[index];
    let statements = match plan_operations(ops, state) {
        Ok(v) => v,
        Err(e) => { return Err(ManageError::OrmError(e)); },
    };
    Ok(render_sql_of(&ids[index].0, ops.len() > 0, &statements))
}

/// `id` is one of the migrations of `branch`.
pub open spec fn in_branch(branch: Seq<MigrationId>, id: MigrationId) -> bool {
    exists|j: int| 0 <= j < branch.len() && key(#[trigger] branch[j]) == key(id)
}

/// The first `n` operations of `ops` applied to `state` in turn, each
/// followed by a check of the state it leaves; or the first error.
pub open spec fn forwarded_all(ops: Seq<MigrationOperation>, state: ProjectState, n: int) -> Result<ProjectState, Seq<char>>
    decreases n,
{
    if n <= 0 {
        Ok(state)
    } else {
        match forwarded_all(ops, state, n - 1) {
            Err(m) => Err(m),
            Ok(before) => match forwards_failure(ops[n - 1], before) {
                Some(m) => Err(m),
                None => match validation_failure(forwarded(ops[n - 1], before)) {
                    Some(m) => Err(m),
                    None => Ok(forwarded(ops[n - 1], before)),
                },
            },
        }
    }
}

/// The migrations among the first `n` of the graph (with `ids` and
/// `operations` in its order) that are in `branch`, replayed over `state`
/// in the graph's order; or the first error.
pub open spec fn replayed_branch(
    operations: Seq<Seq<MigrationOperation>>,
    ids: Seq<(MigrationId, Vec<MigrationId>)>,
    branch: Seq<MigrationId>,
    state: ProjectState,
    n: int,
) -> Result<ProjectState, Seq<char>>
    decreases n,
{
    if n <= 0 {
        Ok(state)
    } else {
        match replayed_branch(operations, ids, branch, state, n - 1) {
            Err(m) => Err(m),
            Ok(before) => if in_branch(branch, ids[n - 1].0) {
                forwarded_all(operations[n - 1], before, operations[n - 1].len() as int)
            } else {
                Ok(before)
            },
        }
    }
}

proof fn lemma_forwarded_err(ops: Seq<MigrationOperation>, state: ProjectState, k: int, n: int)
    requires 0 < k <= n, forwarded_all(ops, state, k) is Err,
    ensures forwarded_all(ops, state, n) == forwarded_all(ops, state, k),
    decreases n - k,
{
    if k < n {
        lemma_forwarded_err(ops, state, k, n - 1);
    }
}

proof fn lemma_replayed_err(
    operations: Seq<Seq<MigrationOperation>>,
    ids: Seq<(MigrationId, Vec<MigrationId>)>,
    branch: Seq<MigrationId>,
    state: ProjectState,
    k: int,
    n: int,
)
    requires 0 < k <= n, replayed_branch(operations, ids, branch, state, k) is Err,
    ensures replayed_branch(operations, ids, branch, state, n) == replayed_branch(operations, ids, branch, state, k),
    decreases n - k,
{
    if k < n {
        lemma_replayed_err(operations, ids, branch, state, k, n - 1);
    }
}

fn forward_all(ops: &Vec<MigrationOperation>, state: ProjectState) -> (r: Result<ProjectState, String>)
    ensures
        match forwarded_all(ops@, state, ops@.len() as int) {
            Ok(s) => r == Ok::<ProjectState, String>(s),
            Err(m) => r matches Err(e) && e@ == m,
        },
{
    let ghost start = state;
    let mut current = state;
    let mut i: usize = 0;
    while i < ops.len()
        invariant
            i <= ops@.len(),
            start == state,
            forwarded_all(ops@, start, i as int) == Ok::<ProjectState, Seq<char>>(current),
        decreases ops.len() - i,
    {
        let ghost before = current;
        match state_forwards(&ops[i], &mut current) {
            Some(e) => {
                proof { lemma_forwarded_err(ops@, start, i + 1, ops@.len() as int); }
                return Err(e);
            },
            None => {},
        }
        match validate_state(&current) {
            Some(e) => {
                proof { lemma_forwarded_err(ops@, start, i + 1, ops@.len() as int); }
                return Err(e);
            },
            None => {},
        }
        i += 1;
    }
    Ok(current)
}

fn in_branch_exec(branch: &Vec<MigrationId>, id: &MigrationId) -> (r: bool)
    ensures r == in_branch(branch@, *id),
{
    let mut j: usize = 0;
    while j < branch.len()
        invariant
            j <= branch@.len(),
            forall|k: int| 0 <= k < j ==> key(#[trigger] branch@[k]) != key(*id),
        decreases branch.len() - j,
    {
        if str_eq(branch[j].app.as_str(), id.app.as_str()) && str_eq(branch[j].name.as_str(), id.name.as_str()) {
            return true;
        }
        j += 1;
    }
    false
}

fn replay_branch(
    operations: &Vec<Vec<MigrationOperation>>,
    ids: &Vec<(MigrationId, Vec<MigrationId>)>,
    branch: &Vec<MigrationId>,
    state: ProjectState,
) -> (r: Result<ProjectState, String>)
    requires operations@.len() == ids@.len(),
    ensures
        match replayed_branch(operations@.map_values(|o: Vec<MigrationOperation>| o@), ids@, branch@, state, ids@.len() as int) {
            Ok(s) => r == Ok::<ProjectState, String>(s),
            Err(m) => r matches Err(e) && e@ == m,
        },
{
    let ghost ops = operations@.map_values(|o: Vec<MigrationOperation>| o@);
    let ghost start = state;
    let mut current = state;
    let mut i: usize = 0;
    while i < ids.len()
        invariant
            i <= ids@.len(),
            operations@.len() == ids@.len(),
            ops == operations@.map_values(|o: Vec<MigrationOperation>| o@),
            start == state,
            replayed_branch(ops, ids@, branch@, start, i as int) == Ok::<ProjectState, Seq<char>>(current),
        decreases ids.len() - i,
    {
        if in_branch_exec(branch, &ids[i].0) {
            match forward_all(&operations[i], current) {
                Ok(s) => { current = s; },
                Err(e) => {
                    proof { lemma_replayed_err(ops, ids@, branch@, start, i + 1, ids@.len() as int); }
                    return Err(e);
                },
            }
        }
        i += 1;
    }
    Ok(current)
}

/// The two replays a merge of `branches` is judged by, over the graph of
/// `migrations`: from the state the common history leaves, the left
/// branch then the right one, and the right branch then the left one, each
/// migration's operations applied in the graph's order and the state
/// checked after each. A graph `MigrationGraph::new` refuses, and a failed
/// replay of the common history, are errors.
pub fn merge_replays(migrations: &Vec<Migration>, branches: &MergeBranches)
    -> (r: Result<(Result<ProjectState, String>, Result<ProjectState, String>), ManageError>)
    ensures
        match migration_graph(migrations@) {
            Err(m) => r matches Err(ManageError::OrmError(e)) && e@ == "invalid operation migration graph: "@ + m,
            Ok(graph) => match replayed_selected(graph, branches.common@) {
                Err(m) => r matches Err(ManageError::OrmError(e)) && e@ == m,
                Ok(base) => r matches Ok((lr, rl)) && {
                    let ops = ordered_operations(graph);
                    let ids = ordered_ids(graph);
                    let n = ids.len() as int;
                    let replay = |s: ProjectState, b: Seq<MigrationId>| replayed_branch(ops, ids, b, s, n);
                    &&& match replay(base, branches.left@) {
                        Err(m) => lr matches Err(e) && e@ == m,
                        Ok(s) => match replay(s, branches.right@) {
                            Err(m) => lr matches Err(e) && e@ == m,
                            Ok(t) => lr == Ok::<ProjectState, String>(t),
                        },
                    }
                    &&& match replay(base, branches.right@) {
                        Err(m) => rl matches Err(e) && e@ == m,
                        Ok(s) => match replay(s, branches.left@) {
                            Err(m) => rl matches Err(e) && e@ == m,
                            Ok(t) => rl == Ok::<ProjectState, String>(t),
                        },
                    }
                },
            },
        },
{
    let graph = match graph_new(migrations) {
        Ok(g) => g,
        Err(e) => {
            let mut message = owned("invalid operation migration graph: ");
            push_str(&mut message, e.as_str());
            return Err(ManageError::OrmError(message));
        },
    };
    let base = match graph_replay_selected(&graph, &branches.common) {
        Ok(s) => s,
        Err(e) => { return Err(ManageError::OrmError(e)); },
    };
    let ids = graph_ids(&graph);
    let operations = graph_operations(&graph);
    proof {
        assert(operations@.map_values(|o: Vec<MigrationOperation>| o@) =~= ordered_operations(graph));
    }
    let other = copy_state(&base);
    let left_then_right = match replay_branch(&operations, &ids, &branches.left, base) {
        Ok(s) => replay_branch(&operations, &ids, &branches.right, s),
        Err(e) => Err(e),
    };
    let right_then_left = match replay_branch(&operations, &ids, &branches.right, other) {
        Ok(s) => replay_branch(&operations, &ids, &branches.left, s),
        Err(e) => Err(e),
    };
    Ok((left_then_right, right_then_left))
}

/// Checks that `migrations` form a graph `MigrationGraph::new` accepts and
/// that it replays from the default state; either error, as text.
pub fn check_batch_replays(migrations: &Vec<Migration>) -> (r: Result<(), ManageError>)
    ensures
        match migration_graph(migrations@) {
            Err(m) => r matches Err(ManageError::OrmError(e)) && e@ == m,
            Ok(graph) => match replayed(graph) {
                Err(m) => r matches Err(ManageError::OrmError(e)) && e@ == m,
                Ok(_) => r is Ok,
            },
        },
{
    let graph = match graph_new(migrations) {
        Ok(g) => g,
        Err(e) => { return Err(ManageError::OrmError(e)); },
    };
    match graph_replay(&graph) {
        Ok(_) => Ok(()),
        Err(e) => Err(ManageError::OrmError(e)),
    }
}

} // verus!
