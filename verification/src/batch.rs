use vstd::prelude::*;

use crate::management::{migration_name_ok, validate_operation_migration_name, ManageError, MigrationId};
use crate::registry::{insert_unique, set_of, strictly_sorted, views};
use crate::signals::find_char;
use crate::text::{chars_of, owned, push_str, seq_eq, string_of, string_of_range};

verus! {

/// A column of a model, as the initial migrations read it: its name and the
/// `table(column)` its foreign key references, if any.
#[derive(Debug, Clone)]
pub struct ColumnPlan {
    pub name: String,
    pub reference: Option<String>,
}

/// A model of an installed app, as the initial migrations read it.
#[derive(Debug, Clone)]
pub struct ModelPlan {
    pub app: String,
    pub table: String,
    pub columns: Vec<ColumnPlan>,
}

/// A migration of the initial batch: its id and dependencies, the models it
/// creates (positions in the model list, references to other apps left
/// out), and the columns whose reference it restores (model and column
/// positions).
#[derive(Debug, Clone)]
pub struct PlannedMigration {
    pub id: MigrationId,
    pub dependencies: Vec<MigrationId>,
    pub models: Vec<usize>,
    pub relationships: Vec<(usize, usize)>,
}

/// The table a foreign key `table(column)` references: the text before the
/// first `(`.
pub open spec fn target_table(reference: Seq<char>) -> Option<Seq<char>> {
    let k = find_char(reference, '(', 0);
    if k < 0 { None } else { Some(reference.take(k)) }
}

/// The app owning table `t` among the first `n` models: the last model
/// with that table decides.
pub open spec fn owner_within(ms: Seq<ModelPlan>, t: Seq<char>, n: int) -> Option<Seq<char>>
    decreases n,
{
    if n <= 0 {
        None
    } else if ms[n - 1].table@ == t {
        Some(ms[n - 1].app@)
    } else {
        owner_within(ms, t, n - 1)
    }
}

/// The other app that column `c` of model `m` references, if it references
/// a table of another app.
pub open spec fn cross_app(ms: Seq<ModelPlan>, m: int, c: int) -> Option<Seq<char>> {
    match ms[m].columns@[c].reference {
        None => None,
        Some(r) => match target_table(r@) {
            None => None,
            Some(t) => match owner_within(ms, t, ms.len() as int) {
                None => None,
                Some(o) => if o != ms[m].app@ { Some(o) } else { None },
            },
        },
    }
}

/// The apps of the models.
pub open spec fn app_set(ms: Seq<ModelPlan>) -> Set<Seq<char>> {
    Set::new(|a: Seq<char>| exists|m: int| 0 <= m < ms.len() && (#[trigger] ms[m]).app@ == a)
}

/// The positions of the models of app `a` among the first `n`.
pub open spec fn models_of(ms: Seq<ModelPlan>, a: Seq<char>, n: int) -> Seq<usize>
    decreases n,
{
    if n <= 0 {
        Seq::empty()
    } else if ms[n - 1].app@ == a {
        models_of(ms, a, n - 1).push((n - 1) as usize)
    } else {
        models_of(ms, a, n - 1)
    }
}

/// The columns among the first `k` of model `m` that reference another app.
pub open spec fn cross_columns(ms: Seq<ModelPlan>, m: int, k: int) -> Seq<(usize, usize)>
    decreases k,
{
    if k <= 0 {
        Seq::empty()
    } else if cross_app(ms, m, k - 1) is Some {
        cross_columns(ms, m, k - 1).push((m as usize, (k - 1) as usize))
    } else {
        cross_columns(ms, m, k - 1)
    }
}

/// The columns of the models of app `a` among the first `n` that reference
/// another app, in order.
pub open spec fn relationships_of(ms: Seq<ModelPlan>, a: Seq<char>, n: int) -> Seq<(usize, usize)>
    decreases n,
{
    if n <= 0 {
        Seq::empty()
    } else if ms[n - 1].app@ == a {
        relationships_of(ms, a, n - 1) + cross_columns(ms, n - 1, ms[n - 1].columns@.len() as int)
    } else {
        relationships_of(ms, a, n - 1)
    }
}

/// The apps whose initial migration the relationships of app `a` need: `a`
/// and the apps it references.
pub open spec fn needed_apps(ms: Seq<ModelPlan>, a: Seq<char>) -> Set<Seq<char>> {
    Set::new(|o: Seq<char>| o == a || exists|m: int, c: int| 0 <= m < ms.len() && ms[m].app@ == a
        && 0 <= c < ms[m].columns@.len() && cross_app(ms, m, c) == Some(o))
}

/// The name of the initial migration of each app.
pub open spec fn initial_name(label: Seq<char>) -> Seq<char> {
    "0001_"@ + label
}

/// The apps of `order` from the first `n` that have relationships to
/// restore, in order.
pub open spec fn relationship_apps(ms: Seq<ModelPlan>, order: Seq<Seq<char>>, n: int) -> Seq<Seq<char>>
    decreases n,
{
    if n <= 0 {
        Seq::empty()
    } else if relationships_of(ms, order[n - 1], ms.len() as int).len() > 0 {
        relationship_apps(ms, order, n - 1).push(order[n - 1])
    } else {
        relationship_apps(ms, order, n - 1)
    }
}

/// `p` is the initial migration of app `a`.
pub open spec fn is_initial(p: PlannedMigration, ms: Seq<ModelPlan>, label: Seq<char>, a: Seq<char>) -> bool {
    &&& p.id.app@ == a
    &&& p.id.name@ == initial_name(label)
    &&& p.dependencies@.len() == 0
    &&& p.models@ == models_of(ms, a, ms.len() as int)
    &&& p.relationships@.len() == 0
}

/// `p` is the migration restoring the relationships of app `a`: it depends
/// on the initial migrations of `a` and of the apps `a` references, ordered
/// by app.
pub open spec fn is_relationship(p: PlannedMigration, ms: Seq<ModelPlan>, label: Seq<char>, a: Seq<char>) -> bool {
    let deps = Seq::new(p.dependencies@.len(), |i: int| p.dependencies@[i].app@);
    &&& p.id.app@ == a
    &&& p.id.name@ == "0002_relationships"@
    &&& strictly_sorted(deps)
    &&& set_of(deps) == needed_apps(ms, a)
    &&& forall|i: int| 0 <= i < p.dependencies@.len() ==> (#[trigger] p.dependencies@[i]).name@ == initial_name(label)
    &&& p.models@.len() == 0
    &&& p.relationships@ == relationships_of(ms, a, ms.len() as int)
}

/// `ps` is the initial batch for `order`, the apps in order: the initial
/// migration of each app, then the relationship migration of each app that
/// references another.
pub open spec fn is_batch(ps: Seq<PlannedMigration>, ms: Seq<ModelPlan>, label: Seq<char>, order: Seq<Seq<char>>) -> bool {
    let rel = relationship_apps(ms, order, order.len() as int);
    &&& ps.len() == order.len() + rel.len()
    &&& forall|k: int| 0 <= k < order.len() ==> is_initial(#[trigger] ps[k], ms, label, order[k])
    &&& forall|k: int| 0 <= k < rel.len() ==> is_relationship(#[trigger] ps[order.len() + k], ms, label, rel[k])
}

fn target_table_exec(reference: &str) -> (r: Option<Vec<char>>)
    ensures
        match target_table(reference@) {
            Some(t) => r matches Some(v) && v@ == t,
            None => r is None,
        },
{
    let c = chars_of(reference);
    let mut k: usize = 0;
    while k < c.len() && c[k] != '('
        invariant
            k <= c@.len(),
            c@ == reference@,
            find_char(c@, '(', 0) == find_char(c@, '(', k as int),
        decreases c.len() - k,
    {
        k += 1;
    }
    if k == c.len() {
        None
    } else {
        let mut t: Vec<char> = Vec::new();
        let mut i: usize = 0;
        while i < k
            invariant
                i <= k < c@.len(),
                t@ == c@.take(i as int),
            decreases k - i,
        {
            t.push(c[i]);
            proof { assert(c@.take(i + 1) == c@.take(i as int).push(c@[i as int])); }
            i += 1;
        }
        Some(t)
    }
}

fn owner_exec(ms: &Vec<ModelPlan>, t: &Vec<char>) -> (r: Option<Vec<char>>)
    ensures
        match owner_within(ms@, t@, ms@.len() as int) {
            Some(o) => r matches Some(v) && v@ == o,
            None => r is None,
        },
{
    let mut n: usize = ms.len();
    while n > 0
        invariant
            n <= ms@.len(),
            owner_within(ms@, t@, ms@.len() as int) == owner_within(ms@, t@, n as int),
        decreases n,
    {
        let table = chars_of(ms[n - 1].table.as_str());
        if seq_eq(&table, t) {
            return Some(chars_of(ms[n - 1].app.as_str()));
        }
        n -= 1;
    }
    None
}

fn cross_app_exec(ms: &Vec<ModelPlan>, m: usize, c: usize) -> (r: Option<Vec<char>>)
    requires m < ms@.len(), c < ms@[m as int].columns@.len(),
    ensures
        match cross_app(ms@, m as int, c as int) {
            Some(o) => r matches Some(v) && v@ == o,
            None => r is None,
        },
{
    match &ms[m].columns[c].reference {
        None => None,
        Some(reference) => match target_table_exec(reference.as_str()) {
            None => None,
            Some(t) => match owner_exec(ms, &t) {
                None => None,
                Some(o) => {
                    let app = chars_of(ms[m].app.as_str());
                    if seq_eq(&o, &app) { None } else { Some(o) }
                },
            },
        },
    }
}

/// The apps among the first `n` models.
pub open spec fn apps_within(ms: Seq<ModelPlan>, n: int) -> Set<Seq<char>> {
    Set::new(|a: Seq<char>| exists|m: int| 0 <= m < n && (#[trigger] ms[m]).app@ == a)
}

fn app_order(ms: &Vec<ModelPlan>) -> (r: Vec<Vec<char>>)
    ensures
        strictly_sorted(views(r@)),
        set_of(views(r@)) == app_set(ms@),
{
    let mut order: Vec<Vec<char>> = Vec::new();
    let mut i: usize = 0;
    proof { assert(set_of(views(order@)) =~= apps_within(ms@, 0)); }
    while i < ms.len()
        invariant
            i <= ms@.len(),
            strictly_sorted(views(order@)),
            set_of(views(order@)) == apps_within(ms@, i as int),
        decreases ms.len() - i,
    {
        let a = chars_of(ms[i].app.as_str());
        insert_unique(&mut order, a);
        proof {
            assert(apps_within(ms@, i + 1) =~= apps_within(ms@, i as int).insert(ms@[i as int].app@));
        }
        i += 1;
    }
    proof { assert(apps_within(ms@, ms@.len() as int) =~= app_set(ms@)); }
    order
}

fn models_exec(ms: &Vec<ModelPlan>, a: &Vec<char>) -> (r: Vec<usize>)
    ensures r@ == models_of(ms@, a@, ms@.len() as int),
{
    let mut r: Vec<usize> = Vec::new();
    let mut m: usize = 0;
    while m < ms.len()
        invariant
            m <= ms@.len(),
            r@ == models_of(ms@, a@, m as int),
        decreases ms.len() - m,
    {
        let app = chars_of(ms[m].app.as_str());
        if seq_eq(&app, a) {
            r.push(m);
        }
        m += 1;
    }
    r
}

/// The apps needed by the relationships of app `a` met before column `c` of
/// model `m`.
pub open spec fn needed_before(ms: Seq<ModelPlan>, a: Seq<char>, m: int, c: int) -> Set<Seq<char>> {
    Set::new(|o: Seq<char>| o == a || exists|x: int, y: int| 0 <= x < ms.len() && ms[x].app@ == a
        && 0 <= y < ms[x].columns@.len() && (x < m || (x == m && y < c)) && #[trigger] cross_app(ms, x, y) == Some(o))
}

fn relationships_exec(ms: &Vec<ModelPlan>, a: &Vec<char>) -> (r: (Vec<(usize, usize)>, Vec<Vec<char>>))
    ensures
        r.0@ == relationships_of(ms@, a@, ms@.len() as int),
        strictly_sorted(views(r.1@)),
        set_of(views(r.1@)) == needed_apps(ms@, a@),
{
    let mut rels: Vec<(usize, usize)> = Vec::new();
    let mut deps: Vec<Vec<char>> = Vec::new();
    insert_unique(&mut deps, a.clone());
    proof {
        assert(set_of(views(deps@)) =~= needed_before(ms@, a@, 0, 0)) by {
            assert(set_of(Seq::<Seq<char>>::empty()) =~= Set::<Seq<char>>::empty());
        }
    }
    let mut m: usize = 0;
    while m < ms.len()
        invariant
            m <= ms@.len(),
            rels@ == relationships_of(ms@, a@, m as int),
            strictly_sorted(views(deps@)),
            set_of(views(deps@)) == needed_before(ms@, a@, m as int, 0),
        decreases ms.len() - m,
    {
        let app = chars_of(ms[m].app.as_str());
        if seq_eq(&app, a) {
            let ncols = ms[m].columns.len();
            let ghost base = rels@;
            let mut c: usize = 0;
            proof { assert(needed_before(ms@, a@, m as int, 0) =~= needed_before(ms@, a@, m as int, 0)); }
            while c < ncols
                invariant
                    m < ms@.len(),
                    ms@[m as int].app@ == a@,
                    ncols == ms@[m as int].columns@.len(),
                    c <= ncols,
                    base == relationships_of(ms@, a@, m as int),
                    rels@ == base + cross_columns(ms@, m as int, c as int),
                    strictly_sorted(views(deps@)),
                    set_of(views(deps@)) == needed_before(ms@, a@, m as int, c as int),
                decreases ncols - c,
            {
                match cross_app_exec(ms, m, c) {
                    None => {
                        proof {
                            assert(needed_before(ms@, a@, m as int, c + 1) =~= needed_before(ms@, a@, m as int, c as int));
                        }
                    },
                    Some(o) => {
                        rels.push((m, c));
                        let ghost ov = o@;
                        insert_unique(&mut deps, o);
                        proof {
                            assert(base + cross_columns(ms@, m as int, c + 1) == (base + cross_columns(ms@, m as int, c as int)).push((m, c)));
                            assert(needed_before(ms@, a@, m as int, c + 1) =~= needed_before(ms@, a@, m as int, c as int).insert(ov));
                        }
                    },
                }
                c += 1;
            }
            proof {
                assert(needed_before(ms@, a@, m + 1, 0) =~= needed_before(ms@, a@, m as int, ncols as int));
            }
        } else {
            proof {
                assert(needed_before(ms@, a@, m + 1, 0) =~= needed_before(ms@, a@, m as int, 0));
            }
        }
        m += 1;
    }
    proof { assert(needed_before(ms@, a@, ms@.len() as int, 0) =~= needed_apps(ms@, a@)); }
    (rels, deps)
}

fn initial_id(app: &Vec<char>, label: &str) -> (r: MigrationId)
    ensures r.app@ == app@, r.name@ == initial_name(label@),
{
    let mut name = owned("0001_");
    push_str(&mut name, label);
    MigrationId { app: string_of(app), name }
}

/// Builds the initial migrations of every installed app from their models,
/// for an empty history: one migration per app, in order of app name,
/// creating its models; a foreign key to a table of another app is left out
/// of it and restored by a second migration of the app, which depends on
/// the initial migrations of both apps, so that apps referencing each other
/// never form a dependency cycle.
pub fn build_initial_cycle_batch(models: &Vec<ModelPlan>, label: &str) -> (r: Result<Vec<PlannedMigration>, ManageError>)
    ensures
        !migration_name_ok(label@) ==> r == Err::<Vec<PlannedMigration>, ManageError>(ManageError::InvalidMigrationName),
        migration_name_ok(label@) ==> (r matches Ok(ps) && exists|order: Seq<Seq<char>>|
            strictly_sorted(order) && set_of(order) == app_set(models@) && is_batch(ps@, models@, label@, order)),
{
    match validate_operation_migration_name(label) {
        Err(e) => { return Err(e); },
        Ok(()) => {},
    }
    let order = app_order(models);
    let ghost ov = views(order@);
    let mut ps: Vec<PlannedMigration> = Vec::new();
    let mut k: usize = 0;
    while k < order.len()
        invariant
            k <= order@.len(),
            ov == views(order@),
            ps@.len() == k,
            forall|j: int| 0 <= j < k ==> is_initial(#[trigger] ps@[j], models@, label@, ov[j]),
        decreases order.len() - k,
    {
        let id = initial_id(&order[k], label);
        let ms = models_exec(models, &order[k]);
        ps.push(PlannedMigration { id, dependencies: Vec::new(), models: ms, relationships: Vec::new() });
        k += 1;
    }
    let mut k: usize = 0;
    while k < order.len()
        invariant
            k <= order@.len(),
            ov == views(order@),
            ps@.len() == ov.len() + relationship_apps(models@, ov, k as int).len(),
            forall|j: int| 0 <= j < ov.len() ==> is_initial(#[trigger] ps@[j], models@, label@, ov[j]),
            forall|j: int| 0 <= j < relationship_apps(models@, ov, k as int).len() ==>
                is_relationship(#[trigger] ps@[ov.len() + j], models@, label@, relationship_apps(models@, ov, k as int)[j]),
        decreases order.len() - k,
    {
        let (rels, deps) = relationships_exec(models, &order[k]);
        if rels.len() > 0 {
            let mut dependencies: Vec<MigrationId> = Vec::new();
            let mut d: usize = 0;
            while d < deps.len()
                invariant
                    d <= deps@.len(),
                    dependencies@.len() == d,
                    forall|i: int| 0 <= i < d ==> (#[trigger] dependencies@[i]).app@ == deps@[i]@
                        && dependencies@[i].name@ == initial_name(label@),
                decreases deps.len() - d,
            {
                dependencies.push(initial_id(&deps[d], label));
                d += 1;
            }
            let name = owned("0002_relationships");
            let id = MigrationId { app: string_of(&order[k]), name };
            let ghost before = ps@;
            ps.push(PlannedMigration { id, dependencies, models: Vec::new(), relationships: rels });
            proof {
                let p = ps@[ps@.len() - 1];
                let dv = Seq::new(p.dependencies@.len(), |i: int| p.dependencies@[i].app@);
                assert(dv =~= views(deps@));
                assert(relationship_apps(models@, ov, k + 1) == relationship_apps(models@, ov, k as int).push(ov[k as int]));
                assert forall|j: int| 0 <= j < ov.len() implies is_initial(#[trigger] ps@[j], models@, label@, ov[j]) by {
                    assert(ps@[j] == before[j]);
                }
                assert forall|j: int| 0 <= j < relationship_apps(models@, ov, k + 1).len() implies
                    is_relationship(#[trigger] ps@[ov.len() + j], models@, label@, relationship_apps(models@, ov, k + 1)[j]) by {
                    if j < relationship_apps(models@, ov, k as int).len() {
                        assert(ps@[ov.len() + j] == before[ov.len() + j]);
                    }
                }
            }
        }
        k += 1;
    }
    proof {
        assert(is_batch(ps@, models@, label@, ov));
    }
    Ok(ps)
}

/// The table and column a foreign key `table(column)` names.
pub open spec fn reference_parts(r: Seq<char>) -> Option<(Seq<char>, Seq<char>)> {
    let k = find_char(r, '(', 0);
    if k < 0 {
        None
    } else {
        let rest = r.skip(k + 1);
        if rest.len() > 0 && rest.last() == ')' { Some((r.take(k), rest.drop_last())) } else { None }
    }
}

/// The app owning table `t` among the first `n` (table, app) pairs; the
/// last pair for a table decides.
pub open spec fn table_owner(pairs: Seq<(String, String)>, t: Seq<char>, n: int) -> Option<Seq<char>>
    decreases n,
{
    if n <= 0 {
        None
    } else if pairs[n - 1].0@ == t {
        Some(pairs[n - 1].1@)
    } else {
        table_owner(pairs, t, n - 1)
    }
}

/// `columns` (app, table, column) holds column `f` of table `t` of app `o`.
pub open spec fn has_column(columns: Seq<(String, String, String)>, o: Seq<char>, t: Seq<char>, f: Seq<char>) -> bool {
    exists|i: int| 0 <= i < columns.len() && (#[trigger] columns[i]).0@ == o && columns[i].1@ == t && columns[i].2@ == f
}

/// Whether the foreign key `r` of a generated change for `app` can be
/// generated: the referenced table of an app must have the column, in the
/// desired models when it is `app`'s own, else in the migration history.
/// `None` when it can; else the refusal (its texts as the refusal shows
/// them).
pub open spec fn reference_problem(
    r: Seq<char>,
    table_apps: Seq<(String, String)>,
    app: Seq<char>,
    desired: Seq<(String, String, String)>,
    history: Seq<(String, String, String)>,
) -> Option<Option<(Seq<char>, Seq<char>)>> {
    match reference_parts(r) {
        None => Some(None),
        Some((t, f)) => match table_owner(table_apps, t, table_apps.len() as int) {
            None => None,
            Some(o) => if has_column(if o == app { desired } else { history }, o, t, f) { None } else { Some(Some((r, o))) },
        },
    }
}

fn table_owner_exec(pairs: &Vec<(String, String)>, t: &str) -> (r: Option<String>)
    ensures
        match table_owner(pairs@, t@, pairs@.len() as int) {
            Some(o) => r matches Some(v) && v@ == o,
            None => r is None,
        },
{
    let mut n: usize = pairs.len();
    while n > 0
        invariant
            n <= pairs@.len(),
            table_owner(pairs@, t@, pairs@.len() as int) == table_owner(pairs@, t@, n as int),
        decreases n,
    {
        if crate::text::str_eq(pairs[n - 1].0.as_str(), t) {
            return Some(pairs[n - 1].1.clone());
        }
        n -= 1;
    }
    None
}

fn has_column_exec(columns: &Vec<(String, String, String)>, o: &str, t: &str, f: &str) -> (r: bool)
    ensures r == has_column(columns@, o@, t@, f@),
{
    let mut i: usize = 0;
    while i < columns.len()
        invariant
            i <= columns@.len(),
            forall|j: int| 0 <= j < i ==> !((#[trigger] columns@[j]).0@ == o@ && columns@[j].1@ == t@ && columns@[j].2@ == f@),
        decreases columns.len() - i,
    {
        if crate::text::str_eq(columns[i].0.as_str(), o) && crate::text::str_eq(columns[i].1.as_str(), t)
            && crate::text::str_eq(columns[i].2.as_str(), f) {
            return true;
        }
        i += 1;
    }
    false
}

fn reference_parts_exec(r: &str) -> (p: Option<(String, String)>)
    ensures
        match reference_parts(r@) {
            Some((t, f)) => p matches Some((a, b)) && a@ == t && b@ == f,
            None => p is None,
        },
{
    let c = chars_of(r);
    let mut k: usize = 0;
    while k < c.len() && c[k] != '('
        invariant
            k <= c@.len(),
            c@ == r@,
            find_char(c@, '(', 0) == find_char(c@, '(', k as int),
        decreases c.len() - k,
    {
        k += 1;
    }
    if k == c.len() {
        return None;
    }
    proof { assert(c@.skip(k + 1) == c@.subrange(k + 1, c@.len() as int)); }
    if k + 1 < c.len() && c[c.len() - 1] == ')' {
        let t = string_of_range(&c, 0, k);
        let f = string_of_range(&c, k + 1, c.len() - 1);
        proof {
            assert(c@.subrange(0, k as int) == c@.take(k as int));
            assert(c@.skip(k + 1).drop_last() == c@.subrange(k + 1, c@.len() - 1));
        }
        Some((t, f))
    } else {
        None
    }
}

/// Checks the foreign keys `references` of the changes generated for `app`
/// (in order), given the owner of each table (`table_apps`, (table, app)),
/// and the columns (app, table, column) of the desired models and of the
/// migration history: the first one that cannot be generated is refused.
pub fn validate_generated_references(
    references: &Vec<String>,
    table_apps: &Vec<(String, String)>,
    app: &str,
    desired: &Vec<(String, String, String)>,
    history: &Vec<(String, String, String)>,
) -> (r: Result<(), ManageError>)
    ensures
        match r {
            Ok(()) => forall|k: int| 0 <= k < references@.len()
                ==> reference_problem((#[trigger] references@[k])@, table_apps@, app@, desired@, history@) is None,
            Err(e) => exists|k: int| 0 <= k < references@.len()
                && (forall|j: int| 0 <= j < k ==> reference_problem((#[trigger] references@[j])@, table_apps@, app@, desired@, history@) is None)
                && match reference_problem((#[trigger] references@[k])@, table_apps@, app@, desired@, history@) {
                    Some(None) => e == ManageError::InvalidForeignKey,
                    Some(Some((t, o))) => e matches ManageError::ForeignKeyNeedsMigration { target, owner } && target@ == t && owner@ == o,
                    None => false,
                },
        },
{
    let mut k: usize = 0;
    while k < references.len()
        invariant
            k <= references@.len(),
            forall|j: int| 0 <= j < k ==> reference_problem((#[trigger] references@[j])@, table_apps@, app@, desired@, history@) is None,
        decreases references.len() - k,
    {
        let r = references[k].as_str();
        match reference_parts_exec(r) {
            None => { return Err(ManageError::InvalidForeignKey); },
            Some((t, f)) => {
                match table_owner_exec(table_apps, t.as_str()) {
                    None => {},
                    Some(o) => {
                        let own = crate::text::str_eq(o.as_str(), app);
                        let found = if own {
                            has_column_exec(desired, o.as_str(), t.as_str(), f.as_str())
                        } else {
                            has_column_exec(history, o.as_str(), t.as_str(), f.as_str())
                        };
                        if !found {
                            return Err(ManageError::ForeignKeyNeedsMigration { target: references[k].clone(), owner: o });
                        }
                    },
                }
            },
        }
        k += 1;
    }
    Ok(())
}

} // verus!
