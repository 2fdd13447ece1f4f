use vstd::prelude::*;

use crate::filters::{Filter, FilterSet, Lookup, ValueKind};
use crate::serializer::Field;

verus! {

/// The tasks app of the example project.
#[derive(Debug, Clone, Copy)]
pub struct Tasks;

/// The tasks app.
pub fn module() -> Tasks {
    Tasks
}

impl Tasks {
    /// `tasks`.
    pub fn name(&self) -> (r: &'static str)
        ensures r@ == "tasks"@,
    {
        "tasks"
    }
}

/// The serializer of tasks: `id` (read-only), `title` and `completed`.
#[derive(Debug, Clone, Copy, Default)]
pub struct TaskSerializer;

impl TaskSerializer {
    pub fn fields() -> (r: Vec<Field>)
        ensures
            r@.len() == 3,
            r@[0].name@ == "id"@ && r@[0].read_only && !r@[0].required,
            r@[1].name@ == "title"@ && !r@[1].read_only && r@[1].required,
            r@[2].name@ == "completed"@ && !r@[2].read_only && r@[2].required,
    {
        let mut r = Vec::new();
        r.push(Field::new("id").read_only());
        r.push(Field::new("title"));
        r.push(Field::new("completed"));
        r
    }
}

/// The filters of tasks: `title__contains` and `completed`.
#[derive(Debug, Clone, Copy, Default)]
pub struct TaskFilterSet;

impl TaskFilterSet {
    pub fn filters() -> (r: FilterSet)
        ensures
            r.filters_view().len() == 2,
            r.filters_view()[0].name@ == "title"@ && r.filters_view()[0].lookup == Lookup::Contains,
            r.filters_view()[1].name@ == "completed"@ && r.filters_view()[1].lookup == Lookup::Exact
                && r.filters_view()[1].kind == ValueKind::Boolean,
    {
        let mut v = Vec::new();
        v.push(Filter::contains("title"));
        v.push(Filter::exact("completed", ValueKind::Boolean));
        FilterSet::new(v)
    }
}

/// The task endpoint.
#[derive(Debug, Clone, Copy, Default)]
pub struct TaskViewSet;

impl TaskViewSet {
    /// `/tasks`.
    pub fn path(&self) -> (r: &'static str)
        ensures r@ == "/tasks"@,
    {
        "/tasks"
    }
}

} // verus!
