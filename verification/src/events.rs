use vstd::prelude::*;

use crate::error::AppError;
use crate::text::{owned, push_str, str_eq};

verus! {

/// The index of the first of `names` equal to `name`, if any.
pub open spec fn first_named(names: Seq<String>, name: Seq<char>, from: int) -> Option<int>
    decreases names.len() - from,
{
    if from < 0 || from >= names.len() {
        None
    } else if names[from]@ == name {
        Some(from)
    } else {
        first_named(names, name, from + 1)
    }
}

/// The commands an application answers, by name; the handler of the
/// command at index `i` is the `i`-th handler its runtime holds.
#[derive(Debug, Clone)]
pub struct CommandRegistry {
    names: Vec<String>,
}

impl CommandRegistry {
    /// The names of the registered commands, in order.
    pub closed spec fn names_view(&self) -> Seq<String> {
        self.names@
    }

    /// A registry of `names`.
    pub fn new(names: Vec<String>) -> (r: CommandRegistry)
        ensures r.names_view() == names@,
    {
        CommandRegistry { names }
    }

    /// The names of the registered commands.
    pub fn names(&self) -> (r: &Vec<String>)
        ensures r@ == self.names_view(),
    {
        &self.names
    }

    /// Which handler a command named `name` goes to: the first command of
    /// that name; a name no command has is refused as a bad request.
    pub fn dispatch_target(&self, name: &str) -> (r: Result<usize, AppError>)
        ensures
            match first_named(self.names_view(), name@, 0) {
                Some(i) => r == Ok::<usize, AppError>(i as usize),
                None => r matches Err(AppError::BadRequest(m)) && m@ == "unknown command: "@ + name@,
            },
    {
        let mut i: usize = 0;
        while i < self.names.len()
            invariant
                i <= self.names@.len(),
                first_named(self.names@, name@, i as int) == first_named(self.names@, name@, 0),
            decreases self.names.len() - i,
        {
            if str_eq(self.names[i].as_str(), name) {
                return Ok(i);
            }
            i += 1;
        }
        let mut message = owned("unknown command: ");
        push_str(&mut message, name);
        Err(AppError::BadRequest(message))
    }
}

/// Law: a command goes to the first handler registered under exactly its
/// name; a name no handler has exactly is refused, whatever names it
/// begins with.
pub proof fn law_dispatch_is_by_exact_name(names: Seq<String>, name: Seq<char>, from: int)
    requires 0 <= from,
    ensures
        match first_named(names, name, from) {
            Some(i) => from <= i < names.len() && names[i]@ == name
                && forall|j: int| from <= j < i ==> (#[trigger] names[j])@ != name,
            None => forall|j: int| from <= j < names.len() ==> (#[trigger] names[j])@ != name,
        },
    decreases names.len() - from,
{
    if from < names.len() && names[from]@ != name {
        law_dispatch_is_by_exact_name(names, name, from + 1);
    }
}

} // verus!
