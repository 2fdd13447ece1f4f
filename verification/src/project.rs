use vstd::prelude::*;
use vstd::string::*;

use crate::registry::{find_seq, find_seq_exec, lemma_find_seq};
use crate::registry::join;
use crate::templates::{
    agents_md_template, agents_md_text, app_mod_template, app_mod_text, app_toml_template, apps_mod_template,
    apps_mod_text, blocks_of, cargo_toml_template, cargo_toml_text, filter_block, filters_rs_template,
    lib_rs_template, main_rs_template, manage_rs_template, model_block, models_rs_template, names_of,
    serializer_block, serializers_rs_template, suffixed, view_block, views_rs_template, APP_INSTALL_MARKER,
    APP_MODULES_MARKER, APP_TOML, LIB_RS, MAIN_HEAD, MAIN_TAIL, MANAGE_HEAD, MANAGE_TAIL,
};
use crate::text::{
    char_is_alnum, char_is_digit, char_is_lower, char_is_upper, char_to_lower, char_to_upper,
    chars_of, ends_with, has_suffix, is_alnum, is_digit, is_lower, is_upper, lower_of, owned,
    push_char, push_str, string_of, string_of_range, strip_suffix_or_self, upper_of,
};

verus! {

/// Options of `startproject`: the project's name, the directory that will hold
/// it, and the dependency paths written into its `Cargo.toml`.
#[derive(Debug, Clone)]
pub struct StartProjectOptions {
    pub name: String,
    pub out: String,
    pub che_rest_path: String,
    pub che_orm2_path: String,
    pub with_auth: bool,
    pub force: bool,
}

/// Options of `startapp`: the app's name, its model names (empty for the
/// default model) and the project root.
#[derive(Debug, Clone)]
pub struct StartAppOptions {
    pub name: String,
    pub models: Vec<String>,
    pub root: String,
    pub force: bool,
}

/// Whether a directory holds a project or an app.
#[derive(Debug, Clone, Copy, PartialEq, Eq, Structural)]
pub enum DirKind {
    Project,
    App,
}

/// Why a project or app could not be created.
#[derive(Debug, Clone, PartialEq, Eq)]
pub enum ProjectError {
    ProjectNameEmpty,
    ProjectNameStart,
    ProjectNameChars,
    AppNameEmpty,
    AppNameStart,
    AppNameChars,
    ModelNameEmpty,
    ModelNameStart,
    ModelNameChars,
    /// The app registry at `path` has no markers to register `app` at.
    MissingMarkers { path: String, app: String },
    /// The path of the new directory is something else.
    NotADirectory { kind: DirKind, path: String },
    /// The new directory already holds files.
    NotEmpty { kind: DirKind, path: String },
}

/// The message shown to the user for `e`.
pub open spec fn project_message(e: ProjectError) -> Seq<char> {
    match e {
        ProjectError::ProjectNameEmpty => "project name cannot be empty"@,
        ProjectError::ProjectNameStart => "project name must start with a lowercase ascii letter"@,
        ProjectError::ProjectNameChars => "project name must contain only lowercase ascii letters, digits, underscores, and hyphens"@,
        ProjectError::AppNameEmpty => "app name cannot be empty"@,
        ProjectError::AppNameStart => "app name must start with a lowercase ascii letter"@,
        ProjectError::AppNameChars => "app name must contain only lowercase ascii letters, digits, and underscores"@,
        ProjectError::ModelNameEmpty => "model name cannot be empty"@,
        ProjectError::ModelNameStart => "model name must start with an uppercase ascii letter"@,
        ProjectError::ModelNameChars => "model name must contain only ascii letters and digits"@,
        ProjectError::MissingMarkers { path, app } => "created app files, but "@ + path@
            + " has no che-rest startapp markers; add `pub mod "@ + app@ + ";` and `.add("@ + app@ + "::module())` manually"@,
        ProjectError::NotADirectory { kind, path } => (match kind { DirKind::Project => "project"@, DirKind::App => "app"@ })
            + " path is not a directory: "@ + path@,
        ProjectError::NotEmpty { kind, path } => (match kind { DirKind::Project => "project"@, DirKind::App => "app"@ })
            + " directory already exists and is not empty: "@ + path@,
    }
}

impl ProjectError {
    /// The message shown to the user.
    pub fn message(&self) -> (s: String)
        ensures s@ == project_message(*self),
    {
        let mut s = String::new();
        match self {
            ProjectError::ProjectNameEmpty => push_str(&mut s, "project name cannot be empty"),
            ProjectError::ProjectNameStart => push_str(&mut s, "project name must start with a lowercase ascii letter"),
            ProjectError::ProjectNameChars => push_str(&mut s, "project name must contain only lowercase ascii letters, digits, underscores, and hyphens"),
            ProjectError::AppNameEmpty => push_str(&mut s, "app name cannot be empty"),
            ProjectError::AppNameStart => push_str(&mut s, "app name must start with a lowercase ascii letter"),
            ProjectError::AppNameChars => push_str(&mut s, "app name must contain only lowercase ascii letters, digits, and underscores"),
            ProjectError::ModelNameEmpty => push_str(&mut s, "model name cannot be empty"),
            ProjectError::ModelNameStart => push_str(&mut s, "model name must start with an uppercase ascii letter"),
            ProjectError::ModelNameChars => push_str(&mut s, "model name must contain only ascii letters and digits"),
            ProjectError::MissingMarkers { path, app } => {
                push_str(&mut s, "created app files, but ");
                push_str(&mut s, path.as_str());
                push_str(&mut s, " has no che-rest startapp markers; add `pub mod ");
                push_str(&mut s, app.as_str());
                push_str(&mut s, ";` and `.add(");
                push_str(&mut s, app.as_str());
                push_str(&mut s, "::module())` manually");
            },
            ProjectError::NotADirectory { kind, path } => {
                match kind {
                    DirKind::Project => push_str(&mut s, "project"),
                    DirKind::App => push_str(&mut s, "app"),
                }
                push_str(&mut s, " path is not a directory: ");
                push_str(&mut s, path.as_str());
            },
            ProjectError::NotEmpty { kind, path } => {
                match kind {
                    DirKind::Project => push_str(&mut s, "project"),
                    DirKind::App => push_str(&mut s, "app"),
                }
                push_str(&mut s, " directory already exists and is not empty: ");
                push_str(&mut s, path.as_str());
            },
        }
        s
    }
}

/// A character allowed after the first one in a project name.
pub open spec fn project_name_char(c: char) -> bool {
    is_lower(c) || is_digit(c) || c == '_' || c == '-'
}

/// A character allowed after the first one in an app name.
pub open spec fn app_name_char(c: char) -> bool {
    is_lower(c) || is_digit(c) || c == '_'
}

/// What `validate_project_name` answers for a name.
pub open spec fn project_name_check(s: Seq<char>) -> Result<(), ProjectError> {
    if s.len() == 0 {
        Err(ProjectError::ProjectNameEmpty)
    } else if !is_lower(s[0]) {
        Err(ProjectError::ProjectNameStart)
    } else if !(forall|i: int| 1 <= i < s.len() ==> #[trigger] project_name_char(s[i])) {
        Err(ProjectError::ProjectNameChars)
    } else {
        Ok(())
    }
}

/// What `validate_app_name` answers for a name.
pub open spec fn app_name_check(s: Seq<char>) -> Result<(), ProjectError> {
    if s.len() == 0 {
        Err(ProjectError::AppNameEmpty)
    } else if !is_lower(s[0]) {
        Err(ProjectError::AppNameStart)
    } else if !(forall|i: int| 1 <= i < s.len() ==> #[trigger] app_name_char(s[i])) {
        Err(ProjectError::AppNameChars)
    } else {
        Ok(())
    }
}

/// What `validate_model_name` answers for a name.
pub open spec fn model_name_check(s: Seq<char>) -> Result<(), ProjectError> {
    if s.len() == 0 {
        Err(ProjectError::ModelNameEmpty)
    } else if !is_upper(s[0]) {
        Err(ProjectError::ModelNameStart)
    } else if !(forall|i: int| 1 <= i < s.len() ==> #[trigger] is_alnum(s[i])) {
        Err(ProjectError::ModelNameChars)
    } else {
        Ok(())
    }
}

/// Checks a project name: a lowercase ASCII letter followed by lowercase
/// letters, digits, `_` or `-`.
pub fn validate_project_name(name: &str) -> (res: Result<(), ProjectError>)
    ensures res == project_name_check(name@),
{
    let s = chars_of(name);
    if s.len() == 0 {
        return Err(ProjectError::ProjectNameEmpty);
    }
    if !char_is_lower(s[0]) {
        return Err(ProjectError::ProjectNameStart);
    }
    let mut i: usize = 1;
    while i < s.len()
        invariant
            s@ == name@,
            1 <= i <= s.len(),
            is_lower(s@[0]),
            forall|j: int| 1 <= j < i ==> project_name_char(#[trigger] s@[j]),
        decreases s.len() - i,
    {
        let c = s[i];
        if !(char_is_lower(c) || char_is_digit(c) || c == '_' || c == '-') {
            assert(!project_name_char(s@[i as int]));
            return Err(ProjectError::ProjectNameChars);
        }
        i += 1;
    }
    Ok(())
}

/// Checks an app name: a lowercase ASCII letter followed by lowercase
/// letters, digits or `_`.
pub fn validate_app_name(name: &str) -> (res: Result<(), ProjectError>)
    ensures res == app_name_check(name@),
{
    let s = chars_of(name);
    if s.len() == 0 {
        return Err(ProjectError::AppNameEmpty);
    }
    if !char_is_lower(s[0]) {
        return Err(ProjectError::AppNameStart);
    }
    let mut i: usize = 1;
    while i < s.len()
        invariant
            s@ == name@,
            1 <= i <= s.len(),
            is_lower(s@[0]),
            forall|j: int| 1 <= j < i ==> app_name_char(#[trigger] s@[j]),
        decreases s.len() - i,
    {
        let c = s[i];
        if !(char_is_lower(c) || char_is_digit(c) || c == '_') {
            assert(!app_name_char(s@[i as int]));
            return Err(ProjectError::AppNameChars);
        }
        i += 1;
    }
    Ok(())
}

/// Checks a model name: an uppercase ASCII letter followed by ASCII letters
/// or digits.
pub fn validate_model_name(name: &str) -> (res: Result<(), ProjectError>)
    ensures res == model_name_check(name@),
{
    let s = chars_of(name);
    if s.len() == 0 {
        return Err(ProjectError::ModelNameEmpty);
    }
    if !char_is_upper(s[0]) {
        return Err(ProjectError::ModelNameStart);
    }
    let mut i: usize = 1;
    while i < s.len()
        invariant
            s@ == name@,
            1 <= i <= s.len(),
            is_upper(s@[0]),
            forall|j: int| 1 <= j < i ==> is_alnum(#[trigger] s@[j]),
        decreases s.len() - i,
    {
        if !char_is_alnum(s[i]) {
            assert(!is_alnum(s@[i as int]));
            return Err(ProjectError::ModelNameChars);
        }
        i += 1;
    }
    Ok(())
}

/// The snake-case text produced for the character at index `i`: an
/// uppercase letter becomes its lowercase form, preceded by `_` unless it is
/// the first character.
pub open spec fn snake_piece(i: int, c: char) -> Seq<char> {
    if is_upper(c) {
        if i > 0 { seq!['_', lower_of(c)] } else { seq![lower_of(c)] }
    } else {
        seq![c]
    }
}

/// `to_snake_case` of a character sequence.
pub open spec fn snake_case(s: Seq<char>) -> Seq<char>
    decreases s.len(),
{
    if s.len() == 0 {
        Seq::empty()
    } else {
        snake_case(s.drop_last()) + snake_piece(s.len() - 1, s.last())
    }
}

/// The PascalCase text produced for the character at index `i`: `_` is
/// dropped, and the first character of each `_`-separated part is uppercased.
pub open spec fn pascal_piece(s: Seq<char>, i: int) -> Seq<char> {
    if s[i] == '_' {
        Seq::empty()
    } else if i == 0 || s[i - 1] == '_' {
        seq![upper_of(s[i])]
    } else {
        seq![s[i]]
    }
}

/// `to_pascal_case` of the first `n` characters of `s`.
pub open spec fn pascal_prefix(s: Seq<char>, n: int) -> Seq<char>
    decreases n,
{
    if n <= 0 {
        Seq::empty()
    } else {
        pascal_prefix(s, n - 1) + pascal_piece(s, n - 1)
    }
}

/// `to_pascal_case` of a character sequence: the non-empty `_`-separated
/// parts, each with its first character uppercased, concatenated.
pub open spec fn pascal_case(s: Seq<char>) -> Seq<char> {
    pascal_prefix(s, s.len() as int)
}

/// Converts `snake_case` to `PascalCase`.
pub fn to_pascal_case(value: &str) -> (res: String)
    ensures res@ == pascal_case(value@),
{
    let s = chars_of(value);
    let mut out = String::new();
    let mut i: usize = 0;
    while i < s.len()
        invariant
            s@ == value@,
            i <= s.len(),
            out@ == pascal_prefix(s@, i as int),
        decreases s.len() - i,
    {
        let c = s[i];
        if c == '_' {
        } else if i == 0 || s[i - 1] == '_' {
            push_char(&mut out, char_to_upper(c));
        } else {
            push_char(&mut out, c);
        }
        proof {
            assert(pascal_prefix(s@, i + 1) == pascal_prefix(s@, i as int) + pascal_piece(s@, i as int));
        }
        i += 1;
    }
    out
}

/// Converts `PascalCase` to `snake_case`.
pub fn to_snake_case(value: &str) -> (res: String)
    ensures res@ == snake_case(value@),
{
    let s = chars_of(value);
    let mut out = String::new();
    let mut i: usize = 0;
    while i < s.len()
        invariant
            s@ == value@,
            i <= s.len(),
            out@ == snake_case(s@.take(i as int)),
        decreases s.len() - i,
    {
        let c = s[i];
        if char_is_upper(c) {
            if i > 0 {
                push_char(&mut out, '_');
            }
            push_char(&mut out, char_to_lower(c));
        } else {
            push_char(&mut out, c);
        }
        proof {
            let t = s@.take(i + 1);
            assert(t.drop_last() =~= s@.take(i as int));
            assert(out@ =~= snake_case(t));
        }
        i += 1;
    }
    proof { assert(s@.take(s@.len() as int) =~= s@); }
    out
}

/// The model name derived from a (plural) name: a trailing `s` is removed and
/// the rest is converted to PascalCase.
pub open spec fn singular_model(s: Seq<char>) -> Seq<char> {
    pascal_case(strip_suffix_or_self(s, seq!['s']))
}

/// The default model name of an app: a trailing `app` is removed first.
pub open spec fn default_model(s: Seq<char>) -> Seq<char> {
    singular_model(strip_suffix_or_self(s, seq!['a', 'p', 'p']))
}

fn strip_suffix_chars(s: &Vec<char>, suffix: &Vec<char>) -> (res: String)
    ensures res@ == strip_suffix_or_self(s@, suffix@),
{
    if has_suffix(s, suffix) {
        string_of_range(s, 0, s.len() - suffix.len())
    } else {
        string_of(s)
    }
}

/// The model name for a plural or singular name (`tasks` becomes `Task`).
pub fn singular_model_name(name: &str) -> (res: String)
    ensures res@ == singular_model(name@),
{
    let s = chars_of(name);
    let suffix = vec!['s'];
    let base = strip_suffix_chars(&s, &suffix);
    proof { assert(suffix@ == seq!['s']); }
    to_pascal_case(base.as_str())
}

/// The model generated when `startapp` is given no `--model`: `taskapp`
/// becomes `Task`.
pub fn default_model_name(app_name: &str) -> (res: String)
    ensures res@ == default_model(app_name@),
{
    let s = chars_of(app_name);
    let suffix = vec!['a', 'p', 'p'];
    let base = strip_suffix_chars(&s, &suffix);
    proof { assert(suffix@ == seq!['a', 'p', 'p']); }
    singular_model_name(base.as_str())
}

} // verus!

verus! {

/// `s` holds `p`.
pub open spec fn contains_seq(s: Seq<char>, p: Seq<char>) -> bool {
    find_seq(s, p, 0) >= 0
}

/// `s` with every occurrence of `pat`, from left to right and without
/// overlap, replaced by `rep` (`str::replace`).
pub open spec fn replace_all(s: Seq<char>, pat: Seq<char>, rep: Seq<char>) -> Seq<char>
    decreases s.len(),
{
    if pat.len() == 0 {
        s
    } else {
        let k = find_seq(s, pat, 0);
        if k < 0 {
            s
        } else {
            proof { lemma_find_seq(s, pat, 0); }
            s.take(k) + rep + replace_all(s.skip(k + pat.len()), pat, rep)
        }
    }
}

fn replace_all_exec(s: &Vec<char>, pat: &Vec<char>, rep: &Vec<char>) -> (r: Vec<char>)
    requires pat@.len() > 0,
    ensures r@ == replace_all(s@, pat@, rep@),
    decreases s@.len(),
{
    match find_seq_exec(s, pat) {
        None => s.clone(),
        Some(k) => {
            proof { lemma_find_seq(s@, pat@, 0); }
            let n = s.len();
            let mut r: Vec<char> = Vec::new();
            let mut i: usize = 0;
            while i < k
                invariant
                    i <= k, k + pat@.len() <= s@.len(),
                    r@ == s@.take(i as int),
                decreases k - i,
            {
                r.push(s[i]);
                proof { assert(s@.take(i + 1) == s@.take(i as int).push(s@[i as int])); }
                i += 1;
            }
            let mut j: usize = 0;
            while j < rep.len()
                invariant
                    j <= rep@.len(),
                    n == s@.len(),
                    k + pat@.len() <= n,
                    r@ == s@.take(k as int) + rep@.take(j as int),
                decreases rep.len() - j,
            {
                r.push(rep[j]);
                proof { assert(rep@.take(j + 1) == rep@.take(j as int).push(rep@[j as int])); }
                j += 1;
            }
            proof { assert(rep@.take(rep@.len() as int) == rep@); }
            let mut rest: Vec<char> = Vec::new();
            let mut m: usize = k + pat.len();
            while m < s.len()
                invariant
                    k + pat@.len() <= m <= s@.len(),
                    rest@ == s@.subrange(k + pat@.len(), m as int),
                decreases s.len() - m,
            {
                rest.push(s[m]);
                proof { assert(s@.subrange(k + pat@.len(), m + 1) == s@.subrange(k + pat@.len(), m as int).push(s@[m as int])); }
                m += 1;
            }
            proof { assert(rest@ == s@.skip(k + pat@.len())); }
            let tail = replace_all_exec(&rest, pat, rep);
            let mut t: usize = 0;
            let ghost head = r@;
            while t < tail.len()
                invariant
                    t <= tail@.len(),
                    r@ == head + tail@.take(t as int),
                decreases tail.len() - t,
            {
                r.push(tail[t]);
                proof { assert(tail@.take(t + 1) == tail@.take(t as int).push(tail@[t as int])); }
                t += 1;
            }
            proof { assert(tail@.take(tail@.len() as int) == tail@); }
            r
        },
    }
}

fn contains_exec(s: &Vec<char>, p: &Vec<char>) -> (r: bool)
    ensures r == contains_seq(s@, p@),
{
    find_seq_exec(s, p).is_some()
}

/// The line declaring app module `app`.
pub open spec fn module_line(app: Seq<char>) -> Seq<char> {
    "pub mod "@ + app + ";"@
}

/// The line installing app `app`.
pub open spec fn install_line(app: Seq<char>) -> Seq<char> {
    "        .add("@ + app + "::module())"@
}

/// What registering app `app` makes of the app registry `content`: the
/// module is declared after the modules marker and installed before the
/// install marker, each unless already there.
pub open spec fn registered(content: Seq<char>, app: Seq<char>) -> Option<Seq<char>> {
    if !contains_seq(content, APP_MODULES_MARKER@) || !contains_seq(content, APP_INSTALL_MARKER@) {
        None
    } else {
        let with_module = if contains_seq(content, module_line(app)) {
            content
        } else {
            replace_all(content, APP_MODULES_MARKER@, APP_MODULES_MARKER@ + "\n"@ + module_line(app))
        };
        Some(if contains_seq(with_module, install_line(app)) {
            with_module
        } else {
            replace_all(with_module, APP_INSTALL_MARKER@, install_line(app) + "\n        "@ + APP_INSTALL_MARKER@)
        })
    }
}

/// Registers app `app_name` in the app registry `content` read from `path`.
pub fn register_app(path: &str, content: &str, app_name: &str) -> (r: Result<String, ProjectError>)
    ensures
        match registered(content@, app_name@) {
            Some(t) => r matches Ok(s) && s@ == t,
            None => r matches Err(ProjectError::MissingMarkers { path: p, app }) && p@ == path@ && app@ == app_name@,
        },
{
    let c = chars_of(content);
    let modules = chars_of(APP_MODULES_MARKER);
    let install = chars_of(APP_INSTALL_MARKER);
    proof {
        reveal_strlit("// che-rest:startapp modules");
        reveal_strlit("// che-rest:startapp installed apps");
    }
    if !contains_exec(&c, &modules) || !contains_exec(&c, &install) {
        return Err(ProjectError::MissingMarkers { path: owned(path), app: owned(app_name) });
    }
    let mut ml = owned("pub mod ");
    push_str(&mut ml, app_name);
    push_str(&mut ml, ";");
    let ml = chars_of(ml.as_str());
    let mut il = owned("        .add(");
    push_str(&mut il, app_name);
    push_str(&mut il, "::module())");
    let il = chars_of(il.as_str());
    let with_module = if contains_exec(&c, &ml) {
        c
    } else {
        let mut rep = owned(APP_MODULES_MARKER);
        push_str(&mut rep, "\n");
        push_str(&mut rep, string_of(&ml).as_str());
        let rep = chars_of(rep.as_str());
        replace_all_exec(&c, &modules, &rep)
    };
    let with_install = if contains_exec(&with_module, &il) {
        with_module
    } else {
        let mut rep = string_of(&il);
        push_str(&mut rep, "\n        ");
        push_str(&mut rep, APP_INSTALL_MARKER);
        let rep = chars_of(rep.as_str());
        replace_all_exec(&with_module, &install, &rep)
    };
    Ok(string_of(&with_install))
}

/// What to do with the directory of a new project or app at `path`: a
/// missing one is created; an existing one must be a directory, and empty
/// unless `force` is set. `Ok(true)` asks for it to be created.
pub fn prepare_dir(kind: DirKind, path: &str, exists: bool, is_dir: bool, force: bool, has_entries: bool) -> (r: Result<bool, ProjectError>)
    ensures
        !exists ==> r == Ok::<bool, ProjectError>(true),
        exists && !is_dir ==> (r matches Err(ProjectError::NotADirectory { kind: k, path: p }) && k == kind && p@ == path@),
        exists && is_dir && force ==> r == Ok::<bool, ProjectError>(false),
        exists && is_dir && !force && has_entries ==> (r matches Err(ProjectError::NotEmpty { kind: k, path: p }) && k == kind && p@ == path@),
        exists && is_dir && !force && !has_entries ==> r == Ok::<bool, ProjectError>(false),
{
    if !exists {
        return Ok(true);
    }
    if !is_dir {
        return Err(ProjectError::NotADirectory { kind, path: owned(path) });
    }
    if force {
        return Ok(false);
    }
    if has_entries {
        return Err(ProjectError::NotEmpty { kind, path: owned(path) });
    }
    Ok(false)
}

} // verus!

verus! {

/// `s` with every `-` turned into `_`: the crate name of a project.
pub open spec fn crate_name_of(s: Seq<char>) -> Seq<char> {
    Seq::new(s.len(), |i: int| if s[i] == '-' { '_' } else { s[i] })
}

fn crate_name_exec(name: &str) -> (r: String)
    ensures r@ == crate_name_of(name@),
{
    let c = chars_of(name);
    let mut r = String::new();
    let mut i: usize = 0;
    while i < c.len()
        invariant
            i <= c@.len(),
            c@ == name@,
            r@ == crate_name_of(name@).take(i as int),
        decreases c.len() - i,
    {
        let ch = if c[i] == '-' { '_' } else { c[i] };
        push_char(&mut r, ch);
        proof { assert(crate_name_of(name@).take(i + 1) == crate_name_of(name@).take(i as int).push(ch)); }
        i += 1;
    }
    proof { assert(crate_name_of(name@).take(c@.len() as int) == crate_name_of(name@)); }
    r
}

/// The files of a new project, relative to its directory, and their text.
pub open spec fn project_files(options: StartProjectOptions) -> Seq<(Seq<char>, Seq<char>)> {
    let crate_name = crate_name_of(options.name@);
    seq![
        ("Cargo.toml"@, cargo_toml_text(options.name@, options.che_rest_path@, options.che_orm2_path@)),
        ("app.toml"@, APP_TOML@),
        ("AGENTS.md"@, agents_md_text(options.with_auth)),
        ("src/lib.rs"@, LIB_RS@),
        ("src/main.rs"@, MAIN_HEAD@ + crate_name + MAIN_TAIL@),
        ("src/bin/manage.rs"@, MANAGE_HEAD@ + crate_name + MANAGE_TAIL@),
        ("src/apps/mod.rs"@, apps_mod_text(options.with_auth)),
    ]
}

/// The views of pairs of strings.
pub open spec fn pairs_view(v: Seq<(String, String)>) -> Seq<(Seq<char>, Seq<char>)> {
    Seq::new(v.len(), |i: int| (v[i].0@, v[i].1@))
}

/// The files `startproject` writes for `options`, once the project name is
/// checked.
pub fn startproject_files(options: &StartProjectOptions) -> (r: Result<Vec<(String, String)>, ProjectError>)
    ensures
        match project_name_check(options.name@) {
            Err(e) => r == Err::<Vec<(String, String)>, ProjectError>(e),
            Ok(()) => r matches Ok(files) && pairs_view(files@) == project_files(*options),
        },
{
    match validate_project_name(options.name.as_str()) {
        Err(e) => { return Err(e); },
        Ok(()) => {},
    }
    let crate_name = crate_name_exec(options.name.as_str());
    let mut files: Vec<(String, String)> = Vec::new();
    files.push((owned("Cargo.toml"), cargo_toml_template(options.name.as_str(), options.che_rest_path.as_str(), options.che_orm2_path.as_str())));
    files.push((owned("app.toml"), owned(app_toml_template())));
    files.push((owned("AGENTS.md"), agents_md_template(options.with_auth)));
    files.push((owned("src/lib.rs"), owned(lib_rs_template())));
    files.push((owned("src/main.rs"), main_rs_template(crate_name.as_str())));
    files.push((owned("src/bin/manage.rs"), manage_rs_template(crate_name.as_str())));
    files.push((owned("src/apps/mod.rs"), apps_mod_template(options.with_auth)));
    proof { assert(pairs_view(files@) =~= project_files(*options)); }
    Ok(files)
}

/// The first failing check among the first `n` model names.
pub open spec fn models_check(ms: Seq<String>, n: int) -> Result<(), ProjectError>
    decreases n,
{
    if n <= 0 {
        Ok(())
    } else {
        match models_check(ms, n - 1) {
            Err(e) => Err(e),
            Ok(()) => model_name_check(ms[n - 1]@),
        }
    }
}

/// The files of a new app, relative to its directory, and their text.
pub open spec fn app_files(app: Seq<char>, models: Seq<String>) -> Seq<(Seq<char>, Seq<char>)> {
    seq![
        ("models.rs"@, "use time::OffsetDateTime;\n\n"@ + join(blocks_of(models, |m: Seq<char>| model_block(app, m)), "\n"@)),
        ("serializers.rs"@, "use super::models::{"@ + join(names_of(models), ", "@) + "};\n\n"@
            + join(blocks_of(models, |m: Seq<char>| serializer_block(m)), "\n"@)),
        ("filters.rs"@, "use che_rest::{Filter, FilterSetSpec};\n\nuse super::models::{"@ + join(names_of(models), ", "@) + "};\n\n"@
            + join(blocks_of(models, |m: Seq<char>| filter_block(m)), "\n"@)),
        ("views.rs"@, "use che_rest::{AllowAny, Model, ViewSet};\n\nuse super::{\n    filters::{"@
            + join(suffixed(models, "FilterSet"@), ", "@) + "},\n    models::{"@ + join(names_of(models), ", "@)
            + "},\n    serializers::{"@ + join(suffixed(models, "Serializer"@), ", "@) + "},\n};\n\n"@
            + join(blocks_of(models, |m: Seq<char>| view_block(m)), "\n"@)),
        ("mod.rs"@, app_mod_text(app, models)),
    ]
}

/// The models `startapp` creates and the files it writes for `options`,
/// once the app and model names are checked: with no model given, one
/// named after the app.
pub fn startapp_files(options: &StartAppOptions) -> (r: Result<(Vec<String>, Vec<(String, String)>), ProjectError>)
    ensures
        match app_name_check(options.name@) {
            Err(e) => r == Err::<(Vec<String>, Vec<(String, String)>), ProjectError>(e),
            Ok(()) => {
                let defaulted = options.models@.len() == 0;
                &&& r is Ok ==> (defaulted ==> r->Ok_0.0@.len() == 1 && r->Ok_0.0@[0]@ == default_model(options.name@))
                &&& r is Ok ==> (!defaulted ==> r->Ok_0.0@ == options.models@)
                &&& match r {
                    Ok((models, files)) => models_check(models@, models@.len() as int) is Ok
                        && pairs_view(files@) == app_files(options.name@, models@),
                    Err(e) => if defaulted {
                        model_name_check(default_model(options.name@)) == Err::<(), ProjectError>(e)
                    } else {
                        models_check(options.models@, options.models@.len() as int) == Err::<(), ProjectError>(e)
                    },
                }
            },
        },
{
    match validate_app_name(options.name.as_str()) {
        Err(e) => { return Err(e); },
        Ok(()) => {},
    }
    let models: Vec<String> = if options.models.len() == 0 {
        let mut v: Vec<String> = Vec::new();
        v.push(default_model_name(options.name.as_str()));
        v
    } else {
        options.models.clone()
    };
    proof {
        if options.models@.len() > 0 {
            assert(models@ == options.models@);
        }
    }
    let mut i: usize = 0;
    while i < models.len()
        invariant
            i <= models@.len(),
            models_check(models@, i as int) is Ok,
            app_name_check(options.name@) is Ok,
            options.models@.len() == 0 ==> models@.len() == 1 && models@[0]@ == default_model(options.name@),
            options.models@.len() > 0 ==> models@ == options.models@,
        decreases models.len() - i,
    {
        match validate_model_name(models[i].as_str()) {
            Err(e) => {
                proof {
                    lemma_models_check_stops(models@, i + 1, models@.len() as int);
                    if options.models@.len() == 0 {
                        assert(models_check(models@, 1) == model_name_check(models@[0]@));
                    }
                }
                return Err(e);
            },
            Ok(()) => {},
        }
        i += 1;
    }
    let name = options.name.as_str();
    let mut files: Vec<(String, String)> = Vec::new();
    files.push((owned("models.rs"), models_rs_template(name, &models)));
    files.push((owned("serializers.rs"), serializers_rs_template(&models)));
    files.push((owned("filters.rs"), filters_rs_template(&models)));
    files.push((owned("views.rs"), views_rs_template(&models)));
    files.push((owned("mod.rs"), app_mod_template(name, &models)));
    proof { assert(pairs_view(files@) =~= app_files(options.name@, models@)); }
    Ok((models, files))
}

proof fn lemma_models_check_stops(ms: Seq<String>, i: int, n: int)
    requires 1 <= i <= n, models_check(ms, i) is Err,
    ensures models_check(ms, n) == models_check(ms, i),
    decreases n - i,
{
    if n > i {
        lemma_models_check_stops(ms, i, n - 1);
    }
}

} // verus!

verus! {

/// `p` occurs in `s` at `i`.
pub open spec fn occurs_at(s: Seq<char>, p: Seq<char>, i: int) -> bool {
    0 <= i && i + p.len() <= s.len() && s.subrange(i, i + p.len()) == p
}

/// No occurrence of `pat` in `s` overlaps the occurrence of `y` at `i`.
pub open spec fn apart(s: Seq<char>, pat: Seq<char>, y: Seq<char>, i: int) -> bool {
    forall|j: int| #[trigger] occurs_at(s, pat, j) ==> j + pat.len() <= i || i + y.len() <= j
}

proof fn lemma_find_reaches(s: Seq<char>, p: Seq<char>, from: int, i: int)
    requires 0 <= from <= i, occurs_at(s, p, i),
    ensures 0 <= find_seq(s, p, from) <= i,
    decreases i - from,
{
    if s.subrange(from, from + p.len()) != p {
        lemma_find_reaches(s, p, from + 1, i);
    }
}

proof fn lemma_replace_inserts(s: Seq<char>, pat: Seq<char>, rep: Seq<char>, x: Seq<char>, j: int)
    requires pat.len() > 0, contains_seq(s, pat), occurs_at(rep, x, j),
    ensures contains_seq(replace_all(s, pat, rep), x),
{
    let k = find_seq(s, pat, 0);
    lemma_find_seq(s, pat, 0);
    let r = replace_all(s, pat, rep);
    let rest = replace_all(s.skip(k + pat.len()), pat, rep);
    assert(r == s.take(k) + rep + rest);
    assert(r.subrange(k + j, k + j + x.len()) =~= rep.subrange(j, j + x.len()));
    lemma_find_reaches(r, x, 0, k + j);
}

proof fn lemma_replace_keeps(s: Seq<char>, pat: Seq<char>, rep: Seq<char>, y: Seq<char>, i: int)
    requires pat.len() > 0, occurs_at(s, y, i), apart(s, pat, y, i),
    ensures contains_seq(replace_all(s, pat, rep), y),
    decreases s.len(),
{
    let k = find_seq(s, pat, 0);
    lemma_find_seq(s, pat, 0);
    if k < 0 {
        lemma_find_reaches(s, y, 0, i);
    } else {
        let r = replace_all(s, pat, rep);
        let t = s.skip(k + pat.len());
        let rest = replace_all(t, pat, rep);
        assert(r == s.take(k) + rep + rest);
        assert(occurs_at(s, pat, k));
        if i + y.len() <= k {
            assert(r.subrange(i, i + y.len()) =~= s.subrange(i, i + y.len()));
            lemma_find_reaches(r, y, 0, i);
        } else {
            let i2 = i - k - pat.len();
            assert(t.subrange(i2, i2 + y.len()) =~= s.subrange(i, i + y.len()));
            assert forall|j: int| #[trigger] occurs_at(t, pat, j) implies j + pat.len() <= i2 || i2 + y.len() <= j by {
                assert(s.subrange(j + k + pat.len(), j + k + pat.len() + pat.len()) =~= t.subrange(j, j + pat.len()));
                assert(occurs_at(s, pat, j + k + pat.len()));
            }
            lemma_replace_keeps(t, pat, rep, y, i2);
            let q = find_seq(rest, y, 0);
            lemma_find_seq(rest, y, 0);
            assert(r.subrange(k + rep.len() + q, k + rep.len() + q + y.len()) =~= rest.subrange(q, q + y.len()));
            lemma_find_reaches(r, y, 0, k + rep.len() + q);
        }
    }
}

proof fn lemma_char_at(s: Seq<char>, p: Seq<char>, i: int, t: int)
    requires occurs_at(s, p, i), 0 <= t < p.len(),
    ensures s[i + t] == p[t],
{
    assert(s.subrange(i, i + p.len())[t] == s[i + t]);
}

/// The two markers of the app registry never overlap.
proof fn lemma_markers_apart(s: Seq<char>, i: int, j: int)
    requires occurs_at(s, APP_MODULES_MARKER@, i), occurs_at(s, APP_INSTALL_MARKER@, j),
    ensures j + APP_INSTALL_MARKER@.len() <= i || i + APP_MODULES_MARKER@.len() <= j,
{
    reveal_strlit("// che-rest:startapp modules");
    reveal_strlit("// che-rest:startapp installed apps");
    let m = APP_MODULES_MARKER@;
    let m2 = APP_INSTALL_MARKER@;
    assert(m.len() == 28 && m2.len() == 35);
    assert(forall|t: int| 2 <= t < 28 ==> m[t] != '/');
    assert(forall|t: int| 2 <= t < 35 ==> m2[t] != '/');
    if !(j + m2.len() <= i || i + m.len() <= j) {
        if i == j {
            lemma_char_at(s, m, i, 21);
            lemma_char_at(s, m2, j, 21);
        } else if i < j {
            lemma_char_at(s, m, i, j - i);
            lemma_char_at(s, m2, j, 0);
            lemma_char_at(s, m, i, j - i + 1);
            lemma_char_at(s, m2, j, 1);
        } else {
            lemma_char_at(s, m2, j, i - j);
            lemma_char_at(s, m, i, 0);
            lemma_char_at(s, m2, j, i - j + 1);
            lemma_char_at(s, m, i, 1);
        }
    }
}

/// The module line of an app whose name has no `/` never overlaps the
/// install marker.
proof fn lemma_module_line_apart(s: Seq<char>, app: Seq<char>, i: int, j: int)
    requires
        forall|t: int| 0 <= t < app.len() ==> app[t] != '/',
        occurs_at(s, module_line(app), i),
        occurs_at(s, APP_INSTALL_MARKER@, j),
    ensures j + APP_INSTALL_MARKER@.len() <= i || i + module_line(app).len() <= j,
{
    reveal_strlit("// che-rest:startapp installed apps");
    reveal_strlit("pub mod ");
    reveal_strlit(";");
    let ml = module_line(app);
    let m2 = APP_INSTALL_MARKER@;
    assert(m2.len() == 35);
    assert(ml.len() == app.len() + 9);
    assert(ml[0] == 'p' && ml[1] == 'u');
    assert(forall|t: int| 0 <= t < ml.len() ==> ml[t] != '/') by {
        assert forall|t: int| 0 <= t < ml.len() implies ml[t] != '/' by {
            if 8 <= t < 8 + app.len() {
                assert(ml[t] == app[t - 8]);
            }
        }
    }
    assert(forall|t: int| 0 <= t < 34 ==> !(#[trigger] m2[t] == 'p' && m2[t + 1] == 'u'));
    assert(m2[0] == '/' && m2[34] == 's');
    if !(j + m2.len() <= i || i + ml.len() <= j) {
        if i <= j {
            lemma_char_at(s, ml, i, j - i);
            lemma_char_at(s, m2, j, 0);
        } else {
            lemma_char_at(s, m2, j, i - j);
            lemma_char_at(s, ml, i, 0);
            if i - j < 34 {
                lemma_char_at(s, m2, j, i - j + 1);
                lemma_char_at(s, ml, i, 1);
            }
        }
    }
}

proof fn lemma_occurrence(s: Seq<char>, p: Seq<char>) -> (i: int)
    requires contains_seq(s, p),
    ensures occurs_at(s, p, i),
{
    lemma_find_seq(s, p, 0);
    find_seq(s, p, 0)
}

/// Registering an app twice changes nothing more than registering it once:
/// the registry it leaves declares and installs the app and keeps both
/// markers, so a second registration leaves it as it is. (An app name with
/// a `/` can hold the install marker itself, which the second pass would
/// rewrite inside the module line.)
pub proof fn law_register_app_idempotent(content: Seq<char>, app: Seq<char>)
    requires forall|t: int| 0 <= t < app.len() ==> app[t] != '/',
    ensures
        registered(content, app) matches Some(t) ==> {
            &&& contains_seq(t, module_line(app))
            &&& contains_seq(t, install_line(app))
            &&& registered(t, app) == Some(t)
        },
{
    let m = APP_MODULES_MARKER@;
    let m2 = APP_INSTALL_MARKER@;
    let ml = module_line(app);
    let il = install_line(app);
    if registered(content, app) is Some {
        reveal_strlit("// che-rest:startapp modules");
        reveal_strlit("// che-rest:startapp installed apps");
        reveal_strlit("\n");
        reveal_strlit("\n        ");
        assert(m.len() == 28);
        let rep = m + "\n"@ + ml;
        let w = if contains_seq(content, ml) { content } else { replace_all(content, m, rep) };
        if !contains_seq(content, ml) {
            assert(rep.subrange(0, m.len() as int) =~= m);
            lemma_replace_inserts(content, m, rep, m, 0);
            assert(rep.subrange(m.len() + 1int, m.len() + 1int + ml.len()) =~= ml);
            lemma_replace_inserts(content, m, rep, ml, m.len() + 1int);
            let i2 = lemma_occurrence(content, m2);
            assert forall|j: int| #[trigger] occurs_at(content, m, j) implies j + m.len() <= i2 || i2 + m2.len() <= j by {
                lemma_markers_apart(content, j, i2);
            }
            lemma_replace_keeps(content, m, rep, m2, i2);
        }
        assert(contains_seq(w, m) && contains_seq(w, m2) && contains_seq(w, ml));
        let rep2 = il + "\n        "@ + m2;
        let t = if contains_seq(w, il) { w } else { replace_all(w, m2, rep2) };
        if !contains_seq(w, il) {
            assert(m2.len() == 35);
            assert(rep2.subrange(0, il.len() as int) =~= il);
            lemma_replace_inserts(w, m2, rep2, il, 0);
            assert(rep2.subrange(il.len() + 9int, il.len() + 9int + m2.len()) =~= m2);
            lemma_replace_inserts(w, m2, rep2, m2, il.len() + 9int);
            let im = lemma_occurrence(w, m);
            assert forall|j: int| #[trigger] occurs_at(w, m2, j) implies j + m2.len() <= im || im + m.len() <= j by {
                lemma_markers_apart(w, im, j);
            }
            lemma_replace_keeps(w, m2, rep2, m, im);
            let iml = lemma_occurrence(w, ml);
            assert forall|j: int| #[trigger] occurs_at(w, m2, j) implies j + m2.len() <= iml || iml + ml.len() <= j by {
                lemma_module_line_apart(w, app, iml, j);
            }
            lemma_replace_keeps(w, m2, rep2, ml, iml);
        }
        assert(registered(content, app) == Some(t));
        assert(contains_seq(t, m) && contains_seq(t, m2) && contains_seq(t, ml) && contains_seq(t, il));
    }
}

} // verus!
