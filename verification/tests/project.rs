use che_rest::project::{
    default_model_name, prepare_dir, register_app, singular_model_name, startapp_files,
    startproject_files, to_pascal_case, to_snake_case, validate_app_name, validate_model_name,
    validate_project_name, DirKind, ProjectError, StartAppOptions, StartProjectOptions,
};

fn project_options(with_auth: bool) -> StartProjectOptions {
    StartProjectOptions {
        name: "todo_api".into(),
        out: "/tmp/out".into(),
        che_rest_path: "../che-rest".into(),
        che_orm2_path: "../che-orm2".into(),
        with_auth,
        force: false,
    }
}

fn file<'a>(files: &'a [(String, String)], path: &str) -> &'a str {
    files
        .iter()
        .find(|(p, _)| p == path)
        .map(|(_, text)| text.as_str())
        .unwrap_or_else(|| panic!("missing {path}"))
}

fn app_options(name: &str, models: &[&str]) -> StartAppOptions {
    StartAppOptions {
        name: name.into(),
        models: models.iter().map(|m| m.to_string()).collect(),
        root: "/tmp/out/todo_api".into(),
        force: false,
    }
}

#[test]
fn startproject_creates_manage_project() {
    let files = startproject_files(&project_options(true)).unwrap();
    assert!(files.iter().any(|(path, _)| path == "src/bin/manage.rs"));
    let apps_mod = file(&files, "src/apps/mod.rs");
    assert!(apps_mod.contains("che_rest::auth::module()"));
    assert!(apps_mod.contains("che-rest:startapp modules"));
    assert!(apps_mod.contains("che-rest:startapp installed apps"));
}

#[test]
fn startapp_creates_files_and_registers_module() {
    let project = startproject_files(&project_options(false)).unwrap();
    let (models, files) = startapp_files(&app_options("tasks", &["Task", "Comment"])).unwrap();
    assert_eq!(models, vec!["Task".to_string(), "Comment".to_string()]);
    assert!(files.iter().any(|(path, _)| path == "models.rs"));
    let apps_mod = register_app("src/apps/mod.rs", file(&project, "src/apps/mod.rs"), "tasks").unwrap();
    assert!(apps_mod.contains("pub mod tasks;"));
    assert!(apps_mod.contains(".add(tasks::module())"));
    let models_rs = file(&files, "models.rs");
    assert!(models_rs.contains("pub struct Task"));
    assert!(models_rs.contains("pub struct Comment"));
}

#[test]
fn startapp_defaults_model_from_app_name() {
    let (models, files) = startapp_files(&app_options("taskapp", &[])).unwrap();
    assert_eq!(models, vec!["Task".to_string()]);
    assert!(file(&files, "models.rs").contains("pub struct Task"));
}

#[test]
fn registering_an_app_twice_changes_nothing() {
    let project = startproject_files(&project_options(false)).unwrap();
    let once = register_app("src/apps/mod.rs", file(&project, "src/apps/mod.rs"), "tasks").unwrap();
    let twice = register_app("src/apps/mod.rs", &once, "tasks").unwrap();
    assert_eq!(once, twice);
    assert_eq!(once.matches("pub mod tasks;").count(), 1);
}

#[test]
fn registering_needs_both_markers() {
    let error = register_app("src/apps/mod.rs", "pub fn installed_apps() {}", "tasks").unwrap_err();
    assert_eq!(
        error,
        ProjectError::MissingMarkers { path: "src/apps/mod.rs".into(), app: "tasks".into() }
    );
    assert_eq!(
        error.message(),
        "created app files, but src/apps/mod.rs has no che-rest startapp markers; add `pub mod tasks;` and `.add(tasks::module())` manually"
    );
}

#[test]
fn names_are_checked() {
    assert_eq!(validate_project_name("todo-api_2"), Ok(()));
    assert_eq!(validate_project_name(""), Err(ProjectError::ProjectNameEmpty));
    assert_eq!(validate_project_name("2do"), Err(ProjectError::ProjectNameStart));
    assert_eq!(validate_project_name("todo api"), Err(ProjectError::ProjectNameChars));
    assert_eq!(validate_app_name("tasks_2"), Ok(()));
    assert_eq!(validate_app_name(""), Err(ProjectError::AppNameEmpty));
    assert_eq!(validate_app_name("Tasks"), Err(ProjectError::AppNameStart));
    assert_eq!(validate_app_name("task-s"), Err(ProjectError::AppNameChars));
    assert_eq!(validate_model_name("Task2"), Ok(()));
    assert_eq!(validate_model_name(""), Err(ProjectError::ModelNameEmpty));
    assert_eq!(validate_model_name("task"), Err(ProjectError::ModelNameStart));
    assert_eq!(validate_model_name("Task_"), Err(ProjectError::ModelNameChars));
    assert_eq!(
        startproject_files(&StartProjectOptions { name: "Bad".into(), ..project_options(false) }).unwrap_err(),
        ProjectError::ProjectNameStart
    );
    assert_eq!(
        startapp_files(&app_options("tasks", &["Task", "bad"])).unwrap_err(),
        ProjectError::ModelNameStart
    );
}

#[test]
fn case_conversions() {
    assert_eq!(to_pascal_case("blog_post"), "BlogPost");
    assert_eq!(to_pascal_case("__a__b_"), "AB");
    assert_eq!(to_snake_case("BlogPost"), "blog_post");
    assert_eq!(to_snake_case("HTTPCode"), "h_t_t_p_code");
    assert_eq!(singular_model_name("blog_posts"), "BlogPost");
    assert_eq!(default_model_name("taskapp"), "Task");
    assert_eq!(default_model_name("news"), "New");
}

#[test]
fn new_directories_must_be_empty_unless_forced() {
    assert_eq!(prepare_dir(DirKind::Project, "p", false, false, false, false), Ok(true));
    assert_eq!(
        prepare_dir(DirKind::Project, "p", true, false, false, false),
        Err(ProjectError::NotADirectory { kind: DirKind::Project, path: "p".into() })
    );
    assert_eq!(prepare_dir(DirKind::App, "a", true, true, true, true), Ok(false));
    let error = prepare_dir(DirKind::App, "a", true, true, false, true).unwrap_err();
    assert_eq!(error.message(), "app directory already exists and is not empty: a");
    assert_eq!(prepare_dir(DirKind::App, "a", true, true, false, false), Ok(false));
}

#[test]
fn project_files_name_the_crate() {
    let options = StartProjectOptions { name: "todo-api".into(), ..project_options(false) };
    let files = startproject_files(&options).unwrap();
    let paths: Vec<&str> = files.iter().map(|(p, _)| p.as_str()).collect();
    assert_eq!(
        paths,
        vec!["Cargo.toml", "app.toml", "AGENTS.md", "src/lib.rs", "src/main.rs", "src/bin/manage.rs", "src/apps/mod.rs"]
    );
    assert!(file(&files, "src/main.rs").contains("todo_api"));
    assert!(file(&files, "Cargo.toml").contains("name = \"todo-api\""));
    assert!(!file(&files, "src/apps/mod.rs").contains("che_rest::auth::module()"));
}
