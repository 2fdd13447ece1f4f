use che_rest::json::{arr1, array_of, find_entry, json_str, obj2, object_of, Json, JsonNumber};
use che_rest::templates::{
    app_mod_template, apps_mod_template, filters_rs_template, main_rs_template, manage_rs_template,
    model_blocks, models_rs_template, serializers_rs_template, views_rs_template,
};

fn names(models: &[&str]) -> Vec<String> {
    models.iter().map(|m| m.to_string()).collect()
}

#[test]
fn model_blocks_name_tables_after_the_app() {
    let expected = "#[derive(Debug, che_orm2::Model)]\n#[orm(table = \"blog_blog_post\")]\npub struct BlogPost {\n    #[orm(primary_key)]\n    pub id: i64,\n    pub name: String,\n    #[orm(auto_now_add)]\n    pub created_at: OffsetDateTime,\n    #[orm(auto_now)]\n    pub updated_at: OffsetDateTime,\n}\n";
    assert_eq!(model_blocks("blog", &names(&["BlogPost"])), expected);
    let two = models_rs_template("blog", &names(&["A", "B"]));
    assert!(two.starts_with("use time::OffsetDateTime;\n\n#[derive(Debug, che_orm2::Model)]\n#[orm(table = \"blog_a\")]"));
    assert!(two.contains("}\n\n#[derive(Debug, che_orm2::Model)]\n#[orm(table = \"blog_b\")]\npub struct B {"));
}

#[test]
fn serializer_and_filter_templates_list_every_model() {
    let serializers = serializers_rs_template(&names(&["Task", "Comment"]));
    assert!(serializers.starts_with("use super::models::{Task, Comment};\n\n#[derive(che_orm2::ModelSerializer)]\n#[serializer(model = Task)]\npub struct TaskSerializer {"));
    let filters = filters_rs_template(&names(&["BlogPost"]));
    assert!(filters.starts_with("use che_rest::{Filter, FilterSetSpec};\n\nuse super::models::{BlogPost};\n\n"));
    assert!(filters.contains("static BLOG_POST_FILTERS: &[Filter<BlogPost>] = &[\n    Filter::exact(BlogPost::ID),"));
    assert!(filters.contains("    fn filters(&self) -> &'static [Filter<BlogPost>] {\n        BLOG_POST_FILTERS\n    }"));
}

#[test]
fn view_and_module_templates() {
    let views = views_rs_template(&names(&["BlogPost", "Tag"]));
    assert!(views.starts_with("use che_rest::{AllowAny, Model, ViewSet};\n\nuse super::{\n    filters::{BlogPostFilterSet, TagFilterSet},\n    models::{BlogPost, Tag},\n    serializers::{BlogPostSerializer, TagSerializer},\n};\n\n"));
    assert!(views.contains("    fn path(&self) -> &'static str {\n        \"/blog_post\"\n    }"));
    let module = app_mod_template("blog_app", &names(&["BlogPost"]));
    let expected = "pub mod filters;\npub mod models;\npub mod serializers;\npub mod views;\n\nuse che_rest::{AppModule, ModuleContext};\n\npub fn module() -> BlogAppModule {\n    BlogAppModule\n}\n\npub struct BlogAppModule;\n\nimpl AppModule for BlogAppModule {\n    fn name(&self) -> &'static str {\n        \"blog_app\"\n    }\n\n    fn schema(&self) -> che_orm2::SchemaSet {\n        che_orm2::SchemaSet::new().model::<models::BlogPost>()\n    }\n\n    fn init(&self, context: &mut ModuleContext) {\n        context.viewset_with(\"/blog_post\", views::BlogPostViewSet);\n    }\n}\n";
    assert_eq!(module, expected);
}

#[test]
fn project_entry_points_use_the_crate_name() {
    assert!(main_rs_template("todo_api").contains(".install(todo_api::apps::installed_apps())"));
    assert!(manage_rs_template("todo_api").contains("Management::new(todo_api::apps::installed_apps())"));
    let with_auth = apps_mod_template(true);
    assert!(with_auth.contains("che_rest::auth::module()"));
    let without = apps_mod_template(false);
    assert!(!without.contains("che_rest::auth::module()"));
    assert!(without.contains("// che-rest:startapp modules"));
    assert!(without.contains("// che-rest:startapp installed apps"));
}

#[test]
fn json_values_keep_their_entries() {
    let value = obj2("a", json_str("x"), "b", arr1(Json::Number(JsonNumber::NegInt(-1))));
    let copy = value.deep_copy();
    let Json::Object(entries) = copy else { panic!("expected an object") };
    assert_eq!(find_entry(&entries, "b"), Some(1));
    assert_eq!(find_entry(&entries, "c"), None);
    assert!(matches!(&entries[1].1, Json::Array(items) if items.len() == 1));
    let built = object_of(vec![("k".into(), array_of(vec![Json::Null, Json::Bool(true)]))]);
    assert!(matches!(built, Json::Object(e) if e.len() == 1 && e[0].0 == "k"));
}
