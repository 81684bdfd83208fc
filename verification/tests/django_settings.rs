use pyrefly_django::ast::Expr;
use pyrefly_django::django_model::ClassRef;
use pyrefly_django::django_settings::{
    AuthUserModelSetting, AuthUserModelSource, ModelLabelLookup, TargetKind,
    auth_user_model_setting_object, auth_user_model_source, django_settings_module,
    is_lazy_settings, is_user_model_alias, model_label_lookup,
    should_preserve_inferred_class_field_type, target_kind,
};
use pyrefly_django::framework_config::FrameworkConfig;

fn exports(l: ModelLabelLookup) -> Vec<(String, String)> {
    match l {
        ModelLabelLookup::Exports(v) => v,
        ModelLabelLookup::CurrentClass => panic!("expected exports"),
    }
}

fn pairs(v: &[(&str, &str)]) -> Vec<(String, String)> {
    v.iter().map(|(a, b)| ((*a).to_owned(), (*b).to_owned())).collect()
}

#[test]
fn test_auth_user_model_configures_http_request_user() {
    let mut config = FrameworkConfig::new();
    config.set_option("django", "settings-module", "project.settings".to_owned());
    let settings = django_settings_module(&config, None);
    assert_eq!(settings.as_deref(), Some("project.settings"));
    // project/settings.py: AUTH_USER_MODEL = 'accounts.User'
    let setting = AuthUserModelSetting::Label("accounts.User".to_owned());
    let label = match auth_user_model_source(settings.as_deref(), &setting) {
        AuthUserModelSource::Label(l) => l,
        other => panic!("unexpected {other:?}"),
    };
    assert_eq!(exports(model_label_lookup(&label, None)), pairs(&[("accounts.models", "User")]));
}

#[test]
fn test_settings_module_falls_back_to_the_environment() {
    let config = FrameworkConfig::new();
    assert_eq!(django_settings_module(&config, Some("env.settings".to_owned())).as_deref(), Some("env.settings"));
    assert_eq!(django_settings_module(&config, None), None);
    let mut config = FrameworkConfig::new();
    config.set_option("django", "settings-module", "cfg.settings".to_owned());
    assert_eq!(django_settings_module(&config, Some("env.settings".to_owned())).as_deref(), Some("cfg.settings"));
}

#[test]
fn test_auth_user_model_sources() {
    assert!(matches!(auth_user_model_source(None, &AuthUserModelSetting::Label("a.B".to_owned())), AuthUserModelSource::Default));
    assert!(matches!(auth_user_model_source(Some("s"), &AuthUserModelSetting::Missing), AuthUserModelSource::Default));
    assert!(matches!(auth_user_model_source(Some("s"), &AuthUserModelSetting::Other), AuthUserModelSource::Unknown));
}

#[test]
fn test_model_label_lookups() {
    assert!(matches!(model_label_lookup("self", Some("shop.models")), ModelLabelLookup::CurrentClass));
    assert!(exports(model_label_lookup("self", None)).is_empty());
    assert_eq!(exports(model_label_lookup("Author", Some("shop.models"))), pairs(&[("shop.models", "Author")]));
    assert!(exports(model_label_lookup("Author", None)).is_empty());
    assert_eq!(
        exports(model_label_lookup("auth.User", Some("shop.models"))),
        pairs(&[("django.contrib.auth.models", "User"), ("shop.models", "User")])
    );
    assert_eq!(
        exports(model_label_lookup("a.b.Model", None)),
        pairs(&[("a.b.models", "Model")])
    );
}

#[test]
fn test_user_model_alias_and_setting_expressions() {
    assert!(is_user_model_alias("django.contrib.auth.models", "_User"));
    assert!(!is_user_model_alias("django.contrib.auth.models", "User"));
    assert!(!is_user_model_alias("django.contrib.auth", "_User"));
    let e = Expr::Attribute { value: Box::new(Expr::Name("settings".to_owned())), attr: "AUTH_USER_MODEL".to_owned() };
    assert!(matches!(auth_user_model_setting_object(&e), Some(Expr::Name(n)) if n == "settings"));
    let other = Expr::Attribute { value: Box::new(Expr::Name("settings".to_owned())), attr: "DEBUG".to_owned() };
    assert!(auth_user_model_setting_object(&other).is_none());
    let lazy = ClassRef { module: "django.conf".to_owned(), name: "LazySettings".to_owned(), toplevel: true, index: 0 };
    assert!(is_lazy_settings(&lazy));
}

#[test]
fn test_target_kinds() {
    assert!(matches!(target_kind(&Expr::Name("Author".to_owned())), TargetKind::Inferred));
    assert!(matches!(target_kind(&Expr::StringLiteral("app.Author".to_owned())), TargetKind::Label(l) if l == "app.Author"));
    assert!(matches!(target_kind(&Expr::NoneLiteral), TargetKind::Unsupported));
}

#[test]
fn test_manager_field_types_are_preserved_on_models() {
    let base = ClassRef { module: "django.db.models.manager".to_owned(), name: "BaseManager".to_owned(), toplevel: true, index: 0 };
    let custom = ClassRef { module: "shop.models".to_owned(), name: "BookManager".to_owned(), toplevel: true, index: 1 };
    assert!(should_preserve_inferred_class_field_type(true, Some(&base), &vec![]));
    let base2 = ClassRef { module: "django.db.models.manager".to_owned(), name: "BaseManager".to_owned(), toplevel: true, index: 0 };
    assert!(should_preserve_inferred_class_field_type(true, Some(&custom), &vec![base2]));
    assert!(!should_preserve_inferred_class_field_type(true, Some(&custom), &vec![]));
    assert!(!should_preserve_inferred_class_field_type(false, Some(&base), &vec![]));
    assert!(!should_preserve_inferred_class_field_type(true, None, &vec![]));
}
