use pyrefly_django::ast::{Expr, ExprCall, Keyword};
use pyrefly_django::identifier::is_python_identifier;
use pyrefly_django::related_name::{
    DjangoRelationKind, app_label, django_default_related_name, django_related_name,
    format_related_name, is_symmetrical_self_m2m, render_related_name,
};

fn call_with(keywords: Vec<(&str, Expr)>) -> ExprCall {
    ExprCall {
        func: Box::new(Expr::Name("ForeignKey".to_owned())),
        args: vec![Expr::Name("Author".to_owned())],
        keywords: keywords
            .into_iter()
            .map(|(k, v)| Keyword { arg: Some(k.to_owned()), value: v })
            .collect(),
    }
}

#[test]
fn test_default_related_names() {
    assert_eq!(django_default_related_name("Book", DjangoRelationKind::ForeignKey), "book_set");
    assert_eq!(django_default_related_name("Book", DjangoRelationKind::ManyToMany), "book_set");
    assert_eq!(django_default_related_name("BookEntry", DjangoRelationKind::OneToOne), "bookentry");
}

#[test]
fn test_default_related_name_lowercases_unicode() {
    assert_eq!(django_default_related_name("ÜberBook", DjangoRelationKind::ForeignKey), "überbook_set");
}

#[test]
fn test_related_name_placeholders() {
    assert_eq!(
        format_related_name("%(app_label)s_%(class)s_books", "Book", "myapp.models").as_deref(),
        Some("myapp_book_books")
    );
    assert_eq!(
        format_related_name("%(class)s_items", "OrderLine", "shop.models.lines").as_deref(),
        Some("orderline_items")
    );
    assert_eq!(
        format_related_name("%(app_label)s_x", "Book", "Shop.models.lines").as_deref(),
        Some("shop_x")
    );
    // no `models` component: the app label placeholder cannot be filled
    assert_eq!(format_related_name("%(app_label)s_x", "Book", "main"), None);
    // an unknown placeholder is left in place, which is no identifier
    assert_eq!(format_related_name("%(other)s", "Book", "myapp.models"), None);
}

#[test]
fn test_related_name_plus_and_invalid_identifiers() {
    assert_eq!(format_related_name("+", "Book", "myapp.models"), None);
    assert_eq!(format_related_name("books+", "Book", "myapp.models"), None);
    assert_eq!(format_related_name("123articles", "Book", "myapp.models"), None);
    assert_eq!(format_related_name("", "Book", "myapp.models"), None);
    assert_eq!(format_related_name("written_books", "Book", "main").as_deref(), Some("written_books"));
}

#[test]
fn test_render_related_name_takes_lowered_parts() {
    assert_eq!(render_related_name("%(class)s", "book", None).as_deref(), Some("book"));
    assert_eq!(render_related_name("%(app_label)s", "book", Some("shop")).as_deref(), Some("shop"));
    assert_eq!(render_related_name("%(app_label)s", "book", None), None);
}

#[test]
fn test_app_label_is_the_package_of_the_last_models_component() {
    assert_eq!(app_label("myapp.models").as_deref(), Some("myapp"));
    assert_eq!(app_label("a.b.models.c").as_deref(), Some("b"));
    assert_eq!(app_label("a.models.b.models").as_deref(), Some("b"));
    assert_eq!(app_label("models"), None);
    assert_eq!(app_label("main"), None);
}

#[test]
fn test_related_name_keyword_forms() {
    let kind = DjangoRelationKind::ForeignKey;
    assert_eq!(django_related_name(&call_with(vec![]), "Book", "m", kind).as_deref(), Some("book_set"));
    assert_eq!(
        django_related_name(&call_with(vec![("related_name", Expr::NoneLiteral)]), "Book", "m", kind).as_deref(),
        Some("book_set")
    );
    assert_eq!(
        django_related_name(
            &call_with(vec![("related_name", Expr::StringLiteral("books".to_owned()))]),
            "Book",
            "m",
            kind
        )
        .as_deref(),
        Some("books")
    );
    assert_eq!(
        django_related_name(&call_with(vec![("related_name", Expr::Name("X".to_owned()))]), "Book", "m", kind),
        None
    );
}

#[test]
fn test_symmetrical_self_many_to_many() {
    assert!(is_symmetrical_self_m2m(&call_with(vec![]), true));
    assert!(!is_symmetrical_self_m2m(&call_with(vec![]), false));
    assert!(is_symmetrical_self_m2m(&call_with(vec![("symmetrical", Expr::NoneLiteral)]), true));
    assert!(is_symmetrical_self_m2m(&call_with(vec![("symmetrical", Expr::BooleanLiteral(true))]), true));
    assert!(!is_symmetrical_self_m2m(&call_with(vec![("symmetrical", Expr::BooleanLiteral(false))]), true));
    assert!(!is_symmetrical_self_m2m(&call_with(vec![("symmetrical", Expr::Name("flag".to_owned()))]), true));
}

#[test]
fn test_python_identifiers() {
    assert!(is_python_identifier("written_books"));
    assert!(is_python_identifier("_x1"));
    assert!(is_python_identifier("überbook_set"));
    assert!(is_python_identifier("名前"));
    assert!(!is_python_identifier("123articles"));
    assert!(!is_python_identifier(""));
    assert!(!is_python_identifier("a-b"));
    assert!(!is_python_identifier("written.poems"));
    assert!(!is_python_identifier(" written_books "));
    assert!(!is_python_identifier("%(class)s"));
}
