use pyrefly_django::ast::{Expr, ExprCall, Keyword, ModModule, Stmt};
use pyrefly_django::django_index::{DjangoModuleData, DjangoRelationIndex, django_scan};
use pyrefly_django::django_model::{
    ClassRef, DjangoManagerClasses, RelatedType, RelationFieldDecl, SynthesizedField,
    django_relation_kind, get_django_model_synthesized_fields, is_foreign_key_like_field,
    is_many_to_many_field, is_one_to_one_field, reverse_fields_of,
    solve_django_reverse_relations,
};
use pyrefly_django::related_name::DjangoRelationKind;
use starlark_map::small_map::SmallMap;

const RELATED: &str = "django.db.models.fields.related";

fn class_ref(module: &str, name: &str, index: u32) -> ClassRef {
    ClassRef { module: module.to_owned(), name: name.to_owned(), toplevel: true, index }
}

fn field_class(name: &str) -> ClassRef {
    class_ref(RELATED, name, 0)
}

fn managers() -> DjangoManagerClasses {
    DjangoManagerClasses {
        related_manager: Some(class_ref(
            "django.db.models.fields.related_descriptors",
            "RelatedManager",
            0,
        )),
        many_related_manager: Some(class_ref(
            "django.db.models.fields.related_descriptors",
            "ManyRelatedManager",
            1,
        )),
        model: Some(class_ref("django.db.models.base", "Model", 0)),
    }
}

fn kw(arg: &str, value: Expr) -> Keyword {
    Keyword { arg: Some(arg.to_owned()), value }
}

fn on_delete() -> Keyword {
    kw(
        "on_delete",
        Expr::Attribute { value: Box::new(Expr::Name("models".to_owned())), attr: "CASCADE".to_owned() },
    )
}

/// `models.<field>(<target>, on_delete=models.CASCADE, extra...)`
fn relation_call(field: &str, target: &str, extra: Vec<Keyword>) -> ExprCall {
    let mut keywords = vec![on_delete()];
    keywords.extend(extra);
    ExprCall {
        func: Box::new(Expr::Attribute {
            value: Box::new(Expr::Name("models".to_owned())),
            attr: field.to_owned(),
        }),
        args: vec![Expr::Name(target.to_owned())],
        keywords,
    }
}

fn decl(source: ClassRef, field: &str, target: ClassRef, extra: Vec<Keyword>) -> RelationFieldDecl {
    let call = relation_call(field, &target.name, extra);
    RelationFieldDecl {
        source,
        source_is_model: true,
        call,
        field_class: Some(field_class(field)),
        target: Some(target),
        through: None,
    }
}

fn accessor_names(fields: Option<&Vec<(String, RelatedType)>>) -> Vec<String> {
    fields.map(|v| v.iter().map(|(n, _)| n.clone()).collect()).unwrap_or_default()
}

#[test]
fn test_foreign_key_reverse_invalid_identifier_synthesizes_nothing() {
    let author = || class_ref("main", "Author", 0);
    let decls = vec![
        decl(
            class_ref("main", "Book", 1),
            "ForeignKey",
            author(),
            vec![kw("related_name", Expr::StringLiteral("written_books".to_owned()))],
        ),
        decl(
            class_ref("main", "Magazine", 2),
            "ForeignKey",
            author(),
            vec![kw("related_name", Expr::StringLiteral("123articles".to_owned()))],
        ),
    ];
    let relations = solve_django_reverse_relations(&decls, &managers());
    let reverse = reverse_fields_of(&relations, &author());
    let fields = get_django_model_synthesized_fields(
        true,
        Some(("int", false)),
        &vec![],
        &vec![],
        reverse,
    )
    .unwrap();
    let mut names = fields.iter().map(|(name, _)| name.as_str()).collect::<Vec<_>>();
    names.sort();
    // `123articles` is dropped entirely rather than synthesized under an unusable name.
    assert_eq!(names, vec!["id", "pk", "written_books"]);
}

#[test]
fn test_foreign_key_reverse_from_several_modules() {
    let author = || class_ref("author", "Author", 0);
    // Each source module solves its own relations.
    let library = solve_django_reverse_relations(
        &vec![decl(class_ref("library", "Book", 0), "ForeignKey", author(), vec![])],
        &managers(),
    );
    let press = solve_django_reverse_relations(
        &vec![decl(class_ref("press", "Magazine", 0), "ForeignKey", author(), vec![])],
        &managers(),
    );
    // The routing table sends `Author` to both source modules.
    let scan_of = |cls: &str| {
        django_scan(&ModModule {
            body: vec![Stmt::ClassDef {
                name: cls.to_owned(),
                body: vec![Stmt::Assign { value: Expr::Call(relation_call("ForeignKey", "Author", vec![])) }],
            }],
        })
    };
    let mut modules = SmallMap::new();
    modules.insert(
        "library.py".to_owned(),
        DjangoModuleData { module_name: "library".to_owned(), relation_targets: scan_of("Book") },
    );
    modules.insert(
        "press.py".to_owned(),
        DjangoModuleData { module_name: "press".to_owned(), relation_targets: scan_of("Magazine") },
    );
    let index = DjangoRelationIndex::new(modules);
    let routed = index.modules_for_relation_target("Author");
    assert_eq!(routed.len(), 2);
    let mut merged: Vec<(String, RelatedType)> = Vec::new();
    for (module_name, _) in &routed {
        let relations = if module_name == "library" { &library } else { &press };
        if let Some(fields) = reverse_fields_of(relations, &author()) {
            for (n, ty) in fields {
                merged.push((n.clone(), match ty {
                    RelatedType::RelatedManager { manager, source } => RelatedType::RelatedManager {
                        manager: class_ref(&manager.module, &manager.name, manager.index),
                        source: class_ref(&source.module, &source.name, source.index),
                    },
                    RelatedType::Instance(c) => RelatedType::Instance(class_ref(&c.module, &c.name, c.index)),
                    RelatedType::ManyRelatedManager { manager, source, through } => {
                        RelatedType::ManyRelatedManager {
                            manager: class_ref(&manager.module, &manager.name, manager.index),
                            source: class_ref(&source.module, &source.name, source.index),
                            through: class_ref(&through.module, &through.name, through.index),
                        }
                    }
                }));
            }
        }
    }
    let fields =
        get_django_model_synthesized_fields(true, Some(("int", false)), &vec![], &vec![], Some(&merged))
            .unwrap();
    let names = fields.iter().map(|(n, _)| n.as_str()).collect::<Vec<_>>();
    assert!(
        names.contains(&"book_set") && names.contains(&"magazine_set"),
        "accessors from both source modules should exist: {:?}",
        names
    );
}

#[test]
fn test_same_named_models_do_not_share_reverse_accessors() {
    let other_author = || class_ref("other", "Author", 0);
    let author_author = class_ref("author", "Author", 0);
    let relations = solve_django_reverse_relations(
        &vec![decl(class_ref("other", "Note", 1), "ForeignKey", other_author(), vec![])],
        &managers(),
    );
    assert_eq!(accessor_names(reverse_fields_of(&relations, &other_author())), vec!["note_set"]);
    let shown = accessor_names(reverse_fields_of(&relations, &author_author));
    assert!(
        shown.is_empty(),
        "`note_set` belongs to `other.Author`, not `author.Author`: {shown:?}"
    );
}

#[test]
fn test_mutually_referencing_modules() {
    let right = || class_ref("right", "Right", 0);
    let left_relations = solve_django_reverse_relations(
        &vec![decl(class_ref("left", "Left", 0), "ForeignKey", right(), vec![])],
        &managers(),
    );
    let right_relations = solve_django_reverse_relations(&vec![], &managers());
    let shown = accessor_names(reverse_fields_of(&left_relations, &right()));
    assert_eq!(shown, vec!["left_set"], "{shown:?}");
    assert!(right_relations.is_empty());
}

#[test]
fn test_reverse_accessor_types_by_relation_kind() {
    let target = || class_ref("m", "Author", 0);
    let source = || class_ref("m", "Book", 1);
    let decls = vec![
        decl(source(), "ForeignKey", target(), vec![]),
        decl(source(), "OneToOneField", target(), vec![]),
        decl(source(), "ManyToManyField", target(), vec![kw("related_name", Expr::StringLiteral("fans".to_owned()))]),
    ];
    let relations = solve_django_reverse_relations(&decls, &managers());
    let fields = reverse_fields_of(&relations, &target()).unwrap();
    assert_eq!(accessor_names(Some(fields)), vec!["book_set", "book", "fans"]);
    assert!(matches!(&fields[0].1, RelatedType::RelatedManager { manager, source }
        if manager.name == "RelatedManager" && source.name == "Book"));
    assert!(matches!(&fields[1].1, RelatedType::Instance(c) if c.name == "Book"));
    assert!(matches!(&fields[2].1, RelatedType::ManyRelatedManager { through, .. }
        if through.name == "Model"));
}

#[test]
fn test_related_name_plus_disables_the_accessor() {
    let relations = solve_django_reverse_relations(
        &vec![decl(
            class_ref("m", "Book", 1),
            "ForeignKey",
            class_ref("m", "Author", 0),
            vec![kw("related_name", Expr::StringLiteral("+".to_owned()))],
        )],
        &managers(),
    );
    assert!(relations.is_empty());
}

#[test]
fn test_symmetrical_self_many_to_many_adds_no_accessor() {
    let person = || class_ref("m", "Person", 0);
    let plain = solve_django_reverse_relations(
        &vec![decl(person(), "ManyToManyField", person(), vec![])],
        &managers(),
    );
    assert!(plain.is_empty());
    let asymmetric = solve_django_reverse_relations(
        &vec![decl(person(), "ManyToManyField", person(), vec![kw("symmetrical", Expr::BooleanLiteral(false))])],
        &managers(),
    );
    assert_eq!(accessor_names(reverse_fields_of(&asymmetric, &person())), vec!["person_set"]);
}

#[test]
fn test_keyword_target_synthesizes_no_accessor() {
    let mut d = decl(class_ref("m", "Book", 1), "ForeignKey", class_ref("m", "Author", 0), vec![]);
    d.call.args.clear();
    d.call.keywords.push(kw("to", Expr::Name("Author".to_owned())));
    assert!(solve_django_reverse_relations(&vec![d], &managers()).is_empty());
}

#[test]
fn test_non_model_source_and_non_relation_fields_add_nothing() {
    let mut not_model = decl(class_ref("m", "Book", 1), "ForeignKey", class_ref("m", "Author", 0), vec![]);
    not_model.source_is_model = false;
    let char_field = RelationFieldDecl {
        field_class: Some(class_ref("django.db.models.fields", "CharField", 0)),
        ..decl(class_ref("m", "Book", 1), "ForeignKey", class_ref("m", "Author", 0), vec![])
    };
    assert!(solve_django_reverse_relations(&vec![not_model, char_field], &managers()).is_empty());
}

#[test]
fn test_later_accessor_of_the_same_name_replaces_the_earlier() {
    let target = || class_ref("m", "Author", 0);
    let decls = vec![
        decl(class_ref("m", "Book", 1), "ForeignKey", target(), vec![kw("related_name", Expr::StringLiteral("items".to_owned()))]),
        decl(class_ref("m", "Note", 2), "OneToOneField", target(), vec![kw("related_name", Expr::StringLiteral("items".to_owned()))]),
    ];
    let relations = solve_django_reverse_relations(&decls, &managers());
    let fields = reverse_fields_of(&relations, &target()).unwrap();
    assert_eq!(fields.len(), 1);
    assert!(matches!(&fields[0].1, RelatedType::Instance(c) if c.name == "Note"));
}

#[test]
fn test_relation_kind_of_field_classes() {
    assert_eq!(django_relation_kind(&field_class("ForeignKey")), Some(DjangoRelationKind::ForeignKey));
    assert_eq!(django_relation_kind(&field_class("OneToOneField")), Some(DjangoRelationKind::OneToOne));
    assert_eq!(django_relation_kind(&field_class("ManyToManyField")), Some(DjangoRelationKind::ManyToMany));
    assert_eq!(django_relation_kind(&class_ref("myapp.fields", "ForeignKey", 0)), None);
    let mut nested = field_class("ForeignKey");
    nested.toplevel = false;
    assert_eq!(django_relation_kind(&nested), None);
    assert!(is_foreign_key_like_field(&field_class("OneToOneField")));
    assert!(is_one_to_one_field(&field_class("OneToOneField")));
    assert!(!is_many_to_many_field(&field_class("ForeignKey")));
}

#[test]
fn test_model_synthesized_fields_in_order() {
    let fields = get_django_model_synthesized_fields(
        true,
        Some(("int", false)),
        &vec![("author".to_owned(), Some("int")), ("editor".to_owned(), None)],
        &vec!["status".to_owned()],
        None,
    )
    .unwrap();
    let names = fields.iter().map(|(n, _)| n.as_str()).collect::<Vec<_>>();
    assert_eq!(names, vec!["id", "pk", "author_id", "get_status_display"]);
    assert!(matches!(fields[2].1, SynthesizedField::Attribute("int")));
    assert!(matches!(fields[3].1, SynthesizedField::DisplayMethod));
}

#[test]
fn test_custom_primary_key_synthesizes_no_id() {
    let fields = get_django_model_synthesized_fields(true, Some(("str", true)), &vec![], &vec![], None)
        .unwrap();
    let names = fields.iter().map(|(n, _)| n.as_str()).collect::<Vec<_>>();
    assert_eq!(names, vec!["pk"]);
    assert!(get_django_model_synthesized_fields::<&str>(false, None, &vec![], &vec![], None).is_none());
    let no_pk = get_django_model_synthesized_fields::<&str>(true, None, &vec![], &vec![], None).unwrap();
    assert!(no_pk.is_empty());
}

#[test]
fn test_scan_and_solver_agree_on_relation_constructors() {
    for (constructor, kind) in [
        ("ForeignKey", Some(DjangoRelationKind::ForeignKey)),
        ("OneToOneField", Some(DjangoRelationKind::OneToOne)),
        ("ManyToManyField", Some(DjangoRelationKind::ManyToMany)),
        ("CharField", None),
        ("ForeignObject", None),
    ] {
        assert_eq!(django_relation_kind(&field_class(constructor)), kind);
        let scan = django_scan(&ModModule {
            body: vec![Stmt::ClassDef {
                name: "B".to_owned(),
                body: vec![Stmt::Assign { value: Expr::Call(relation_call(constructor, "Author", vec![])) }],
            }],
        });
        assert_eq!(scan.is_empty(), kind.is_none(), "{constructor}");
    }
}
