use pyrefly_django::ast::{Expr, ExprCall, Keyword};
use pyrefly_django::django_fields::{
    DjangoFieldType, FieldClassView, FieldTypePlan, FieldTypeView, ForeignKeyFieldType, ThroughModel,
    UnionMemberView,
    get_django_field_type, extract_charfield_choices, foreign_key_related_class,
    get_django_field_type_from_class, get_pk_field_type, has_django_field_choices,
    inherits_from_django_field, is_char_field, is_django_field_blank, is_django_field_nullable,
    narrow_charfield_choices,
};
use pyrefly_django::django_model::{ClassRef, DjangoManagerClasses};

fn managers() -> DjangoManagerClasses {
    DjangoManagerClasses {
        related_manager: Some(class_ref("django.db.models.fields.related_descriptors", "RelatedManager")),
        many_related_manager: Some(class_ref("django.db.models.fields.related_descriptors", "ManyRelatedManager")),
        model: Some(class_ref("django.db.models.base", "Model")),
    }
}

fn class_ref(module: &str, name: &str) -> ClassRef {
    ClassRef { module: module.to_owned(), name: name.to_owned(), toplevel: true, index: 0 }
}

fn char_field() -> ClassRef {
    class_ref("django.db.models.fields", "CharField")
}

fn field_mro() -> Vec<ClassRef> {
    vec![class_ref("django.db.models.fields", "Field"), class_ref("builtins", "object")]
}

fn s(v: &str) -> Expr {
    Expr::StringLiteral(v.to_owned())
}

fn tuple(es: Vec<Expr>) -> Expr {
    Expr::Tuple(es)
}

fn field_call(args: Vec<Expr>, keywords: Vec<(&str, Expr)>) -> ExprCall {
    ExprCall {
        func: Box::new(Expr::Name("Field".to_owned())),
        args,
        keywords: keywords
            .into_iter()
            .map(|(k, v)| Keyword { arg: Some(k.to_owned()), value: v })
            .collect(),
    }
}

fn choices() -> Expr {
    tuple(vec![tuple(vec![s("A"), s("Label A")]), tuple(vec![s("B"), s("Label B")])])
}

#[test]
fn test_keyword_flags() {
    let c = field_call(
        vec![],
        vec![("null", Expr::BooleanLiteral(true)), ("blank", Expr::BooleanLiteral(false)), ("choices", Expr::Other)],
    );
    assert!(is_django_field_nullable(&c));
    assert!(!is_django_field_blank(&c));
    assert!(has_django_field_choices(&c));
    let plain = field_call(vec![], vec![("null", Expr::Name("x".to_owned()))]);
    assert!(!is_django_field_nullable(&plain));
    assert!(!has_django_field_choices(&plain));
}

#[test]
fn test_extract_inline_choices() {
    let c = field_call(vec![], vec![("choices", choices())]);
    assert_eq!(extract_charfield_choices(&c), Some(vec!["A".to_owned(), "B".to_owned()]));
    let empty = field_call(vec![], vec![("choices", tuple(vec![]))]);
    assert_eq!(extract_charfield_choices(&empty), None);
    let not_literal = field_call(vec![], vec![("choices", tuple(vec![tuple(vec![s("A")]), tuple(vec![Expr::Name("B".to_owned())])]))]);
    assert_eq!(extract_charfield_choices(&not_literal), None);
    let not_tuple = field_call(vec![], vec![("choices", Expr::Name("CHOICES".to_owned()))]);
    assert_eq!(extract_charfield_choices(&not_tuple), None);
    assert_eq!(extract_charfield_choices(&field_call(vec![], vec![])), None);
}

#[test]
fn test_only_non_blank_char_fields_narrow() {
    let init = Expr::Call(field_call(vec![], vec![("choices", choices())]));
    assert_eq!(narrow_charfield_choices(&char_field(), Some(&init)), Some(vec!["A".to_owned(), "B".to_owned()]));
    let blank = Expr::Call(field_call(vec![], vec![("choices", choices()), ("blank", Expr::BooleanLiteral(true))]));
    assert_eq!(narrow_charfield_choices(&char_field(), Some(&blank)), None);
    let text = class_ref("django.db.models.fields", "TextField");
    assert_eq!(narrow_charfield_choices(&text, Some(&init)), None);
    assert_eq!(narrow_charfield_choices(&char_field(), None), None);
    assert!(is_char_field(&char_field()));
}

#[test]
fn test_field_type_reads_the_private_get_type() {
    let init = Expr::Call(field_call(vec![], vec![("max_length", Expr::Other)]));
    let t = get_django_field_type_from_class(true, &char_field(), &field_mro(), true, Some(&init), None, None, Some("str"), &managers());
    assert!(matches!(t, Some(DjangoFieldType::Value { literals: None, base: "str", nullable: false })));
    // not a model, or not a field: no field type
    assert!(get_django_field_type_from_class(false, &char_field(), &field_mro(), true, Some(&init), None, None, Some("str"), &managers()).is_none());
    assert!(get_django_field_type_from_class(true, &char_field(), &vec![], true, Some(&init), None, None, Some("str"), &managers()).is_none());
    // no private get type: nothing
    assert!(get_django_field_type_from_class::<&str>(true, &char_field(), &field_mro(), true, Some(&init), None, None, None, &managers()).is_none());
}

#[test]
fn test_field_type_narrows_and_adds_none() {
    let init = Expr::Call(field_call(vec![], vec![("choices", choices()), ("null", Expr::BooleanLiteral(true))]));
    let t = get_django_field_type_from_class(true, &char_field(), &field_mro(), true, Some(&init), None, None, Some("str"), &managers());
    match t {
        Some(DjangoFieldType::Value { literals, base, nullable }) => {
            assert_eq!(literals, Some(vec!["A".to_owned(), "B".to_owned()]));
            assert_eq!(base, "str");
            assert!(nullable);
        }
        other => panic!("unexpected {other:?}"),
    }
}

#[test]
fn test_relation_fields_read_as_their_target() {
    let fk = class_ref("django.db.models.fields.related", "ForeignKey");
    let init = Expr::Call(field_call(vec![Expr::Name("Author".to_owned())], vec![("null", Expr::BooleanLiteral(true))]));
    let t = get_django_field_type_from_class(true, &fk, &field_mro(), true, Some(&init), Some("Author"), None, Some("Any"), &managers());
    assert!(matches!(t, Some(DjangoFieldType::Value { literals: None, base: "Author", nullable: true })));
    // without a field name the target is not read
    let t = get_django_field_type_from_class(true, &fk, &field_mro(), false, Some(&init), Some("Author"), None, Some("Any"), &managers());
    assert!(matches!(t, Some(DjangoFieldType::Value { base: "Any", .. })));
    // a keyword target is not read either
    let kw_init = Expr::Call(field_call(vec![], vec![("to", Expr::Name("Author".to_owned()))]));
    let t = get_django_field_type_from_class(true, &fk, &field_mro(), true, Some(&kw_init), Some("Author"), None, Some("Any"), &managers());
    assert!(matches!(t, Some(DjangoFieldType::Value { base: "Any", .. })));
    let m2m = class_ref("django.db.models.fields.related", "ManyToManyField");
    let t = get_django_field_type_from_class(true, &m2m, &field_mro(), true, Some(&init), Some("Tag"), Some("Through"), Some("Any"), &managers());
    assert!(matches!(&t, Some(DjangoFieldType::ManyRelatedManager { manager, target: "Tag", through: ThroughModel::Declared("Through") })
        if manager.name == "ManyRelatedManager"));
    // no through model declared: Django's `Model`
    let t = get_django_field_type_from_class(true, &m2m, &field_mro(), true, Some(&init), Some("Tag"), None, Some("Any"), &managers());
    assert!(matches!(&t, Some(DjangoFieldType::ManyRelatedManager { through: ThroughModel::Model(m), .. }) if m.name == "Model"));
    // the stubs lack `ManyRelatedManager`, or `Model` with no through model: no type
    let no_manager = DjangoManagerClasses { many_related_manager: None, ..managers() };
    assert!(get_django_field_type_from_class(true, &m2m, &field_mro(), true, Some(&init), Some("Tag"), Some("Through"), Some("Any"), &no_manager).is_none());
    let no_model = DjangoManagerClasses { model: None, ..managers() };
    assert!(get_django_field_type_from_class(true, &m2m, &field_mro(), true, Some(&init), Some("Tag"), None, Some("Any"), &no_model).is_none());
    assert!(get_django_field_type_from_class(true, &m2m, &field_mro(), true, Some(&init), Some("Tag"), Some("Through"), Some("Any"), &no_model).is_some());
}

#[test]
fn test_inherits_from_django_field() {
    assert!(inherits_from_django_field(&field_mro()));
    let nested = ClassRef { toplevel: false, ..class_ref("django.db.models.fields", "Field") };
    assert!(inherits_from_django_field(&vec![nested]));
    assert!(!inherits_from_django_field(&vec![class_ref("myapp", "Field")]));
}

#[test]
fn test_primary_key_type() {
    assert_eq!(get_pk_field_type(Some("UUID"), Some("int")), Some(("UUID", true)));
    assert_eq!(get_pk_field_type(None, Some("int")), Some(("int", false)));
    assert_eq!(get_pk_field_type::<&str>(None, None), None);
}

#[test]
fn test_foreign_key_related_class() {
    assert_eq!(foreign_key_related_class(true, &ForeignKeyFieldType::Class("Author")), Some(("Author", false)));
    assert_eq!(
        foreign_key_related_class(true, &ForeignKeyFieldType::Union(vec![None, Some("Author"), Some("Other")])),
        Some(("Author", true))
    );
    assert_eq!(foreign_key_related_class::<&str>(true, &ForeignKeyFieldType::Union(vec![None])), None);
    assert_eq!(foreign_key_related_class::<&str>(true, &ForeignKeyFieldType::Other), None);
    assert_eq!(foreign_key_related_class(false, &ForeignKeyFieldType::Class("Author")), None);
}

fn char_field_view() -> FieldClassView<&'static str> {
    FieldClassView { class: char_field(), mro: field_mro(), private_get_type: Some("str") }
}

#[test]
fn test_field_type_dispatch() {
    let init = Expr::Call(field_call(vec![], vec![]));
    let getter = get_django_field_type(&FieldTypeView::Getter(Some("int")), true, true, Some(&init), None, None, &managers());
    assert!(matches!(getter, Some(FieldTypePlan::Type("int"))));
    assert!(get_django_field_type::<&str>(&FieldTypeView::Getter(None), true, true, Some(&init), None, None, &managers()).is_none());
    let class = get_django_field_type(&FieldTypeView::Class(char_field_view()), true, true, Some(&init), None, None, &managers());
    assert!(matches!(class, Some(FieldTypePlan::Field(DjangoFieldType::Value { base: "str", .. }))));
    let class_def = get_django_field_type(&FieldTypeView::ClassDef(char_field_view()), true, true, Some(&init), None, None, &managers());
    assert!(matches!(class_def, Some(FieldTypePlan::Field(_))));
    assert!(get_django_field_type::<&str>(&FieldTypeView::Other, true, true, Some(&init), None, None, &managers()).is_none());
    // not a model: nothing
    assert!(get_django_field_type(&FieldTypeView::Class(char_field_view()), false, true, Some(&init), None, None, &managers()).is_none());
}

#[test]
fn test_field_type_of_a_union() {
    let init = Expr::Call(field_call(vec![], vec![]));
    let member = |m, differs| UnionMemberView { member: m, built_differs: differs };
    let union = FieldTypeView::Union(vec![member(FieldTypeView::Class(char_field_view()), true), member(FieldTypeView::Other, false)]);
    match get_django_field_type(&union, true, true, Some(&init), None, None, &managers()) {
        Some(FieldTypePlan::Union(members)) => {
            assert_eq!(members.len(), 2);
            assert!(matches!(members[0], Some(FieldTypePlan::Field(_))));
            assert!(members[1].is_none());
        }
        other => panic!("unexpected {other:?}"),
    }
    // no member changes: the union stays as it is
    let unchanged: FieldTypeView<&str> = FieldTypeView::Union(vec![member(FieldTypeView::Other, false), member(FieldTypeView::Getter(None), false)]);
    assert!(get_django_field_type(&unchanged, true, true, Some(&init), None, None, &managers()).is_none());
    // `x: F | None = F()` where `F` reads as `F` itself: planned, but the built
    // type is the member, so the union stays as it is
    let same = FieldTypeView::Union(vec![member(FieldTypeView::Class(char_field_view()), false), member(FieldTypeView::Other, false)]);
    assert!(get_django_field_type(&same, true, true, Some(&init), None, None, &managers()).is_none());
}
