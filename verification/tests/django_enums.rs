use pyrefly_django::django_enums::{
    DjangoEnumField, EnumValueType, django_enum_member_label,
    get_django_enum_synthesized_fields, is_django_choices_subclass, transform_django_enum_value,
};
use pyrefly_django::django_model::ClassRef;

fn class_ref(module: &str, name: &str, toplevel: bool) -> ClassRef {
    ClassRef { module: module.to_owned(), name: name.to_owned(), toplevel, index: 0 }
}

#[test]
fn test_choices_subclass() {
    let choices = class_ref("django.db.models.enums", "Choices", true);
    assert!(is_django_choices_subclass(&vec![(class_ref("enum", "Enum", true), false), (choices, false)]));
    assert!(is_django_choices_subclass(&vec![(class_ref("myapp", "Status", true), true)]));
    assert!(!is_django_choices_subclass(&vec![(class_ref("enum", "Enum", true), false)]));
    assert!(!is_django_choices_subclass(&vec![(class_ref("django.db.models.enums", "Choices", false), false)]));
    assert!(!is_django_choices_subclass(&vec![]));
}

#[test]
fn test_transform_strips_the_label() {
    match transform_django_enum_value(EnumValueType::ConcreteTuple(vec!["int", "str", "Label"])) {
        EnumValueType::ConcreteTuple(v) => assert_eq!(v, vec!["int", "str"]),
        other => panic!("unexpected {other:?}"),
    }
    match transform_django_enum_value(EnumValueType::ConcreteTuple(vec!["int"])) {
        EnumValueType::ConcreteTuple(v) => assert_eq!(v, vec!["int"]),
        other => panic!("unexpected {other:?}"),
    }
    assert!(matches!(transform_django_enum_value(EnumValueType::Other("int")), EnumValueType::Other("int")));
}

#[test]
fn test_member_label_is_the_last_tuple_element() {
    assert_eq!(django_enum_member_label(&EnumValueType::ConcreteTuple(vec!["int", "Lbl"])), Some("Lbl"));
    assert_eq!(django_enum_member_label(&EnumValueType::ConcreteTuple(vec!["int"])), None);
    assert_eq!(django_enum_member_label(&EnumValueType::Other("int")), None);
}

#[test]
fn test_label_types() {
    // every member has a custom label: no default `str`
    let f = get_django_enum_synthesized_fields(true, &vec![Some("L1"), Some("L2")], "str", None, Some("int")).unwrap();
    assert_eq!(f.label_types, vec!["L1", "L2"]);
    assert_eq!(f.value_type, Some("int"));
    assert!(!f.values_optional);
    // one member without a label: `str` joins
    let f = get_django_enum_synthesized_fields(true, &vec![Some("L1"), None], "str", None, None).unwrap();
    assert_eq!(f.label_types, vec!["L1", "str"]);
    // no member at all: `str`
    let f = get_django_enum_synthesized_fields::<&str>(true, &vec![], "str", None, None).unwrap();
    assert_eq!(f.label_types, vec!["str"]);
    // `__empty__` adds its type and makes values optional
    let f = get_django_enum_synthesized_fields(true, &vec![Some("L1")], "str", Some("E"), Some("int")).unwrap();
    assert_eq!(f.label_types, vec!["L1", "E"]);
    assert!(f.values_optional);
    assert!(get_django_enum_synthesized_fields(false, &vec![Some("L1")], "str", None, None).is_none());
    let names = f.fields.iter().map(|(n, k)| (n.as_str(), *k)).collect::<Vec<_>>();
    assert_eq!(
        names,
        vec![
            ("labels", DjangoEnumField::Labels),
            ("label", DjangoEnumField::Label),
            ("values", DjangoEnumField::Values),
            ("choices", DjangoEnumField::Choices),
        ]
    );
}
