//! Django `Choices` enums: members whose values are `(value, label)` tuples,
//! and the `label`, `labels`, `values` and `choices` attributes Django adds.
use vstd::prelude::*;

use crate::django_model::{ClassRef, has_toplevel_qname, is_toplevel_qname};
use crate::text::concat3;

verus! {

/// A base class is `django.db.models.enums.Choices`, or an enum the checker
/// marked as a Django enum.
pub open spec fn spec_is_django_choices_subclass(bases: Seq<(ClassRef, bool)>) -> bool {
    exists|i: int|
        0 <= i < bases.len() && (has_toplevel_qname(
            (#[trigger] bases[i]).0,
            "django.db.models.enums"@,
            "Choices"@,
        ) || bases[i].1)
}

/// Whether a class with these bases is a Django `Choices` enum. Each base
/// comes with whether its enum metadata marks it as a Django enum.
pub fn is_django_choices_subclass(bases: &Vec<(ClassRef, bool)>) -> (r: bool)
    ensures
        r == spec_is_django_choices_subclass(bases@),
{
    let mut i: usize = 0;
    while i < bases.len()
        invariant
            i <= bases@.len(),
            forall|j: int|
                0 <= j < i ==> !(has_toplevel_qname(
                    (#[trigger] bases@[j]).0,
                    "django.db.models.enums"@,
                    "Choices"@,
                ) || bases@[j].1),
        decreases bases@.len() - i,
    {
        if is_toplevel_qname(&bases[i].0, "django.db.models.enums", "Choices") || bases[i].1 {
            return true;
        }
        i = i + 1;
    }
    false
}

/// The type of an enum member's value.
#[derive(Debug)]
pub enum EnumValueType<T> {
    /// A tuple of known length, with the types of its elements.
    ConcreteTuple(Vec<T>),
    /// Any other type.
    Other(T),
}

/// Strip the label element from a Django enum tuple value.
/// Django `Choices` enums use `(value, label)` tuples; this strips the last
/// element (the label) of a tuple of at least two elements and returns the
/// remaining value portion. Any other type is returned unchanged.
pub fn transform_django_enum_value<T>(ty: EnumValueType<T>) -> (r: EnumValueType<T>)
    ensures
        match ty {
            EnumValueType::ConcreteTuple(es) => if es@.len() >= 2 {
                r matches EnumValueType::ConcreteTuple(vs) && vs@ == es@.drop_last()
            } else {
                r == ty
            },
            EnumValueType::Other(_) => r == ty,
        },
{
    match ty {
        EnumValueType::ConcreteTuple(mut es) => {
            if es.len() >= 2 {
                let _ = es.pop();
            }
            EnumValueType::ConcreteTuple(es)
        },
        other => other,
    }
}

/// The label of an enum member whose value is a tuple of at least two
/// elements: its last element.
pub open spec fn spec_enum_member_label<T>(value: EnumValueType<T>) -> Option<T> {
    match value {
        EnumValueType::ConcreteTuple(es) => if es@.len() >= 2 {
            Some(es@.last())
        } else {
            None
        },
        EnumValueType::Other(_) => None,
    }
}

/// The type of an enum member's label, when its value is a tuple of at least
/// two elements: the last one.
pub fn django_enum_member_label<T: Copy>(value: &EnumValueType<T>) -> (r: Option<T>)
    ensures
        r == spec_enum_member_label(*value),
{
    match value {
        EnumValueType::ConcreteTuple(es) => {
            if es.len() >= 2 {
                Some(es[es.len() - 1])
            } else {
                None
            }
        },
        EnumValueType::Other(_) => None,
    }
}

/// The present elements, in order.
pub open spec fn somes<T>(s: Seq<Option<T>>) -> Seq<T>
    decreases s.len(),
{
    if s.len() == 0 {
        Seq::empty()
    } else {
        match s.last() {
            Some(x) => somes(s.drop_last()).push(x),
            None => somes(s.drop_last()),
        }
    }
}

/// The members of a Django enum's label type: each member's custom label
/// type in member order; `str` when no member has one or some member lacks
/// one (the default label type); then the type of `__empty__`, if the enum
/// has that member.
pub open spec fn spec_enum_label_types<T>(
    member_labels: Seq<Option<T>>,
    str_type: T,
    empty_type: Option<T>,
) -> Seq<T> {
    let custom = somes(member_labels);
    let with_default = if custom.len() == 0 || custom.len() < member_labels.len() {
        custom.push(str_type)
    } else {
        custom
    };
    match empty_type {
        Some(e) => with_default.push(e),
        None => with_default,
    }
}

/// An attribute Django synthesizes on a `Choices` enum, for its label type
/// `L` and value type `V`.
#[derive(Debug, Clone, Copy, PartialEq, Eq)]
pub enum DjangoEnumField {
    /// `labels: list[L]`.
    Labels,
    /// The property `label: L`.
    Label,
    /// `values: list[V]`.
    Values,
    /// `choices: list[tuple[V, L]]`.
    Choices,
}

/// The attributes Django synthesizes on a `Choices` enum, in the order they
/// are added.
pub open spec fn spec_django_enum_fields() -> Seq<(Seq<char>, DjangoEnumField)> {
    seq![
        ("labels"@, DjangoEnumField::Labels),
        ("label"@, DjangoEnumField::Label),
        ("values"@, DjangoEnumField::Values),
        ("choices"@, DjangoEnumField::Choices),
    ]
}

/// The attributes Django synthesizes on a `Choices` enum and what they are
/// built from.
#[derive(Debug)]
pub struct DjangoEnumFields<T> {
    /// The attributes, named, in the order they are added.
    pub fields: Vec<(String, DjangoEnumField)>,
    /// The members of the union that is the label type.
    pub label_types: Vec<T>,
    /// The value type; `None` stands for an implicit `Any`, when the checker
    /// could not resolve the enum's `value`.
    pub value_type: Option<T>,
    /// Whether the values also admit `None`: the enum has `__empty__`.
    pub values_optional: bool,
}

/// The attributes Django synthesizes on a class, or `None` when the class is
/// not a Django enum. `member_labels` holds, for each member, the type of its
/// label (as `django_enum_member_label` finds it, once the checker promotes
/// implicit literals); `str_type` is `str`; `empty_type` is the type of the
/// `__empty__` member, if there is one; `value_type` is the resolved type of
/// the enum's `value` attribute.
pub fn get_django_enum_synthesized_fields<T: Copy>(
    is_django_enum: bool,
    member_labels: &Vec<Option<T>>,
    str_type: T,
    empty_type: Option<T>,
    value_type: Option<T>,
) -> (r: Option<DjangoEnumFields<T>>)
    ensures
        r is Some <==> is_django_enum,
        r matches Some(f) ==> f.fields@.map_values(|x: (String, DjangoEnumField)| (x.0@, x.1))
            == spec_django_enum_fields(),
        r matches Some(f) ==> f.label_types@ == spec_enum_label_types(
            member_labels@,
            str_type,
            empty_type,
        ) && f.value_type == value_type && f.values_optional == empty_type is Some,
{
    if !is_django_enum {
        return None;
    }
    let mut label_types: Vec<T> = Vec::new();
    let mut i: usize = 0;
    proof {
        assert(member_labels@.take(0) =~= Seq::<Option<T>>::empty());
    }
    while i < member_labels.len()
        invariant
            i <= member_labels@.len(),
            label_types@ == somes(member_labels@.take(i as int)),
            label_types@.len() <= i,
        decreases member_labels@.len() - i,
    {
        proof {
            assert(member_labels@.take(i + 1).drop_last() =~= member_labels@.take(i as int));
            assert(member_labels@.take(i + 1).last() == member_labels@[i as int]);
        }
        match member_labels[i] {
            Some(t) => {
                label_types.push(t);
            },
            None => {},
        }
        i = i + 1;
    }
    proof {
        assert(member_labels@.take(member_labels@.len() as int) =~= member_labels@);
    }
    if label_types.len() == 0 || label_types.len() < member_labels.len() {
        label_types.push(str_type);
    }
    let values_optional = match empty_type {
        Some(e) => {
            label_types.push(e);
            true
        },
        None => false,
    };
    let mut fields: Vec<(String, DjangoEnumField)> = Vec::new();
    fields.push((concat3("labels", "", ""), DjangoEnumField::Labels));
    fields.push((concat3("label", "", ""), DjangoEnumField::Label));
    fields.push((concat3("values", "", ""), DjangoEnumField::Values));
    fields.push((concat3("choices", "", ""), DjangoEnumField::Choices));
    proof {
        reveal_strlit("");
        assert(fields@.map_values(|x: (String, DjangoEnumField)| (x.0@, x.1)) =~= spec_django_enum_fields());
    }
    Some(DjangoEnumFields { fields, label_types, value_type, values_optional })
}

/// Only present elements are kept: fewer than all when one is missing.
proof fn lemma_somes_len<T>(s: Seq<Option<T>>)
    ensures
        somes(s).len() <= s.len(),
        (exists|i: int| 0 <= i < s.len() && #[trigger] s[i] is None) ==> somes(s).len() < s.len(),
    decreases s.len(),
{
    if s.len() > 0 {
        let init = s.drop_last();
        lemma_somes_len(init);
        if exists|i: int| 0 <= i < s.len() && #[trigger] s[i] is None {
            let i = choose|i: int| 0 <= i < s.len() && #[trigger] s[i] is None;
            if i < s.len() - 1 {
                assert(init[i] is None);
            }
        }
    }
}

/// The label type of a Django enum is never empty; it includes `str` when
/// some member has no custom label (or there is no member); and the type of
/// `__empty__` comes last when the enum has that member.
pub proof fn law_enum_label_types<T>(member_labels: Seq<Option<T>>, str_type: T, empty_type: Option<T>)
    ensures
        spec_enum_label_types(member_labels, str_type, empty_type).len() > 0,
        (member_labels.len() == 0 || exists|i: int|
            0 <= i < member_labels.len() && #[trigger] member_labels[i] is None) ==> spec_enum_label_types(
            member_labels,
            str_type,
            empty_type,
        ).contains(str_type),
        empty_type matches Some(e) ==> spec_enum_label_types(member_labels, str_type, empty_type).last()
            == e,
{
    lemma_somes_len(member_labels);
    let custom = somes(member_labels);
    if custom.len() == 0 || custom.len() < member_labels.len() {
        let with_default = custom.push(str_type);
        assert(with_default[custom.len() as int] == str_type);
        match empty_type {
            Some(e) => {
                assert(with_default.push(e)[custom.len() as int] == str_type);
            },
            None => {},
        }
    }
}

} // verus!
