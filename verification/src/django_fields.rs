//! The value types of Django model fields: what a field assigned in a model
//! body reads as on an instance.
//!
//! The checker infers and resolves; the decisions that follow from what it
//! found are made here.
use vstd::prelude::*;

use crate::ast::{
    Expr, ExprCall, find_keyword, has_keyword_true, spec_find_keyword, spec_has_keyword_true,
};
use crate::collections::strings;
use crate::django_model::{
    ClassRef, DjangoManagerClasses, copy_class, has_toplevel_qname, is_foreign_key_like_field, is_many_to_many_field,
    is_toplevel_qname, spec_is_foreign_key_like_field, spec_is_many_to_many_field,
};
use crate::text::str_eq;

verus! {

/// The class is named `name` in module `module`, wherever in the module it is
/// defined.
pub open spec fn has_qname(c: ClassRef, module: Seq<char>, name: Seq<char>) -> bool {
    c.module@ == module && c.name@ == name
}

/// Whether the class is named `name` in module `module`.
pub fn is_qname(c: &ClassRef, module: &str, name: &str) -> (r: bool)
    ensures
        r == has_qname(*c, module@, name@),
{
    str_eq(c.module.as_str(), module) && str_eq(c.name.as_str(), name)
}

/// Check if a Django field has a `choices` argument.
pub fn has_django_field_choices(call: &ExprCall) -> (r: bool)
    ensures
        r == spec_find_keyword(call.keywords@, "choices"@) is Some,
{
    let r = find_keyword(call, "choices").is_some();
    proof {
        reveal_strlit("choices");
    }
    r
}

/// Check if a Django field has `null=True`.
pub fn is_django_field_nullable(call: &ExprCall) -> (r: bool)
    ensures
        r == spec_has_keyword_true(*call, "null"@),
{
    let r = has_keyword_true(call, "null");
    proof {
        reveal_strlit("null");
    }
    r
}

/// Check if a Django field has `blank=True`.
pub fn is_django_field_blank(call: &ExprCall) -> (r: bool)
    ensures
        r == spec_has_keyword_true(*call, "blank"@),
{
    let r = has_keyword_true(call, "blank");
    proof {
        reveal_strlit("blank");
    }
    r
}

/// `CharField` of Django's fields module.
pub open spec fn spec_is_char_field(field: ClassRef) -> bool {
    has_toplevel_qname(field, "django.db.models.fields"@, "CharField"@)
}

/// Check if a Django field is a CharField.
pub fn is_char_field(field: &ClassRef) -> (r: bool)
    ensures
        r == spec_is_char_field(*field),
{
    is_toplevel_qname(field, "django.db.models.fields", "CharField")
}

/// Some class of the method resolution order is Django's `Field`.
pub open spec fn spec_inherits_from_django_field(mro: Seq<ClassRef>) -> bool {
    exists|i: int| 0 <= i < mro.len() && has_qname(#[trigger] mro[i], "django.db.models.fields"@, "Field"@)
}

/// Check if a class, given by its ancestors, inherits from Django's `Field`.
pub fn inherits_from_django_field(mro: &Vec<ClassRef>) -> (r: bool)
    ensures
        r == spec_inherits_from_django_field(mro@),
{
    let mut i: usize = 0;
    while i < mro.len()
        invariant
            i <= mro@.len(),
            forall|j: int| 0 <= j < i ==> !has_qname(#[trigger] mro@[j], "django.db.models.fields"@, "Field"@),
        decreases mro@.len() - i,
    {
        if is_qname(&mro[i], "django.db.models.fields", "Field") {
            return true;
        }
        i = i + 1;
    }
    false
}

/// The string values of inline choices `(("A", "Label A"), ("B", ...), ...)`:
/// each element a tuple whose first element is a string literal, or `None`.
pub open spec fn spec_choice_values(elts: Seq<Expr>) -> Option<Seq<Seq<char>>>
    decreases elts.len(),
{
    if elts.len() == 0 {
        Some(Seq::empty())
    } else {
        match spec_choice_values(elts.drop_last()) {
            None => None,
            Some(vs) => match elts.last() {
                Expr::Tuple(inner) => if inner@.len() > 0 {
                    match inner@[0] {
                        Expr::StringLiteral(v) => Some(vs.push(v@)),
                        _ => None,
                    }
                } else {
                    None
                },
                _ => None,
            },
        }
    }
}

/// The string values of a `choices=` argument written inline as a non-empty
/// tuple of tuples, each starting with a string literal.
pub open spec fn spec_charfield_choices(call: ExprCall) -> Option<Seq<Seq<char>>> {
    match spec_find_keyword(call.keywords@, "choices"@) {
        Some(Expr::Tuple(elts)) => match spec_choice_values(elts@) {
            Some(vs) => if vs.len() > 0 {
                Some(vs)
            } else {
                None
            },
            None => None,
        },
        _ => None,
    }
}

/// The value of the first element of `e`, when `e` is a tuple starting with
/// a string literal.
fn choice_value(e: &Expr) -> (r: Option<String>)
    ensures
        r is Some <==> (e matches Expr::Tuple(inner) && inner@.len() > 0
            && inner@[0] is StringLiteral),
        r matches Some(v) ==> (e matches Expr::Tuple(inner) && inner@[0] == Expr::StringLiteral(v)),
{
    match e {
        Expr::Tuple(inner) => {
            if inner.len() == 0 {
                return None;
            }
            match &inner[0] {
                Expr::StringLiteral(v) => Some(v.clone()),
                _ => None,
            }
        },
        _ => None,
    }
}

/// The string values of CharField choices written inline as a tuple of
/// tuples: `choices=(("A", "Label A"), ("B", "Label B"), ...)`. `None` when
/// `choices` is absent, not in that form, has an element whose value is not a
/// string literal, or is empty.
pub fn extract_charfield_choices(call: &ExprCall) -> (r: Option<Vec<String>>)
    ensures
        r is Some <==> spec_charfield_choices(*call) is Some,
        r matches Some(v) ==> spec_charfield_choices(*call) == Some(strings(v@)),
{
    proof {
        reveal_strlit("choices");
    }
    let elts = match find_keyword(call, "choices") {
        Some(Expr::Tuple(elts)) => elts,
        _ => {
            return None;
        },
    };
    let mut out: Vec<String> = Vec::new();
    let mut i: usize = 0;
    proof {
        assert(elts@.take(0) =~= Seq::<Expr>::empty());
        assert(strings(out@) =~= Seq::<Seq<char>>::empty());
    }
    while i < elts.len()
        invariant
            i <= elts@.len(),
            out@.len() == i,
            spec_find_keyword(call.keywords@, "choices"@) == Some(Expr::Tuple(*elts)),
            spec_choice_values(elts@.take(i as int)) == Some(strings(out@)),
        decreases elts@.len() - i,
    {
        proof {
            assert(elts@.take(i + 1).drop_last() =~= elts@.take(i as int));
            assert(elts@.take(i + 1).last() == elts@[i as int]);
        }
        match choice_value(&elts[i]) {
            Some(v) => {
                let ghost before = out@;
                out.push(v);
                proof {
                    assert(strings(out@) =~= strings(before).push(out@.last()@));
                }
            },
            None => {
                proof {
                    assert(spec_choice_values(elts@.take(i + 1)) is None);
                    lemma_choice_values_none_stays(elts@, i as int);
                }
                return None;
            },
        }
        i = i + 1;
    }
    proof {
        assert(elts@.take(elts@.len() as int) =~= elts@);
    }
    if out.len() == 0 {
        return None;
    }
    Some(out)
}

/// Once an element spoils the choices, longer prefixes are spoiled too.
proof fn lemma_choice_values_none_stays(elts: Seq<Expr>, i: int)
    requires
        0 <= i < elts.len(),
        spec_choice_values(elts.take(i + 1)) is None,
    ensures
        spec_choice_values(elts) is None,
    decreases elts.len() - i,
{
    if i + 1 < elts.len() {
        assert(elts.take(i + 2).drop_last() =~= elts.take(i + 1));
        lemma_choice_values_none_stays(elts, i + 1);
    } else {
        assert(elts.take(i + 1) =~= elts);
    }
}

/// The call an initial value is, if it is one.
pub open spec fn spec_call_of(init: Option<Expr>) -> Option<ExprCall> {
    match init {
        Some(Expr::Call(c)) => Some(c),
        _ => None,
    }
}

/// The string values a CharField with inline choices narrows to; only a field
/// without `blank=True` is narrowed.
pub open spec fn spec_narrowed_choices(field: ClassRef, init: Option<Expr>) -> Option<
    Seq<Seq<char>>,
> {
    match spec_call_of(init) {
        Some(c) => if spec_is_char_field(field) && !spec_has_keyword_true(c, "blank"@) {
            spec_charfield_choices(c)
        } else {
            None
        },
        None => None,
    }
}

/// The string values that a CharField with inline choices narrows its value
/// type to (the union of their literal types), or `None` to keep the
/// declared type. Only `blank=False` is supported.
pub fn narrow_charfield_choices(field: &ClassRef, initial_value: Option<&Expr>) -> (r: Option<
    Vec<String>,
>)
    ensures
        r is Some <==> spec_narrowed_choices(
            *field,
            match initial_value {
                Some(e) => Some(*e),
                None => None,
            },
        ) is Some,
        r matches Some(v) ==> spec_narrowed_choices(
            *field,
            match initial_value {
                Some(e) => Some(*e),
                None => None,
            },
        ) == Some(strings(v@)),
{
    match initial_value {
        Some(Expr::Call(c)) => {
            if is_char_field(field) && !is_django_field_blank(c) {
                extract_charfield_choices(c)
            } else {
                None
            }
        },
        _ => None,
    }
}

/// The value type of a Django field, as the checker builds it.
#[derive(Debug)]
pub enum DjangoFieldType<T> {
    /// The union of the literal types of `literals` when the field narrows to
    /// its choices, else `base`; with `None` added when the field is nullable.
    Value { literals: Option<Vec<String>>, base: T, nullable: bool },
    /// `manager[target, through]`: the `ManyRelatedManager` class of the stubs
    /// specialized to the target model and the through model.
    ManyRelatedManager { manager: ClassRef, target: T, through: ThroughModel<T> },
}

/// The through model of a many-to-many field.
#[derive(Debug)]
pub enum ThroughModel<T> {
    /// The model its `through=` argument resolves to.
    Declared(T),
    /// Django's `Model` class, when the field declares none.
    Model(ClassRef),
}

/// What a field's value type is made of.
pub enum FieldTypeShape<T> {
    Value { literals: Option<Seq<Seq<char>>>, base: T, nullable: bool },
    ManyRelatedManager { manager: ClassRef, target: T, through: ThroughModel<T> },
}

/// The shape of a field value type.
pub open spec fn field_type_shape<T>(t: DjangoFieldType<T>) -> FieldTypeShape<T> {
    match t {
        DjangoFieldType::Value { literals, base, nullable } => FieldTypeShape::Value {
            literals: match literals {
                Some(v) => Some(strings(v@)),
                None => None,
            },
            base,
            nullable,
        },
        DjangoFieldType::ManyRelatedManager { manager, target, through } => FieldTypeShape::ManyRelatedManager {
            manager,
            target,
            through,
        },
    }
}

/// `ManyRelatedManager[target, through]`, the through model being the
/// declared one or else Django's `Model`; none when the stubs lack a class it
/// needs.
pub open spec fn spec_many_related_manager_type<T>(
    target: T,
    through: Option<T>,
    m: DjangoManagerClasses,
) -> Option<FieldTypeShape<T>> {
    let t = match through {
        Some(x) => Some(ThroughModel::Declared(x)),
        None => match m.model {
            Some(c) => Some(ThroughModel::Model(c)),
            None => None,
        },
    };
    match t {
        Some(t) => match m.many_related_manager {
            Some(mm) => Some(FieldTypeShape::ManyRelatedManager { manager: mm, target, through: t }),
            None => None,
        },
        None => None,
    }
}

/// `ManyRelatedManager[target, through]`, if the stubs have what it needs.
fn many_related_manager_type<T: Copy>(target: T, through: Option<T>, m: &DjangoManagerClasses) -> (r:
    Option<DjangoFieldType<T>>)
    ensures
        match r {
            Some(x) => spec_many_related_manager_type(target, through, *m) == Some(field_type_shape(x)),
            None => spec_many_related_manager_type(target, through, *m) is None,
        },
{
    let t = match through {
        Some(x) => ThroughModel::Declared(x),
        None => match &m.model {
            Some(c) => ThroughModel::Model(copy_class(c)),
            None => {
                return None;
            },
        },
    };
    match &m.many_related_manager {
        Some(mm) => Some(DjangoFieldType::ManyRelatedManager { manager: copy_class(mm), target, through: t }),
        None => None,
    }
}

/// The value type of field class `field` (with ancestors `field_mro`)
/// assigned in a class: none unless the class is a Django model and the field
/// class a Django `Field`. A named relation field whose initial value is a
/// call with a first positional argument that resolves to `target` reads as
/// that model (foreign key, one-to-one) or as a `ManyRelatedManager` over it
/// (many-to-many, with the resolved `through=` model). Otherwise the field
/// reads as its class's `_pyi_private_get_type`, if it has one. A CharField
/// with inline choices narrows to their literals; `null=True` adds `None`.
/// A many-to-many field has no type when the stubs lack the manager class, or
/// lack `Model` and the field declares no through model.
pub open spec fn spec_field_type_from_class<T>(
    class_is_model: bool,
    field: ClassRef,
    field_mro: Seq<ClassRef>,
    field_name_given: bool,
    init: Option<Expr>,
    target: Option<T>,
    through: Option<T>,
    private_get_type: Option<T>,
    m: DjangoManagerClasses,
) -> Option<FieldTypeShape<T>> {
    if !(class_is_model && spec_inherits_from_django_field(field_mro)) {
        None
    } else {
        let call = spec_call_of(init);
        let resolved = if field_name_given && call is Some && call->0.args@.len() > 0 {
            target
        } else {
            None
        };
        let relation_base = match resolved {
            Some(mt) => if spec_is_foreign_key_like_field(field) {
                Some(mt)
            } else {
                None
            },
            None => None,
        };
        if resolved is Some && !spec_is_foreign_key_like_field(field) && spec_is_many_to_many_field(
            field,
        ) {
            spec_many_related_manager_type(resolved->0, through, m)
        } else {
            let base = match relation_base {
                Some(b) => Some(b),
                None => private_get_type,
            };
            match base {
                None => None,
                Some(b) => Some(
                    FieldTypeShape::Value {
                        literals: spec_narrowed_choices(field, init),
                        base: b,
                        nullable: match call {
                            Some(c) => spec_has_keyword_true(c, "null"@),
                            None => false,
                        },
                    },
                ),
            }
        }
    }
}

/// The value type of a Django field of class `field` (ancestors `field_mro`)
/// assigned in a class that is a model when `class_is_model`.
/// `field_name_given` tells whether the field has a name; `initial_value` is
/// the expression assigned to it; `target` and `through` are the models that
/// its first positional argument and its `through=` argument resolve to;
/// `private_get_type` is the type of the field class's
/// `_pyi_private_get_type` member, if it has one; `managers` are the classes
/// of the stubs that a many-to-many field's manager type is built from.
pub fn get_django_field_type_from_class<T: Copy>(
    class_is_model: bool,
    field: &ClassRef,
    field_mro: &Vec<ClassRef>,
    field_name_given: bool,
    initial_value: Option<&Expr>,
    target: Option<T>,
    through: Option<T>,
    private_get_type: Option<T>,
    managers: &DjangoManagerClasses,
) -> (r: Option<DjangoFieldType<T>>)
    ensures
        match r {
            Some(t) => spec_field_type_from_class(
                class_is_model,
                *field,
                field_mro@,
                field_name_given,
                match initial_value {
                    Some(e) => Some(*e),
                    None => None,
                },
                target,
                through,
                private_get_type,
                *managers,
            ) == Some(field_type_shape(t)),
            None => spec_field_type_from_class(
                class_is_model,
                *field,
                field_mro@,
                field_name_given,
                match initial_value {
                    Some(e) => Some(*e),
                    None => None,
                },
                target,
                through,
                private_get_type,
                *managers,
            ) is None,
        },
{
    if !(class_is_model && inherits_from_django_field(field_mro)) {
        return None;
    }
    let call = match initial_value {
        Some(Expr::Call(c)) => Some(c),
        _ => None,
    };
    let resolved = match call {
        Some(c) => if field_name_given && c.args.len() > 0 {
            target
        } else {
            None
        },
        None => None,
    };
    let relation_base = match resolved {
        Some(mt) => {
            if is_foreign_key_like_field(field) {
                Some(mt)
            } else if is_many_to_many_field(field) {
                return match many_related_manager_type(mt, through, managers) {
                Some(t) => Some(t),
                None => None,
            };
            } else {
                None
            }
        },
        None => None,
    };
    let base = match relation_base {
        Some(b) => b,
        None => match private_get_type {
            Some(b) => b,
            None => {
                return None;
            },
        },
    };
    let literals = narrow_charfield_choices(field, initial_value);
    let nullable = match call {
        Some(c) => is_django_field_nullable(c),
        None => false,
    };
    let r = DjangoFieldType::Value { literals, base, nullable };
    proof {
        assert(field_type_shape(r) == FieldTypeShape::Value {
            literals: spec_narrowed_choices(
                *field,
                match initial_value {
                    Some(e) => Some(*e),
                    None => None,
                },
            ),
            base,
            nullable,
        });
    }
    Some(r)
}

/// The primary key of a model: the type of its own primary key field and
/// `true` when it declares one, else the value type of Django's `AutoField`
/// and `false`.
pub fn get_pk_field_type<T: Copy>(custom_pk_type: Option<T>, auto_field_type: Option<T>) -> (r: Option<
    (T, bool),
>)
    ensures
        r == match custom_pk_type {
            Some(t) => Some((t, true)),
            None => match auto_field_type {
                Some(t) => Some((t, false)),
                None => None,
            },
        },
{
    match custom_pk_type {
        Some(t) => Some((t, true)),
        None => match auto_field_type {
            Some(t) => Some((t, false)),
            None => None,
        },
    }
}

/// The type of a foreign key field, as far as its `<field>_id` reads it.
#[derive(Debug)]
pub enum ForeignKeyFieldType<C> {
    /// A union, with the class of each member that is a class instance.
    Union(Vec<Option<C>>),
    /// An instance of a class.
    Class(C),
    /// Anything else.
    Other,
}

/// The first member of a union that is a class instance.
pub open spec fn first_class<C>(members: Seq<Option<C>>) -> Option<C>
    decreases members.len(),
{
    if members.len() == 0 {
        None
    } else if members[0] is Some {
        members[0]
    } else {
        first_class(members.drop_first())
    }
}

/// The model a foreign key field relates to and whether the key is nullable:
/// the first class member of a union (nullable), or the class (not nullable).
pub open spec fn spec_foreign_key_related_class<C>(is_foreign_key: bool, ty: ForeignKeyFieldType<C>) -> Option<
    (C, bool),
> {
    if !is_foreign_key {
        None
    } else {
        match ty {
            ForeignKeyFieldType::Union(members) => match first_class(members@) {
                Some(c) => Some((c, true)),
                None => None,
            },
            ForeignKeyFieldType::Class(c) => Some((c, false)),
            ForeignKeyFieldType::Other => None,
        }
    }
}

/// The model whose primary key types the `<field>_id` attribute of a foreign
/// key field, and whether that attribute also admits `None`.
pub fn foreign_key_related_class<C: Copy>(is_foreign_key: bool, ty: &ForeignKeyFieldType<C>) -> (r:
    Option<(C, bool)>)
    ensures
        r == spec_foreign_key_related_class(is_foreign_key, *ty),
{
    if !is_foreign_key {
        return None;
    }
    match ty {
        ForeignKeyFieldType::Union(members) => {
            let mut i: usize = 0;
            proof {
                assert(members@.skip(0) =~= members@);
            }
            while i < members.len()
                invariant
                    i <= members@.len(),
                    is_foreign_key,
                    *ty == ForeignKeyFieldType::Union(*members),
                    first_class(members@) == first_class(members@.skip(i as int)),
                decreases members@.len() - i,
            {
                proof {
                    assert(members@.skip(i as int)[0] == members@[i as int]);
                    assert(members@.skip(i as int).drop_first() =~= members@.skip(i + 1));
                }
                match members[i] {
                    Some(c) => {
                        proof {
                            assert(members@.skip(i as int)[0] == Some(c));
                            assert(first_class(members@.skip(i as int)) == Some(c));
                        }
                        return Some((c, true));
                    },
                    None => {},
                }
                i = i + 1;
            }
            None
        },
        ForeignKeyFieldType::Class(c) => Some((*c, false)),
        ForeignKeyFieldType::Other => None,
    }
}

/// A field class as the checker sees it: the class, its ancestors, and the
/// type of its `_pyi_private_get_type` member, if it has one.
#[derive(Debug)]
pub struct FieldClassView<T> {
    pub class: ClassRef,
    pub mro: Vec<ClassRef>,
    pub private_get_type: Option<T>,
}

/// A member of a union, with whether the type the checker builds from the
/// member's own plan differs from the member (`false` when it has no plan).
#[derive(Debug)]
pub struct UnionMemberView<T> {
    pub member: FieldTypeView<T>,
    pub built_differs: bool,
}

/// The type of a field as far as `get_django_field_type` reads it.
#[derive(Debug)]
pub enum FieldTypeView<T> {
    /// `django.utils.functional._Getter[...]`, with its first type argument.
    Getter(Option<T>),
    /// An instance of a class.
    Class(FieldClassView<T>),
    /// A class object.
    ClassDef(FieldClassView<T>),
    /// A union, with its members.
    Union(Vec<UnionMemberView<T>>),
    /// Any other type.
    Other,
}

/// The type a field reads as, as the checker builds it.
#[derive(Debug)]
pub enum FieldTypePlan<T> {
    /// This type.
    Type(T),
    /// The value type of a field class.
    Field(DjangoFieldType<T>),
    /// The union of the members, each replaced by its own plan where it has
    /// one, and kept as it is where it has none (`None`).
    Union(Vec<Option<FieldTypePlan<T>>>),
}

/// What a plan is made of.
pub enum PlanShape<T> {
    Type(T),
    Field(FieldTypeShape<T>),
    Union(Seq<Option<PlanShape<T>>>),
}

/// The shape of a plan.
pub open spec fn plan_shape<T>(p: FieldTypePlan<T>) -> PlanShape<T>
    decreases p,
{
    match p {
        FieldTypePlan::Type(t) => PlanShape::Type(t),
        FieldTypePlan::Field(f) => PlanShape::Field(field_type_shape(f)),
        FieldTypePlan::Union(v) => PlanShape::Union(member_shapes(v@)),
    }
}

/// The shapes of the members' plans.
pub open spec fn member_shapes<T>(v: Seq<Option<FieldTypePlan<T>>>) -> Seq<Option<PlanShape<T>>>
    decreases v,
{
    if v.len() == 0 {
        Seq::empty()
    } else {
        member_shapes(v.drop_last()).push(
            match v.last() {
                Some(p) => Some(plan_shape(p)),
                None => None,
            },
        )
    }
}

/// Some member is replaced by a type that differs from it.
pub open spec fn some_member_changes<T>(ms: Seq<UnionMemberView<T>>, plans: Seq<Option<PlanShape<T>>>) -> bool {
    exists|i: int| 0 <= i < ms.len() && (#[trigger] plans[i]) is Some && ms[i].built_differs
}

/// The type a field reads as, for a field of type `ty` assigned in a class
/// (see `spec_field_type_from_class` for the other arguments): a `_Getter`'s
/// first type argument; a field class's value type; for a union, the union
/// of its members, each replaced by its own type where it has one, or nothing
/// when no member's type changes; nothing for any other type.
pub open spec fn spec_field_type_plan<T>(
    ty: FieldTypeView<T>,
    class_is_model: bool,
    field_name_given: bool,
    init: Option<Expr>,
    target: Option<T>,
    through: Option<T>,
    m: DjangoManagerClasses,
) -> Option<PlanShape<T>>
    decreases ty, 1int,
{
    match ty {
        FieldTypeView::Getter(t) => match t {
            Some(x) => Some(PlanShape::Type(x)),
            None => None,
        },
        FieldTypeView::Class(f) => match spec_field_type_from_class(
            class_is_model,
            f.class,
            f.mro@,
            field_name_given,
            init,
            target,
            through,
            f.private_get_type,
            m,
        ) {
            Some(x) => Some(PlanShape::Field(x)),
            None => None,
        },
        FieldTypeView::ClassDef(f) => match spec_field_type_from_class(
            class_is_model,
            f.class,
            f.mro@,
            field_name_given,
            init,
            target,
            through,
            f.private_get_type,
            m,
        ) {
            Some(x) => Some(PlanShape::Field(x)),
            None => None,
        },
        FieldTypeView::Union(ms) => {
            let plans = spec_member_plans(ms@, class_is_model, field_name_given, init, target, through, m);
            if some_member_changes(ms@, plans) {
                Some(PlanShape::Union(plans))
            } else {
                None
            }
        },
        FieldTypeView::Other => None,
    }
}

/// The plans of union members, in order.
pub open spec fn spec_member_plans<T>(
    ms: Seq<UnionMemberView<T>>,
    class_is_model: bool,
    field_name_given: bool,
    init: Option<Expr>,
    target: Option<T>,
    through: Option<T>,
    m: DjangoManagerClasses,
) -> Seq<Option<PlanShape<T>>>
    decreases ms, 0int,
{
    if ms.len() == 0 {
        Seq::empty()
    } else {
        spec_member_plans(ms.drop_last(), class_is_model, field_name_given, init, target, through, m).push(
            spec_field_type_plan(ms.last().member, class_is_model, field_name_given, init, target, through, m),
        )
    }
}

/// The type a Django field reads as on an instance, for a field whose type
/// is `ty`, assigned in a class that is a model when `class_is_model`;
/// `field_name_given`, `initial_value`, `target`, `through` and `managers`
/// are as for `get_django_field_type_from_class`. For a union, each member
/// comes with whether the type built from its own plan differs from it, the
/// checker having asked this function of the member first. `None` leaves the
/// type as it is.
pub fn get_django_field_type<T: Copy>(
    ty: &FieldTypeView<T>,
    class_is_model: bool,
    field_name_given: bool,
    initial_value: Option<&Expr>,
    target: Option<T>,
    through: Option<T>,
    managers: &DjangoManagerClasses,
) -> (r: Option<FieldTypePlan<T>>)
    ensures
        match r {
            Some(p) => spec_field_type_plan(
                *ty,
                class_is_model,
                field_name_given,
                match initial_value {
                    Some(e) => Some(*e),
                    None => None,
                },
                target,
                through,
                *managers,
            ) == Some(plan_shape(p)),
            None => spec_field_type_plan(
                *ty,
                class_is_model,
                field_name_given,
                match initial_value {
                    Some(e) => Some(*e),
                    None => None,
                },
                target,
                through,
                *managers,
            ) is None,
        },
    decreases ty,
{
    let ghost init = match initial_value {
        Some(e) => Some(*e),
        None => None::<Expr>,
    };
    match ty {
        FieldTypeView::Getter(t) => match t {
            Some(x) => Some(FieldTypePlan::Type(*x)),
            None => None,
        },
        FieldTypeView::Class(f) => match get_django_field_type_from_class(
            class_is_model,
            &f.class,
            &f.mro,
            field_name_given,
            initial_value,
            target,
            through,
            f.private_get_type,
            managers,
        ) {
            Some(x) => Some(FieldTypePlan::Field(x)),
            None => None,
        },
        FieldTypeView::ClassDef(f) => match get_django_field_type_from_class(
            class_is_model,
            &f.class,
            &f.mro,
            field_name_given,
            initial_value,
            target,
            through,
            f.private_get_type,
            managers,
        ) {
            Some(x) => Some(FieldTypePlan::Field(x)),
            None => None,
        },
        FieldTypeView::Union(members) => {
            let mut plans: Vec<Option<FieldTypePlan<T>>> = Vec::new();
            let mut changed = false;
            let mut i: usize = 0;
            proof {
                assert(members@.take(0) =~= Seq::<UnionMemberView<T>>::empty());
            }
            while i < members.len()
                invariant
                    i <= members@.len(),
                    *ty == FieldTypeView::Union(*members),
                    init == match initial_value {
                        Some(e) => Some(*e),
                        None => None,
                    },
                    member_shapes(plans@) == spec_member_plans(
                        members@.take(i as int),
                        class_is_model,
                        field_name_given,
                        init,
                        target,
                        through,
                        *managers,
                    ),
                    member_shapes(plans@).len() == i,
                    changed == some_member_changes(members@.take(i as int), member_shapes(plans@)),
                decreases members@.len() - i,
            {
                proof {
                    assert(members@.take(i + 1).drop_last() =~= members@.take(i as int));
                    assert(members@.take(i + 1).last() == members@[i as int]);
                    assert(decreases_to!(*ty => (*ty)->Union_0));
                    assert((*ty)->Union_0 == *members);
                    assert(decreases_to!(*members => members@));
                    assert(decreases_to!(members@ => members@[i as int]));
                    assert(decreases_to!(members@[i as int] => members@[i as int].member));
                }
                let p = get_django_field_type(
                    &members[i].member,
                    class_is_model,
                    field_name_given,
                    initial_value,
                    target,
                    through,
                    managers,
                );
                let ghost before = plans@;
                let ghost pg = p;
                let step = p.is_some() && members[i].built_differs;
                plans.push(p);
                proof {
                    assert(plans@.drop_last() =~= before);
                    assert(plans@.last() == pg);
                    let ms = member_shapes(plans@);
                    let mb = members@.take(i + 1);
                    let ma = members@.take(i as int);
                    assert(ms == member_shapes(before).push(ms.last()));
                    assert(ms.last() == match pg {
                        Some(q) => Some(plan_shape(q)),
                        None => None,
                    });
                    assert(mb[i as int] == members@[i as int]);
                    if step {
                        assert(ms[i as int] is Some && mb[i as int].built_differs);
                    }
                    if changed {
                        let k = choose|k: int| 0 <= k < ma.len() && (#[trigger] member_shapes(before)[k]) is Some && ma[k].built_differs;
                        assert(ms[k] == member_shapes(before)[k]);
                        assert(mb[k] == ma[k]);
                    }
                    if some_member_changes(mb, ms) && !step {
                        let k = choose|k: int| 0 <= k < mb.len() && (#[trigger] ms[k]) is Some && mb[k].built_differs;
                        assert(k < i);
                        assert(member_shapes(before)[k] == ms[k]);
                        assert(ma[k] == mb[k]);
                    }
                }
                changed = changed || step;
                i = i + 1;
            }
            proof {
                assert(members@.take(members@.len() as int) =~= members@);
            }
            if changed {
                Some(FieldTypePlan::Union(plans))
            } else {
                None
            }
        },
        FieldTypeView::Other => None,
    }
}

/// A named foreign-key or one-to-one field of a model, whose initial value is
/// a call with a first positional argument that resolves to model `target`,
/// reads as `target` (with `None` added when it is nullable).
pub proof fn law_foreign_key_like_field_reads_as_its_target<T>(
    field: ClassRef,
    field_mro: Seq<ClassRef>,
    call: ExprCall,
    target: T,
    through: Option<T>,
    private_get_type: Option<T>,
    m: DjangoManagerClasses,
)
    requires
        field.toplevel,
        field.module@ == "django.db.models.fields.related"@,
        field.name@ == "ForeignKey"@ || field.name@ == "OneToOneField"@,
        spec_inherits_from_django_field(field_mro),
        call.args@.len() > 0,
    ensures
        spec_field_type_from_class(
            true,
            field,
            field_mro,
            true,
            Some(Expr::Call(call)),
            Some(target),
            through,
            private_get_type,
            m,
        ) matches Some(FieldTypeShape::Value { base, nullable, .. }) && base == target && nullable
            == spec_has_keyword_true(call, "null"@),
{
    reveal_strlit("ForeignKey");
    reveal_strlit("OneToOneField");
    reveal_strlit("ManyToManyField");
}

/// A named many-to-many field of a model, whose first positional argument
/// resolves to model `target`, reads as `ManyRelatedManager[target, T]`,
/// where `T` is the model its `through=` argument resolves to whenever it
/// has one, and Django's `Model` only otherwise.
pub proof fn law_many_to_many_field_keeps_the_through_model<T>(
    field: ClassRef,
    field_mro: Seq<ClassRef>,
    call: ExprCall,
    target: T,
    through: Option<T>,
    private_get_type: Option<T>,
    m: DjangoManagerClasses,
)
    requires
        field.toplevel,
        field.module@ == "django.db.models.fields.related"@,
        field.name@ == "ManyToManyField"@,
        spec_inherits_from_django_field(field_mro),
        call.args@.len() > 0,
        m.many_related_manager is Some,
        through is Some || m.model is Some,
    ensures
        spec_field_type_from_class(
            true,
            field,
            field_mro,
            true,
            Some(Expr::Call(call)),
            Some(target),
            through,
            private_get_type,
            m,
        ) == Some(
            FieldTypeShape::ManyRelatedManager {
                manager: m.many_related_manager->0,
                target,
                through: match through {
                    Some(t) => ThroughModel::Declared(t),
                    None => ThroughModel::Model(m.model->0),
                },
            },
        ),
{
    reveal_strlit("ForeignKey");
    reveal_strlit("OneToOneField");
    reveal_strlit("ManyToManyField");
    reveal_strlit("django.db.models.fields.related");
    assert(field.name@.len() == 15);
    assert(!spec_is_foreign_key_like_field(field));
    assert(spec_is_many_to_many_field(field));
    assert(spec_call_of(Some(Expr::Call(call))) == Some(call));
}

} // verus!
