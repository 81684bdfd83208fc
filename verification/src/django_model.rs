//! The attributes Django synthesizes on models: reverse accessors, primary
//! keys, `<field>_id` and `get_<field>_display`.
//!
//! The checker infers types and resolves names; the decisions that follow
//! from what it found are made here, over the classes it identified.
use vstd::prelude::*;

use crate::ast::ExprCall;
use crate::django_index::is_relation_constructor;
use crate::collections::{key_index, lemma_key_index, lemma_key_index_push, lemma_key_index_update, lookup};
use crate::related_name::{
    DjangoRelationKind, django_related_name, is_symmetrical_self_m2m, spec_django_related_name,
    spec_is_symmetrical_self_m2m,
};
use crate::text::{concat3, str_eq};

verus! {

/// A class as the checker identifies it.
#[derive(Debug)]
pub struct ClassRef {
    /// The module that defines the class, such as `myapp.models`.
    pub module: String,
    /// The class's own name.
    pub name: String,
    /// Whether the class is defined at the top level of its module.
    pub toplevel: bool,
    /// Tells apart classes of one module that share a name.
    pub index: u32,
}

/// Two references name the same class.
pub open spec fn same_class(a: ClassRef, b: ClassRef) -> bool {
    a.module@ == b.module@ && a.name@ == b.name@ && a.toplevel == b.toplevel && a.index == b.index
}

/// Whether two references name the same class.
pub fn is_same_class(a: &ClassRef, b: &ClassRef) -> (r: bool)
    ensures
        r == same_class(*a, *b),
{
    str_eq(a.module.as_str(), b.module.as_str()) && str_eq(a.name.as_str(), b.name.as_str())
        && a.toplevel == b.toplevel && a.index == b.index
}

/// A copy of a class reference.
pub fn copy_class(c: &ClassRef) -> (r: ClassRef)
    ensures
        r == *c,
{
    ClassRef { module: c.module.clone(), name: c.name.clone(), toplevel: c.toplevel, index: c.index }
}

/// The class is `module.name`, defined at the top level of `module`.
pub open spec fn has_toplevel_qname(c: ClassRef, module: Seq<char>, name: Seq<char>) -> bool {
    c.toplevel && c.module@ == module && c.name@ == name
}

/// Whether the class is `module.name`, defined at the top level of `module`.
pub fn is_toplevel_qname(c: &ClassRef, module: &str, name: &str) -> (r: bool)
    ensures
        r == has_toplevel_qname(*c, module@, name@),
{
    c.toplevel && str_eq(c.module.as_str(), module) && str_eq(c.name.as_str(), name)
}

/// `OneToOneField` of Django's related fields module.
pub open spec fn spec_is_one_to_one_field(field: ClassRef) -> bool {
    has_toplevel_qname(field, "django.db.models.fields.related"@, "OneToOneField"@)
}

/// `ManyToManyField` of Django's related fields module.
pub open spec fn spec_is_many_to_many_field(field: ClassRef) -> bool {
    has_toplevel_qname(field, "django.db.models.fields.related"@, "ManyToManyField"@)
}

/// `ForeignKey` or `OneToOneField` of Django's related fields module.
pub open spec fn spec_is_foreign_key_like_field(field: ClassRef) -> bool {
    has_toplevel_qname(field, "django.db.models.fields.related"@, "ForeignKey"@)
        || spec_is_one_to_one_field(field)
}

/// The relation kind of a field class.
pub open spec fn spec_relation_kind(field: ClassRef) -> Option<DjangoRelationKind> {
    if spec_is_one_to_one_field(field) {
        Some(DjangoRelationKind::OneToOne)
    } else if spec_is_many_to_many_field(field) {
        Some(DjangoRelationKind::ManyToMany)
    } else if spec_is_foreign_key_like_field(field) {
        Some(DjangoRelationKind::ForeignKey)
    } else {
        None
    }
}

/// Whether a field class is `OneToOneField`.
pub fn is_one_to_one_field(field: &ClassRef) -> (r: bool)
    ensures
        r == spec_is_one_to_one_field(*field),
{
    is_toplevel_qname(field, "django.db.models.fields.related", "OneToOneField")
}

/// Whether a field class is `ManyToManyField`.
pub fn is_many_to_many_field(field: &ClassRef) -> (r: bool)
    ensures
        r == spec_is_many_to_many_field(*field),
{
    is_toplevel_qname(field, "django.db.models.fields.related", "ManyToManyField")
}

/// Whether a field class is `ForeignKey` or `OneToOneField`.
pub fn is_foreign_key_like_field(field: &ClassRef) -> (r: bool)
    ensures
        r == spec_is_foreign_key_like_field(*field),
{
    is_toplevel_qname(field, "django.db.models.fields.related", "ForeignKey")
        || is_one_to_one_field(field)
}

/// The relation kind of a field class, if it is a relation field.
pub fn django_relation_kind(field: &ClassRef) -> (r: Option<DjangoRelationKind>)
    ensures
        r == spec_relation_kind(*field),
{
    if is_one_to_one_field(field) {
        Some(DjangoRelationKind::OneToOne)
    } else if is_many_to_many_field(field) {
        Some(DjangoRelationKind::ManyToMany)
    } else if is_foreign_key_like_field(field) {
        Some(DjangoRelationKind::ForeignKey)
    } else {
        None
    }
}

/// The type of a reverse accessor.
#[derive(Debug)]
pub enum RelatedType {
    /// `manager[source]`: the `RelatedManager` of a foreign key.
    RelatedManager { manager: ClassRef, source: ClassRef },
    /// An instance of the source model: the accessor of a one-to-one field.
    Instance(ClassRef),
    /// `manager[source, through]`: the `ManyRelatedManager` of a many-to-many
    /// field, with its through model.
    ManyRelatedManager { manager: ClassRef, source: ClassRef, through: ClassRef },
}

/// A copy of a reverse accessor type.
pub fn copy_related(t: &RelatedType) -> (r: RelatedType)
    ensures
        r == *t,
{
    match t {
        RelatedType::RelatedManager { manager, source } => RelatedType::RelatedManager {
            manager: copy_class(manager),
            source: copy_class(source),
        },
        RelatedType::Instance(c) => RelatedType::Instance(copy_class(c)),
        RelatedType::ManyRelatedManager { manager, source, through } => RelatedType::ManyRelatedManager {
            manager: copy_class(manager),
            source: copy_class(source),
            through: copy_class(through),
        },
    }
}

/// The classes of Django's stubs that reverse accessor types are built from,
/// each `None` where the stubs do not export it as a class.
#[derive(Debug)]
pub struct DjangoManagerClasses {
    /// `django.db.models.fields.related_descriptors.RelatedManager`.
    pub related_manager: Option<ClassRef>,
    /// `django.db.models.fields.related_descriptors.ManyRelatedManager`.
    pub many_related_manager: Option<ClassRef>,
    /// `django.db.models.Model`, the default through model.
    pub model: Option<ClassRef>,
}

/// The reverse accessor type of a relation of `kind` declared by `source`.
pub open spec fn spec_reverse_field_type(
    kind: DjangoRelationKind,
    source: ClassRef,
    through: Option<ClassRef>,
    m: DjangoManagerClasses,
) -> Option<RelatedType> {
    match kind {
        DjangoRelationKind::ForeignKey => match m.related_manager {
            Some(rm) => Some(RelatedType::RelatedManager { manager: rm, source }),
            None => None,
        },
        DjangoRelationKind::OneToOne => Some(RelatedType::Instance(source)),
        DjangoRelationKind::ManyToMany => {
            let t = match through {
                Some(t) => Some(t),
                None => m.model,
            };
            match t {
                Some(t) => match m.many_related_manager {
                    Some(mm) => Some(
                        RelatedType::ManyRelatedManager { manager: mm, source, through: t },
                    ),
                    None => None,
                },
                None => None,
            }
        },
    }
}

/// The reverse accessor type of a relation of `kind` declared by `source`,
/// with `through` the resolved `through=` model, if any.
pub fn django_reverse_field_type(
    kind: DjangoRelationKind,
    source: &ClassRef,
    through: Option<&ClassRef>,
    m: &DjangoManagerClasses,
) -> (r: Option<RelatedType>)
    ensures
        r == spec_reverse_field_type(
            kind,
            *source,
            match through {
                Some(t) => Some(*t),
                None => None,
            },
            *m,
        ),
{
    match kind {
        DjangoRelationKind::ForeignKey => match &m.related_manager {
            Some(rm) => Some(
                RelatedType::RelatedManager { manager: copy_class(rm), source: copy_class(source) },
            ),
            None => None,
        },
        DjangoRelationKind::OneToOne => Some(RelatedType::Instance(copy_class(source))),
        DjangoRelationKind::ManyToMany => {
            let t = match through {
                Some(t) => Some(copy_class(t)),
                None => match &m.model {
                    Some(model) => Some(copy_class(model)),
                    None => None,
                },
            };
            match t {
                Some(t) => match &m.many_related_manager {
                    Some(mm) => Some(
                        RelatedType::ManyRelatedManager {
                            manager: copy_class(mm),
                            source: copy_class(source),
                            through: t,
                        },
                    ),
                    None => None,
                },
                None => None,
            }
        },
    }
}

/// One field assigned in the body of a class, as the checker sees it once it
/// has inferred the field expression and resolved the classes it names.
#[derive(Debug)]
pub struct RelationFieldDecl {
    /// The class whose body assigns the field.
    pub source: ClassRef,
    /// Whether that class is a Django model.
    pub source_is_model: bool,
    /// The call expression assigned to the field.
    pub call: ExprCall,
    /// The class of the field's inferred type, if it is a class.
    pub field_class: Option<ClassRef>,
    /// The class that the first positional argument resolves to, if any.
    pub target: Option<ClassRef>,
    /// The class that the `through=` argument resolves to, if any.
    pub through: Option<ClassRef>,
}

/// The reverse accessor a field adds: the target class, the accessor's name
/// and its type. There is none for a class that is not a model, a field that
/// is not a relation, a call with no positional argument (the target is read
/// from the first one only), an unresolved target, a symmetrical
/// many-to-many relation of a class to itself, a disabled or invalid
/// `related_name`, or a manager class the stubs lack.
pub open spec fn spec_reverse_accessor(d: RelationFieldDecl, m: DjangoManagerClasses) -> Option<
    (ClassRef, Seq<char>, RelatedType),
> {
    if !d.source_is_model || d.call.args@.len() == 0 {
        None
    } else {
        match d.field_class {
            None => None,
            Some(fc) => match spec_relation_kind(fc) {
                None => None,
                Some(kind) => match d.target {
                    None => None,
                    Some(t) => if kind == DjangoRelationKind::ManyToMany
                        && spec_is_symmetrical_self_m2m(d.call, same_class(d.source, t)) {
                        None
                    } else {
                        match spec_django_related_name(
                            d.call,
                            d.source.name@,
                            d.source.module@,
                            kind,
                        ) {
                            None => None,
                            Some(n) => match spec_reverse_field_type(kind, d.source, d.through, m) {
                                None => None,
                                Some(ty) => Some((t, n, ty)),
                            },
                        }
                    },
                },
            },
        }
    }
}

/// The reverse accessor a relation field adds, if any.
pub fn reverse_accessor(d: &RelationFieldDecl, m: &DjangoManagerClasses) -> (r: Option<
    (ClassRef, String, RelatedType),
>)
    ensures
        r is Some <==> spec_reverse_accessor(*d, *m) is Some,
        r matches Some(x) ==> spec_reverse_accessor(*d, *m) == Some((x.0, x.1@, x.2)),
{
    if !d.source_is_model || d.call.args.len() == 0 {
        return None;
    }
    let fc = match &d.field_class {
        Some(fc) => fc,
        None => {
            return None;
        },
    };
    let kind = match django_relation_kind(fc) {
        Some(k) => k,
        None => {
            return None;
        },
    };
    let t = match &d.target {
        Some(t) => t,
        None => {
            return None;
        },
    };
    match kind {
        DjangoRelationKind::ManyToMany => {
            if is_symmetrical_self_m2m(&d.call, is_same_class(&d.source, t)) {
                return None;
            }
        },
        _ => {},
    }
    let n = match django_related_name(&d.call, d.source.name.as_str(), d.source.module.as_str(), kind) {
        Some(n) => n,
        None => {
            return None;
        },
    };
    let through = match &d.through {
        Some(x) => Some(x),
        None => None,
    };
    match django_reverse_field_type(kind, &d.source, through, m) {
        Some(ty) => Some((copy_class(t), n, ty)),
        None => None,
    }
}

/// The accessors of one class, as names and types.
pub open spec fn accessors_view(v: Seq<(String, RelatedType)>) -> Seq<(Seq<char>, RelatedType)> {
    v.map_values(|p: (String, RelatedType)| (p.0@, p.1))
}

/// The accessors of each class, as names and types.
pub open spec fn reverse_view(r: Seq<(ClassRef, Vec<(String, RelatedType)>)>) -> Seq<
    (ClassRef, Seq<(Seq<char>, RelatedType)>),
> {
    r.map_values(|p: (ClassRef, Vec<(String, RelatedType)>)| (p.0, accessors_view(p.1@)))
}

/// The index of the first entry for class `c`, or -1.
pub open spec fn class_index(s: Seq<(ClassRef, Seq<(Seq<char>, RelatedType)>)>, c: ClassRef) -> int
    decreases s.len(),
{
    if s.len() == 0 {
        -1
    } else {
        let j = class_index(s.drop_last(), c);
        if j >= 0 {
            j
        } else if same_class(s.last().0, c) {
            s.len() - 1
        } else {
            -1
        }
    }
}

/// `class_index` finds the first entry for the class, and only such an entry.
pub proof fn lemma_class_index(s: Seq<(ClassRef, Seq<(Seq<char>, RelatedType)>)>, c: ClassRef)
    ensures
        -1 <= class_index(s, c) < s.len(),
        class_index(s, c) >= 0 ==> same_class(s[class_index(s, c)].0, c),
        forall|j: int|
            0 <= j < s.len() && (class_index(s, c) < 0 || j < class_index(s, c)) ==> !same_class(
                s[j].0,
                c,
            ),
    decreases s.len(),
{
    if s.len() > 0 {
        lemma_class_index(s.drop_last(), c);
        assert forall|j: int|
            0 <= j < s.len() && (class_index(s, c) < 0 || j < class_index(s, c)) implies !same_class(
            s[j].0,
            c,
        ) by {
            if j < s.len() - 1 {
                assert(s.drop_last()[j] == s[j]);
            }
        }
    }
}

/// Sets the value under a name, in place when the name has an entry.
pub open spec fn upsert<V>(l: Seq<(Seq<char>, V)>, n: Seq<char>, v: V) -> Seq<(Seq<char>, V)> {
    if key_index(l, n) >= 0 {
        l.update(key_index(l, n), (n, v))
    } else {
        l.push((n, v))
    }
}

/// Adds the accessor `n` of type `ty` to class `c`.
pub open spec fn upsert_accessor(
    s: Seq<(ClassRef, Seq<(Seq<char>, RelatedType)>)>,
    c: ClassRef,
    n: Seq<char>,
    ty: RelatedType,
) -> Seq<(ClassRef, Seq<(Seq<char>, RelatedType)>)> {
    if class_index(s, c) >= 0 {
        s.update(class_index(s, c), (s[class_index(s, c)].0, upsert(s[class_index(s, c)].1, n, ty)))
    } else {
        s.push((c, seq![(n, ty)]))
    }
}

/// The reverse accessors that a sequence of relation fields adds, by target
/// class, in the order in which the fields are met.
pub open spec fn spec_reverse_relations(ds: Seq<RelationFieldDecl>, m: DjangoManagerClasses) -> Seq<
    (ClassRef, Seq<(Seq<char>, RelatedType)>),
>
    decreases ds.len(),
{
    if ds.len() == 0 {
        Seq::empty()
    } else {
        let s = spec_reverse_relations(ds.drop_last(), m);
        match spec_reverse_accessor(ds.last(), m) {
            Some(x) => upsert_accessor(s, x.0, x.1, x.2),
            None => s,
        }
    }
}

/// Sets the accessor `n` in a list of accessors.
fn upsert_accessor_list(l: &mut Vec<(String, RelatedType)>, n: String, ty: RelatedType)
    ensures
        accessors_view(final(l)@) == upsert(accessors_view(old(l)@), n@, ty),
{
    let ghost v0 = accessors_view(l@);
    let mut i: usize = 0;
    while i < l.len()
        invariant
            i <= l@.len(),
            v0 == accessors_view(l@),
            v0 == accessors_view(old(l)@),
            forall|j: int| 0 <= j < i ==> (#[trigger] l@[j]).0@ != n@,
        decreases l@.len() - i,
    {
        if str_eq(l[i].0.as_str(), n.as_str()) {
            proof {
                lemma_key_index(v0, n@);
                assert(v0[i as int].0 == n@);
                let k = key_index(v0, n@);
                if 0 <= k < i {
                    assert(v0[k].0 == l@[k].0@);
                }
                assert(k == i);
            }
            let ghost l0 = l@;
            l.set(i, (n, ty));
            proof {
                assert(accessors_view(l@) =~= v0.update(i as int, (n@, ty)));
                assert(key_index(v0, n@) == i);
                assert(upsert(v0, n@, ty) == v0.update(i as int, (n@, ty)));
                assert(accessors_view(l@) == upsert(v0, n@, ty));
            }
            return ;
        }
        i = i + 1;
    }
    proof {
        lemma_key_index(v0, n@);
        let k = key_index(v0, n@);
        if k >= 0 {
            assert(v0[k].0 == l@[k].0@);
        }
    }
    let ghost l0 = l@;
    l.push((n, ty));
    proof {
        assert(accessors_view(l@) =~= v0.push((n@, ty)));
    }
}

/// Adds the accessor `n` of type `ty` to class `c`.
fn upsert_accessor_exec(
    r: &mut Vec<(ClassRef, Vec<(String, RelatedType)>)>,
    c: ClassRef,
    n: String,
    ty: RelatedType,
)
    ensures
        reverse_view(final(r)@) == upsert_accessor(reverse_view(old(r)@), c, n@, ty),
{
    let ghost v0 = reverse_view(r@);
    let mut i: usize = 0;
    while i < r.len()
        invariant
            i <= r@.len(),
            v0 == reverse_view(r@),
            v0 == reverse_view(old(r)@),
            forall|j: int| 0 <= j < i ==> !same_class((#[trigger] r@[j]).0, c),
        decreases r@.len() - i,
    {
        if is_same_class(&r[i].0, &c) {
            proof {
                lemma_class_index(v0, c);
                assert(v0[i as int].0 == r@[i as int].0);
                assert(same_class(v0[i as int].0, c));
                let k = class_index(v0, c);
                if 0 <= k < i {
                    assert(v0[k].0 == r@[k].0);
                }
                assert(k == i);
            }
            let mut entry = r.remove(i);
            let ghost e0 = entry;
            upsert_accessor_list(&mut entry.1, n, ty);
            r.insert(i, entry);
            proof {
                assert(reverse_view(r@) =~= v0.update(
                    i as int,
                    (v0[i as int].0, upsert(v0[i as int].1, n@, ty)),
                ));
            }
            return ;
        }
        i = i + 1;
    }
    proof {
        lemma_class_index(v0, c);
        let k = class_index(v0, c);
        if k >= 0 {
            assert(v0[k].0 == r@[k].0);
        }
    }
    let mut l: Vec<(String, RelatedType)> = Vec::new();
    l.push((n, ty));
    r.push((c, l));
    proof {
        assert(accessors_view(l@) =~= seq![(n@, ty)]);
        assert(reverse_view(r@) =~= v0.push((c, seq![(n@, ty)])));
    }
}

/// The reverse accessors that the relation fields of a module add, by target
/// class: the classes in the order first targeted, the accessors of each in
/// the order first added, a later accessor of the same name replacing the
/// earlier one's type.
pub fn solve_django_reverse_relations(
    decls: &Vec<RelationFieldDecl>,
    m: &DjangoManagerClasses,
) -> (r: Vec<(ClassRef, Vec<(String, RelatedType)>)>)
    ensures
        reverse_view(r@) == spec_reverse_relations(decls@, *m),
{
    let mut r: Vec<(ClassRef, Vec<(String, RelatedType)>)> = Vec::new();
    let mut i: usize = 0;
    proof {
        assert(reverse_view(r@) =~= Seq::<(ClassRef, Seq<(Seq<char>, RelatedType)>)>::empty());
        assert(decls@.take(0) =~= Seq::<RelationFieldDecl>::empty());
    }
    while i < decls.len()
        invariant
            i <= decls@.len(),
            reverse_view(r@) == spec_reverse_relations(decls@.take(i as int), *m),
        decreases decls@.len() - i,
    {
        proof {
            assert(decls@.take(i + 1).drop_last() =~= decls@.take(i as int));
            assert(decls@.take(i + 1).last() == decls@[i as int]);
        }
        match reverse_accessor(&decls[i], m) {
            Some((c, n, ty)) => {
                upsert_accessor_exec(&mut r, c, n, ty);
            },
            None => {},
        }
        i = i + 1;
    }
    proof {
        assert(decls@.take(decls@.len() as int) =~= decls@);
    }
    r
}

/// The reverse accessors of class `c`, if some relation targets it.
pub fn reverse_fields_of<'a>(
    relations: &'a Vec<(ClassRef, Vec<(String, RelatedType)>)>,
    c: &ClassRef,
) -> (r: Option<&'a Vec<(String, RelatedType)>>)
    ensures
        r is Some <==> class_index(reverse_view(relations@), *c) >= 0,
        r matches Some(v) ==> accessors_view(v@) == reverse_view(relations@)[class_index(
            reverse_view(relations@),
            *c,
        )].1,
{
    let ghost v = reverse_view(relations@);
    proof {
        lemma_class_index(v, *c);
    }
    let mut i: usize = 0;
    while i < relations.len()
        invariant
            i <= relations@.len(),
            v == reverse_view(relations@),
            forall|j: int| 0 <= j < i ==> !same_class((#[trigger] relations@[j]).0, *c),
        decreases relations@.len() - i,
    {
        if is_same_class(&relations[i].0, c) {
            proof {
                lemma_class_index(v, *c);
                let k = class_index(v, *c);
                assert(v[i as int].0 == relations@[i as int].0);
                if 0 <= k < i {
                    assert(v[k].0 == relations@[k].0);
                }
                assert(k == i);
            }
            return Some(&relations[i].1);
        }
        i = i + 1;
    }
    proof {
        let k = class_index(v, *c);
        if k >= 0 {
            assert(v[k].0 == relations@[k].0);
        }
    }
    None
}


// ---------------------------------------------------------------------------
// The synthesized attributes of a model
// ---------------------------------------------------------------------------

/// An attribute Django synthesizes on a model.
#[derive(Debug)]
pub enum SynthesizedField<T> {
    /// An attribute of the given type: `id`, `pk`, `<field>_id`.
    Attribute(T),
    /// A `get_<field>_display(self) -> str` method.
    DisplayMethod,
    /// A reverse accessor.
    Reverse(RelatedType),
}

/// Named entries as names and values.
pub open spec fn named_view<V>(s: Seq<(String, V)>) -> Seq<(Seq<char>, V)> {
    s.map_values(|p: (String, V)| (p.0@, p.1))
}

/// The primary key attributes: `pk`, and `id` first when the model declares
/// no primary key of its own.
pub open spec fn pk_fields<T>(pk: Option<(T, bool)>) -> Seq<(Seq<char>, SynthesizedField<T>)> {
    match pk {
        None => Seq::empty(),
        Some(p) => if p.1 {
            seq![("pk"@, SynthesizedField::Attribute(p.0))]
        } else {
            seq![("id"@, SynthesizedField::Attribute(p.0)), ("pk"@, SynthesizedField::Attribute(p.0))]
        },
    }
}

/// Adds `<field>_id` for each foreign-key-like field whose id type is known.
pub open spec fn add_fk_ids<T>(
    acc: Seq<(Seq<char>, SynthesizedField<T>)>,
    fks: Seq<(Seq<char>, Option<T>)>,
) -> Seq<(Seq<char>, SynthesizedField<T>)>
    decreases fks.len(),
{
    if fks.len() == 0 {
        acc
    } else {
        let a = add_fk_ids(acc, fks.drop_last());
        match fks.last().1 {
            Some(t) => upsert(a, fks.last().0 + "_id"@, SynthesizedField::Attribute(t)),
            None => a,
        }
    }
}

/// Adds `get_<field>_display` for each field with choices.
pub open spec fn add_display_methods<T>(
    acc: Seq<(Seq<char>, SynthesizedField<T>)>,
    names: Seq<Seq<char>>,
) -> Seq<(Seq<char>, SynthesizedField<T>)>
    decreases names.len(),
{
    if names.len() == 0 {
        acc
    } else {
        upsert(
            add_display_methods(acc, names.drop_last()),
            "get_"@ + names.last() + "_display"@,
            SynthesizedField::DisplayMethod,
        )
    }
}

/// Adds the reverse accessors.
pub open spec fn add_reverse<T>(
    acc: Seq<(Seq<char>, SynthesizedField<T>)>,
    rev: Seq<(Seq<char>, RelatedType)>,
) -> Seq<(Seq<char>, SynthesizedField<T>)>
    decreases rev.len(),
{
    if rev.len() == 0 {
        acc
    } else {
        upsert(add_reverse(acc, rev.drop_last()), rev.last().0, SynthesizedField::Reverse(rev.last().1))
    }
}

/// The attributes synthesized on a Django model, in order, a later one of the
/// same name replacing an earlier one in place.
pub open spec fn spec_model_synthesized_fields<T>(
    pk: Option<(T, bool)>,
    fks: Seq<(Seq<char>, Option<T>)>,
    choices: Seq<Seq<char>>,
    rev: Seq<(Seq<char>, RelatedType)>,
) -> Seq<(Seq<char>, SynthesizedField<T>)> {
    add_reverse(add_display_methods(add_fk_ids(pk_fields(pk), fks), choices), rev)
}

/// Sets the value under a name, in place when the name has an entry.
fn upsert_named<V>(l: &mut Vec<(String, V)>, n: String, v: V)
    ensures
        named_view(final(l)@) == upsert(named_view(old(l)@), n@, v),
{
    let ghost v0 = named_view(l@);
    let mut i: usize = 0;
    while i < l.len()
        invariant
            i <= l@.len(),
            v0 == named_view(l@),
            v0 == named_view(old(l)@),
            forall|j: int| 0 <= j < i ==> (#[trigger] l@[j]).0@ != n@,
        decreases l@.len() - i,
    {
        if str_eq(l[i].0.as_str(), n.as_str()) {
            proof {
                lemma_key_index(v0, n@);
                assert(v0[i as int].0 == n@);
                let k = key_index(v0, n@);
                if 0 <= k < i {
                    assert(v0[k].0 == l@[k].0@);
                }
                assert(k == i);
            }
            l.set(i, (n, v));
            proof {
                assert(named_view(l@) =~= v0.update(i as int, (n@, v)));
            }
            return ;
        }
        i = i + 1;
    }
    proof {
        lemma_key_index(v0, n@);
        let k = key_index(v0, n@);
        if k >= 0 {
            assert(v0[k].0 == l@[k].0@);
        }
    }
    l.push((n, v));
    proof {
        assert(named_view(l@) =~= v0.push((n@, v)));
    }
}

/// The attributes Django synthesizes on a class, or `None` when the class is
/// not a Django model. `pk` is the primary key type and whether the model
/// declares its own primary key; `foreign_key_ids` holds, for each
/// foreign-key-like field in declaration order, the id type when it is known;
/// `fields_with_choices` names the fields declared with `choices`; `reverse`
/// holds the reverse accessors that relations elsewhere add to the class.
pub fn get_django_model_synthesized_fields<T: Copy>(
    is_django_model: bool,
    pk: Option<(T, bool)>,
    foreign_key_ids: &Vec<(String, Option<T>)>,
    fields_with_choices: &Vec<String>,
    reverse: Option<&Vec<(String, RelatedType)>>,
) -> (r: Option<Vec<(String, SynthesizedField<T>)>>)
    ensures
        r is Some <==> is_django_model,
        r matches Some(v) ==> named_view(v@) == spec_model_synthesized_fields(
            pk,
            named_view(foreign_key_ids@),
            crate::collections::strings(fields_with_choices@),
            match reverse {
                Some(x) => accessors_view(x@),
                None => Seq::empty(),
            },
        ),
{
    if !is_django_model {
        return None;
    }
    let mut fields: Vec<(String, SynthesizedField<T>)> = Vec::new();
    match pk {
        Some((t, custom)) => {
            if !custom {
                fields.push((concat3("id", "", ""), SynthesizedField::Attribute(t)));
            }
            fields.push((concat3("pk", "", ""), SynthesizedField::Attribute(t)));
            proof {
                reveal_strlit("id");
                reveal_strlit("pk");
                reveal_strlit("");
                assert(named_view(fields@) =~= pk_fields(pk));
            }
        },
        None => {
            proof {
                assert(named_view(fields@) =~= pk_fields(pk));
            }
        },
    }
    let ghost base = named_view(fields@);
    let ghost fks = named_view(foreign_key_ids@);
    let mut i: usize = 0;
    proof {
        assert(fks.take(0) =~= Seq::<(Seq<char>, Option<T>)>::empty());
    }
    while i < foreign_key_ids.len()
        invariant
            i <= foreign_key_ids@.len(),
            fks == named_view(foreign_key_ids@),
            named_view(fields@) == add_fk_ids(base, fks.take(i as int)),
        decreases foreign_key_ids@.len() - i,
    {
        proof {
            assert(fks.take(i + 1).drop_last() =~= fks.take(i as int));
            assert(fks.take(i + 1).last() == fks[i as int]);
        }
        match &foreign_key_ids[i].1 {
            Some(t) => {
                let name = concat3(foreign_key_ids[i].0.as_str(), "_id", "");
                proof {
                    reveal_strlit("");
                    assert(name@ == fks[i as int].0 + "_id"@);
                }
                upsert_named(&mut fields, name, SynthesizedField::Attribute(*t));
            },
            None => {},
        }
        i = i + 1;
    }
    proof {
        assert(fks.take(fks.len() as int) =~= fks);
    }
    let ghost with_fks = named_view(fields@);
    let ghost cs = crate::collections::strings(fields_with_choices@);
    let mut i: usize = 0;
    proof {
        assert(cs.take(0) =~= Seq::<Seq<char>>::empty());
    }
    while i < fields_with_choices.len()
        invariant
            i <= fields_with_choices@.len(),
            cs == crate::collections::strings(fields_with_choices@),
            named_view(fields@) == add_display_methods(with_fks, cs.take(i as int)),
        decreases fields_with_choices@.len() - i,
    {
        proof {
            assert(cs.take(i + 1).drop_last() =~= cs.take(i as int));
            assert(cs.take(i + 1).last() == cs[i as int]);
        }
        let name = concat3("get_", fields_with_choices[i].as_str(), "_display");
        upsert_named(&mut fields, name, SynthesizedField::DisplayMethod);
        i = i + 1;
    }
    proof {
        assert(cs.take(cs.len() as int) =~= cs);
    }
    let ghost with_display = named_view(fields@);
    match reverse {
        Some(rev) => {
            let ghost rv = accessors_view(rev@);
            let mut i: usize = 0;
            proof {
                assert(rv.take(0) =~= Seq::<(Seq<char>, RelatedType)>::empty());
            }
            while i < rev.len()
                invariant
                    i <= rev@.len(),
                    rv == accessors_view(rev@),
                    named_view(fields@) == add_reverse(with_display, rv.take(i as int)),
                decreases rev@.len() - i,
            {
                proof {
                    assert(rv.take(i + 1).drop_last() =~= rv.take(i as int));
                    assert(rv.take(i + 1).last() == rv[i as int]);
                }
                upsert_named(&mut fields, rev[i].0.clone(), SynthesizedField::Reverse(copy_related(&rev[i].1)));
                i = i + 1;
            }
            proof {
                assert(rv.take(rv.len() as int) =~= rv);
            }
        },
        None => {},
    }
    Some(fields)
}

// ---------------------------------------------------------------------------
// Laws
// ---------------------------------------------------------------------------

/// A symmetrical many-to-many relation of a class to itself adds no reverse
/// accessor.
pub proof fn law_symmetrical_self_m2m_adds_no_accessor(d: RelationFieldDecl, m: DjangoManagerClasses)
    requires
        d.field_class matches Some(fc) && spec_relation_kind(fc) == Some(DjangoRelationKind::ManyToMany),
        d.target matches Some(t) && spec_is_symmetrical_self_m2m(d.call, same_class(d.source, t)),
    ensures
        spec_reverse_accessor(d, m) is None,
{
}

/// The reverse accessor of a field lands on the class its target resolved to.
pub proof fn law_accessor_lands_on_the_target(d: RelationFieldDecl, m: DjangoManagerClasses)
    ensures
        spec_reverse_accessor(d, m) matches Some(x) ==> d.target == Some(x.0),
{
}

/// Class `c` has an accessor named `n` in a reverse-relation table.
pub open spec fn class_has_accessor(
    s: Seq<(ClassRef, Seq<(Seq<char>, RelatedType)>)>,
    c: ClassRef,
    n: Seq<char>,
) -> bool {
    class_index(s, c) >= 0 && key_index(s[class_index(s, c)].1, n) >= 0
}

/// Field `d` adds an accessor named `n` to class `c`.
pub open spec fn adds_accessor(d: RelationFieldDecl, m: DjangoManagerClasses, c: ClassRef, n: Seq<
    char,
>) -> bool {
    match spec_reverse_accessor(d, m) {
        Some(x) => same_class(x.0, c) && x.1 == n,
        None => false,
    }
}

/// References to one class are found at one index.
proof fn lemma_class_index_same_class(
    s: Seq<(ClassRef, Seq<(Seq<char>, RelatedType)>)>,
    c: ClassRef,
    t: ClassRef,
)
    requires
        same_class(c, t),
    ensures
        class_index(s, c) == class_index(s, t),
    decreases s.len(),
{
    if s.len() > 0 {
        lemma_class_index_same_class(s.drop_last(), c, t);
    }
}

/// Replacing the accessors of one entry, keeping its class, moves no class.
proof fn lemma_class_index_update(
    s: Seq<(ClassRef, Seq<(Seq<char>, RelatedType)>)>,
    i: int,
    v: Seq<(Seq<char>, RelatedType)>,
    c: ClassRef,
)
    requires
        0 <= i < s.len(),
    ensures
        class_index(s.update(i, (s[i].0, v)), c) == class_index(s, c),
    decreases s.len(),
{
    let u = s.update(i, (s[i].0, v));
    if i == s.len() - 1 {
        assert(u.drop_last() =~= s.drop_last());
    } else {
        assert(u.drop_last() =~= s.drop_last().update(i, (s[i].0, v)));
        lemma_class_index_update(s.drop_last(), i, v, c);
    }
}

/// Adding accessor `n` to class `t` adds it to the classes that are `t`, and
/// to no other.
proof fn lemma_upsert_accessor_has(
    s: Seq<(ClassRef, Seq<(Seq<char>, RelatedType)>)>,
    t: ClassRef,
    n: Seq<char>,
    ty: RelatedType,
    c: ClassRef,
    n2: Seq<char>,
)
    ensures
        class_has_accessor(upsert_accessor(s, t, n, ty), c, n2) <==> class_has_accessor(s, c, n2)
            || (same_class(t, c) && n == n2),
{
    lemma_class_index(s, t);
    lemma_class_index(s, c);
    let u = upsert_accessor(s, t, n, ty);
    if same_class(t, c) {
        lemma_class_index_same_class(s, c, t);
    }
    if class_index(s, t) >= 0 {
        let i = class_index(s, t);
        lemma_class_index_update(s, i, upsert(s[i].1, n, ty), c);
        if same_class(t, c) {
            lemma_key_index(s[i].1, n);
            if key_index(s[i].1, n) >= 0 {
                lemma_key_index_update(s[i].1, key_index(s[i].1, n), ty, n2);
                assert(s[i].1[key_index(s[i].1, n)].0 == n);
                assert(s[i].1.update(key_index(s[i].1, n), (n, ty)) == s[i].1.update(
                    key_index(s[i].1, n),
                    (s[i].1[key_index(s[i].1, n)].0, ty),
                ));
                if n == n2 {
                    assert(key_index(s[i].1, n2) >= 0);
                }
            } else {
                lemma_key_index_push(s[i].1, (n, ty), n2);
            }
        } else {
            if class_index(s, c) >= 0 {
                assert(class_index(s, c) != i);
            }
        }
    } else {
        assert(u == s.push((t, seq![(n, ty)])));
        assert(s.push((t, seq![(n, ty)])).drop_last() =~= s);
        if class_index(s, c) < 0 && same_class(t, c) {
            assert(class_index(u, c) == s.len());
            lemma_key_index_push(Seq::<(Seq<char>, RelatedType)>::empty(), (n, ty), n2);
            assert(seq![(n, ty)] =~= Seq::<(Seq<char>, RelatedType)>::empty().push((n, ty)));
        }
    }
}

/// A class has an accessor of a given name exactly when some relation field
/// targeting that very class (same module, same name, same definition) adds
/// it: models that share a name do not share accessors.
pub proof fn law_accessors_come_from_fields_targeting_the_class(
    ds: Seq<RelationFieldDecl>,
    m: DjangoManagerClasses,
    c: ClassRef,
    n: Seq<char>,
)
    ensures
        class_has_accessor(spec_reverse_relations(ds, m), c, n) <==> exists|i: int|
            0 <= i < ds.len() && #[trigger] adds_accessor(ds[i], m, c, n),
    decreases ds.len(),
{
    if ds.len() == 0 {
        assert(class_index(Seq::<(ClassRef, Seq<(Seq<char>, RelatedType)>)>::empty(), c) == -1);
    } else {
        let init = ds.drop_last();
        law_accessors_come_from_fields_targeting_the_class(init, m, c, n);
        let s = spec_reverse_relations(init, m);
        match spec_reverse_accessor(ds.last(), m) {
            Some(x) => {
                lemma_upsert_accessor_has(s, x.0, x.1, x.2, c, n);
            },
            None => {},
        }
        if class_has_accessor(spec_reverse_relations(ds, m), c, n) {
            if class_has_accessor(s, c, n) {
                let i = choose|i: int| 0 <= i < init.len() && #[trigger] adds_accessor(init[i], m, c, n);
                assert(ds[i] == init[i]);
            } else {
                assert(adds_accessor(ds[ds.len() - 1], m, c, n));
            }
        }
        if exists|i: int| 0 <= i < ds.len() && #[trigger] adds_accessor(ds[i], m, c, n) {
            let i = choose|i: int| 0 <= i < ds.len() && #[trigger] adds_accessor(ds[i], m, c, n);
            if i < ds.len() - 1 {
                assert(init[i] == ds[i]);
            }
        }
    }
}

/// A list of named entries has an entry named `k`.
pub open spec fn has_key<V>(l: Seq<(Seq<char>, V)>, k: Seq<char>) -> bool {
    key_index(l, k) >= 0
}

/// Setting a name adds that name and keeps the others.
proof fn lemma_upsert_keys<V>(l: Seq<(Seq<char>, V)>, n: Seq<char>, v: V, k: Seq<char>)
    ensures
        has_key(upsert(l, n, v), k) <==> has_key(l, k) || k == n,
{
    lemma_key_index(l, n);
    let ki = key_index(l, n);
    if ki >= 0 {
        assert(l[ki].0 == n);
        assert(upsert(l, n, v) == l.update(ki, (l[ki].0, v)));
        lemma_key_index_update(l, ki, v, k);
        if k == n {
            assert(has_key(l, k));
        }
    } else {
        lemma_key_index_push(l, (n, v), k);
    }
}

/// The names `add_fk_ids` adds.
proof fn lemma_add_fk_ids_keys<T>(
    acc: Seq<(Seq<char>, SynthesizedField<T>)>,
    fks: Seq<(Seq<char>, Option<T>)>,
    k: Seq<char>,
)
    ensures
        has_key(add_fk_ids(acc, fks), k) <==> has_key(acc, k) || exists|i: int|
            0 <= i < fks.len() && (#[trigger] fks[i]).1 is Some && k == fks[i].0 + "_id"@,
    decreases fks.len(),
{
    if fks.len() > 0 {
        let init = fks.drop_last();
        lemma_add_fk_ids_keys(acc, init, k);
        let a = add_fk_ids(acc, init);
        match fks.last().1 {
            Some(t) => {
                lemma_upsert_keys(a, fks.last().0 + "_id"@, SynthesizedField::Attribute(t), k);
            },
            None => {},
        }
        if exists|i: int| 0 <= i < fks.len() && (#[trigger] fks[i]).1 is Some && k == fks[i].0 + "_id"@ {
            let i = choose|i: int| 0 <= i < fks.len() && (#[trigger] fks[i]).1 is Some && k == fks[i].0 + "_id"@;
            if i < fks.len() - 1 {
                assert(init[i] == fks[i]);
            }
        }
        if exists|i: int| 0 <= i < init.len() && (#[trigger] init[i]).1 is Some && k == init[i].0 + "_id"@ {
            let i = choose|i: int| 0 <= i < init.len() && (#[trigger] init[i]).1 is Some && k == init[i].0 + "_id"@;
            assert(fks[i] == init[i]);
        }
        if fks.last().1 is Some && k == fks.last().0 + "_id"@ {
            assert(fks[fks.len() - 1] == fks.last());
        }
    }
}

/// The names `add_display_methods` adds.
proof fn lemma_add_display_methods_keys<T>(
    acc: Seq<(Seq<char>, SynthesizedField<T>)>,
    names: Seq<Seq<char>>,
    k: Seq<char>,
)
    ensures
        has_key(add_display_methods(acc, names), k) <==> has_key(acc, k) || exists|i: int|
            0 <= i < names.len() && k == "get_"@ + #[trigger] names[i] + "_display"@,
    decreases names.len(),
{
    if names.len() > 0 {
        let init = names.drop_last();
        lemma_add_display_methods_keys(acc, init, k);
        lemma_upsert_keys(
            add_display_methods(acc, init),
            "get_"@ + names.last() + "_display"@,
            SynthesizedField::DisplayMethod,
            k,
        );
        if exists|i: int| 0 <= i < names.len() && k == "get_"@ + #[trigger] names[i] + "_display"@ {
            let i = choose|i: int| 0 <= i < names.len() && k == "get_"@ + #[trigger] names[i] + "_display"@;
            if i < names.len() - 1 {
                assert(init[i] == names[i]);
            }
        }
        if exists|i: int| 0 <= i < init.len() && k == "get_"@ + #[trigger] init[i] + "_display"@ {
            let i = choose|i: int| 0 <= i < init.len() && k == "get_"@ + #[trigger] init[i] + "_display"@;
            assert(names[i] == init[i]);
        }
        if k == "get_"@ + names.last() + "_display"@ {
            assert(names[names.len() - 1] == names.last());
        }
    }
}

/// The names `add_reverse` adds.
proof fn lemma_add_reverse_keys<T>(
    acc: Seq<(Seq<char>, SynthesizedField<T>)>,
    rev: Seq<(Seq<char>, RelatedType)>,
    k: Seq<char>,
)
    ensures
        has_key(add_reverse(acc, rev), k) <==> has_key(acc, k) || exists|i: int|
            0 <= i < rev.len() && k == (#[trigger] rev[i]).0,
    decreases rev.len(),
{
    if rev.len() > 0 {
        let init = rev.drop_last();
        lemma_add_reverse_keys(acc, init, k);
        lemma_upsert_keys(
            add_reverse(acc, init),
            rev.last().0,
            SynthesizedField::Reverse(rev.last().1),
            k,
        );
        if exists|i: int| 0 <= i < rev.len() && k == (#[trigger] rev[i]).0 {
            let i = choose|i: int| 0 <= i < rev.len() && k == (#[trigger] rev[i]).0;
            if i < rev.len() - 1 {
                assert(init[i] == rev[i]);
            }
        }
        if exists|i: int| 0 <= i < init.len() && k == (#[trigger] init[i]).0 {
            let i = choose|i: int| 0 <= i < init.len() && k == (#[trigger] init[i]).0;
            assert(rev[i] == init[i]);
        }
        if k == rev.last().0 {
            assert(rev[rev.len() - 1] == rev.last());
        }
    }
}

/// The attributes Django synthesizes on a model are named exactly: `pk` when
/// the primary key type is known, and `id` too unless the model declares its
/// own primary key; `<field>_id` for each foreign key whose id type is known;
/// `get_<field>_display` for each field with choices; and each reverse
/// accessor.
pub proof fn law_synthesized_field_names<T>(
    pk: Option<(T, bool)>,
    fks: Seq<(Seq<char>, Option<T>)>,
    choices: Seq<Seq<char>>,
    rev: Seq<(Seq<char>, RelatedType)>,
    k: Seq<char>,
)
    ensures
        has_key(spec_model_synthesized_fields(pk, fks, choices, rev), k) <==> {
            ||| (pk is Some && k == "pk"@)
            ||| (pk matches Some(p) && !p.1 && k == "id"@)
            ||| exists|i: int| 0 <= i < fks.len() && (#[trigger] fks[i]).1 is Some && k == fks[i].0 + "_id"@
            ||| exists|i: int| 0 <= i < choices.len() && k == "get_"@ + #[trigger] choices[i] + "_display"@
            ||| exists|i: int| 0 <= i < rev.len() && k == (#[trigger] rev[i]).0
        },
{
    let base = pk_fields(pk);
    let with_fks = add_fk_ids(base, fks);
    let with_display = add_display_methods(with_fks, choices);
    lemma_add_reverse_keys(with_display, rev, k);
    lemma_add_display_methods_keys(with_fks, choices, k);
    lemma_add_fk_ids_keys(base, fks, k);
    reveal_strlit("pk");
    reveal_strlit("id");
    match pk {
        Some(p) => {
            if p.1 {
                lemma_key_index_push(Seq::<(Seq<char>, SynthesizedField<T>)>::empty(), ("pk"@, SynthesizedField::Attribute(p.0)), k);
                assert(base =~= Seq::<(Seq<char>, SynthesizedField<T>)>::empty().push(("pk"@, SynthesizedField::Attribute(p.0))));
            } else {
                let one = Seq::<(Seq<char>, SynthesizedField<T>)>::empty().push(("id"@, SynthesizedField::Attribute(p.0)));
                lemma_key_index_push(Seq::<(Seq<char>, SynthesizedField<T>)>::empty(), ("id"@, SynthesizedField::Attribute(p.0)), k);
                lemma_key_index_push(one, ("pk"@, SynthesizedField::Attribute(p.0)), k);
                assert(base =~= one.push(("pk"@, SynthesizedField::Attribute(p.0))));
            }
        },
        None => {
            assert(key_index(base, k) == -1);
        },
    }
}

/// The scan recognizes a relation field by the name of its constructor, the
/// solver by its class: for the classes of Django's related fields module, the
/// two agree.
pub proof fn law_scan_and_solver_recognize_the_same_fields(field: ClassRef)
    requires
        field.toplevel,
        field.module@ == "django.db.models.fields.related"@,
    ensures
        spec_relation_kind(field) is Some <==> is_relation_constructor(field.name@),
{
}

/// The reverse accessor of a many-to-many field is
/// `ManyRelatedManager[source, T]`, where `T` is the model its `through=`
/// argument resolves to whenever it has one, and Django's `Model` only
/// otherwise.
pub proof fn law_many_to_many_accessor_keeps_the_through_model(d: RelationFieldDecl, m: DjangoManagerClasses)
    requires
        d.field_class is Some,
        d.field_class->0.toplevel,
        d.field_class->0.module@ == "django.db.models.fields.related"@,
        d.field_class->0.name@ == "ManyToManyField"@,
    ensures
        spec_reverse_accessor(d, m) matches Some(x) ==> x.2 == (RelatedType::ManyRelatedManager {
            manager: m.many_related_manager->0,
            source: d.source,
            through: match d.through {
                Some(t) => t,
                None => m.model->0,
            },
        }),
{
    reveal_strlit("ForeignKey");
    reveal_strlit("OneToOneField");
    reveal_strlit("ManyToManyField");
    reveal_strlit("django.db.models.fields.related");
    let fc = d.field_class->0;
    assert(fc.name@.len() == 15);
    assert(!spec_is_one_to_one_field(fc));
    assert(spec_is_many_to_many_field(fc));
    assert(spec_relation_kind(fc) == Some(DjangoRelationKind::ManyToMany));
}

/// Looking a name up after setting one: the value set for that name, the
/// earlier value for any other.
proof fn lemma_lookup_upsert<V>(l: Seq<(Seq<char>, V)>, n: Seq<char>, v: V, k: Seq<char>)
    ensures
        lookup(upsert(l, n, v), k) == (if k == n {
            Some(v)
        } else {
            lookup(l, k)
        }),
{
    lemma_key_index(l, n);
    lemma_key_index(l, k);
    let ki = key_index(l, n);
    if ki >= 0 {
        assert(l[ki].0 == n);
        assert(upsert(l, n, v) == l.update(ki, (l[ki].0, v)));
        lemma_key_index_update(l, ki, v, k);
        if k != n && key_index(l, k) >= 0 {
            assert(key_index(l, k) != ki);
        }
    } else {
        lemma_key_index_push(l, (n, v), k);
    }
}

/// Names that end in `_id` end alike only when they start alike.
proof fn lemma_id_suffix_cancels(a: Seq<char>, b: Seq<char>)
    requires
        a + "_id"@ == b + "_id"@,
    ensures
        a == b,
{
    reveal_strlit("_id");
    let suffix = "_id"@;
    assert((a + suffix).len() == a.len() + suffix.len());
    assert((b + suffix).len() == b.len() + suffix.len());
    assert(a.len() == b.len());
    assert forall|i: int| 0 <= i < a.len() implies a[i] == b[i] by {
        assert((a + "_id"@)[i] == a[i]);
        assert((b + "_id"@)[i] == b[i]);
    }
    assert(a =~= b);
}

/// `<f>_id` after adding the foreign key ids: the id type of the last
/// foreign key `f` whose id type is known.
proof fn lemma_fk_id_lookup<T>(
    acc: Seq<(Seq<char>, SynthesizedField<T>)>,
    fks: Seq<(Seq<char>, Option<T>)>,
    i: int,
    t: T,
)
    requires
        0 <= i < fks.len(),
        fks[i].1 == Some(t),
        forall|j: int| i < j < fks.len() && (#[trigger] fks[j]).0 == fks[i].0 ==> fks[j].1 is None,
    ensures
        lookup(add_fk_ids(acc, fks), fks[i].0 + "_id"@) == Some(SynthesizedField::Attribute(t)),
    decreases fks.len(),
{
    let k = fks[i].0 + "_id"@;
    let init = fks.drop_last();
    let last = fks.last();
    assert(last == fks[fks.len() - 1]);
    if i == fks.len() - 1 {
        lemma_lookup_upsert(add_fk_ids(acc, init), last.0 + "_id"@, SynthesizedField::Attribute(t), k);
    } else {
        assert(init[i] == fks[i]);
        assert forall|j: int| i < j < init.len() && (#[trigger] init[j]).0 == init[i].0 implies init[j].1 is None by {
            assert(init[j] == fks[j]);
        }
        lemma_fk_id_lookup(acc, init, i, t);
        match last.1 {
            Some(t2) => {
                if last.0 + "_id"@ == k {
                    lemma_id_suffix_cancels(last.0, fks[i].0);
                }
                lemma_lookup_upsert(add_fk_ids(acc, init), last.0 + "_id"@, SynthesizedField::Attribute(t2), k);
            },
            None => {},
        }
    }
}

/// Display methods never take a name that ends in `_id`.
proof fn lemma_display_methods_keep_ids<T>(
    acc: Seq<(Seq<char>, SynthesizedField<T>)>,
    names: Seq<Seq<char>>,
    x: Seq<char>,
)
    ensures
        lookup(add_display_methods(acc, names), x + "_id"@) == lookup(acc, x + "_id"@),
    decreases names.len(),
{
    if names.len() > 0 {
        reveal_strlit("_id");
        reveal_strlit("_display");
        let n = "get_"@ + names.last() + "_display"@;
        assert(n.last() == 'y');
        assert((x + "_id"@).last() == 'd');
        lemma_display_methods_keep_ids(acc, names.drop_last(), x);
        lemma_lookup_upsert(
            add_display_methods(acc, names.drop_last()),
            n,
            SynthesizedField::DisplayMethod,
            x + "_id"@,
        );
    }
}

/// Reverse accessors leave alone every name none of them has.
proof fn lemma_reverse_keeps_other_names<T>(
    acc: Seq<(Seq<char>, SynthesizedField<T>)>,
    rev: Seq<(Seq<char>, RelatedType)>,
    k: Seq<char>,
)
    requires
        forall|j: int| 0 <= j < rev.len() ==> (#[trigger] rev[j]).0 != k,
    ensures
        lookup(add_reverse(acc, rev), k) == lookup(acc, k),
    decreases rev.len(),
{
    if rev.len() > 0 {
        assert(rev[rev.len() - 1] == rev.last());
        assert forall|j: int| 0 <= j < rev.drop_last().len() implies (#[trigger] rev.drop_last()[j]).0 != k by {
            assert(rev.drop_last()[j] == rev[j]);
        }
        lemma_reverse_keeps_other_names(acc, rev.drop_last(), k);
        lemma_lookup_upsert(
            add_reverse(acc, rev.drop_last()),
            rev.last().0,
            SynthesizedField::Reverse(rev.last().1),
            k,
        );
    }
}

/// The `<f>_id` attribute of a model has exactly the id type given for its
/// foreign key `f` (the last one named `f` whose id type is known), whatever
/// the model's own primary key type and its fields with choices; only a
/// reverse accessor of that very name could replace it.
pub proof fn law_foreign_key_id_has_the_given_id_type<T>(
    pk: Option<(T, bool)>,
    fks: Seq<(Seq<char>, Option<T>)>,
    choices: Seq<Seq<char>>,
    rev: Seq<(Seq<char>, RelatedType)>,
    i: int,
    t: T,
)
    requires
        0 <= i < fks.len(),
        fks[i].1 == Some(t),
        forall|j: int| i < j < fks.len() && (#[trigger] fks[j]).0 == fks[i].0 ==> fks[j].1 is None,
        forall|j: int| 0 <= j < rev.len() ==> (#[trigger] rev[j]).0 != fks[i].0 + "_id"@,
    ensures
        lookup(spec_model_synthesized_fields(pk, fks, choices, rev), fks[i].0 + "_id"@) == Some(
            SynthesizedField::Attribute(t),
        ),
{
    let base = pk_fields(pk);
    let with_fks = add_fk_ids(base, fks);
    lemma_fk_id_lookup(base, fks, i, t);
    lemma_display_methods_keep_ids(with_fks, choices, fks[i].0);
    lemma_reverse_keeps_other_names(add_display_methods(with_fks, choices), rev, fks[i].0 + "_id"@);
}

} // verus!
