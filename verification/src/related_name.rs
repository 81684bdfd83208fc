//! The names of the accessors Django adds to the model a relation points at.
use vstd::prelude::*;

use crate::ast::{Expr, ExprCall, find_keyword, spec_find_keyword};
use crate::django_index::last_dot;
use crate::identifier::{is_python_identifier, spec_is_python_identifier};
use crate::text::{
    chars_of, contains_sub, contains_sub_exec, lowercase, replace_all, replace_all_exec, str_eq,
    string_of, to_lowercase,
};

verus! {

/// The kind of a relation field.
#[derive(Clone, Copy, Debug, PartialEq, Eq)]
pub enum DjangoRelationKind {
    ForeignKey,
    OneToOne,
    ManyToMany,
}

/// The dot-separated components of `s`, in order.
pub open spec fn split_dots(s: Seq<char>) -> Seq<Seq<char>>
    decreases s.len(),
{
    if last_dot(s) < 0 {
        seq![s]
    } else {
        proof {
            lemma_last_dot(s);
        }
        split_dots(s.take(last_dot(s))).push(s.skip(last_dot(s) + 1))
    }
}

/// `last_dot` is the position of the last `'.'`.
pub proof fn lemma_last_dot(s: Seq<char>)
    ensures
        -1 <= last_dot(s) < s.len(),
        last_dot(s) >= 0 ==> s[last_dot(s)] == '.',
        forall|j: int| last_dot(s) < j < s.len() ==> s[j] != '.',
    decreases s.len(),
{
    if s.len() > 0 && s.last() != '.' {
        lemma_last_dot(s.drop_last());
        assert forall|j: int| last_dot(s) < j < s.len() implies s[j] != '.' by {
            if j < s.len() - 1 {
                assert(s.drop_last()[j] == s[j]);
            }
        }
    }
}

/// The component just before the last `models` component that has one.
pub open spec fn app_label_in(parts: Seq<Seq<char>>) -> Option<Seq<char>>
    decreases parts.len(),
{
    if parts.len() < 2 {
        None
    } else if parts.last() == "models"@ {
        Some(parts[parts.len() - 2])
    } else {
        app_label_in(parts.drop_last())
    }
}

/// The Django app label of a module: the package holding its `models`
/// component, as in `myapp` for `myapp.models`.
pub open spec fn spec_app_label(module_name: Seq<char>) -> Option<Seq<char>> {
    app_label_in(split_dots(module_name))
}

/// The default accessor name: the lowercased source class name, followed by
/// `_set` for the relations whose accessor is a manager.
pub open spec fn spec_default_related_name(class_name_lower: Seq<char>, kind: DjangoRelationKind) -> Seq<
    char,
> {
    match kind {
        DjangoRelationKind::OneToOne => class_name_lower,
        _ => class_name_lower + "_set"@,
    }
}

/// The accessor name a `related_name` string gives, once the source class
/// name and the app label are lowercased. `+` at the end disables the
/// accessor; `%(class)s` and `%(app_label)s` are substituted; the result must
/// be an identifier, which also discards unsubstituted placeholders.
pub open spec fn spec_render_related_name(
    raw: Seq<char>,
    class_name_lower: Seq<char>,
    app_label_lower: Option<Seq<char>>,
) -> Option<Seq<char>> {
    if raw.len() > 0 && raw.last() == '+' {
        None
    } else {
        let s1 = replace_all(raw, "%(class)s"@, class_name_lower);
        let s2 = if contains_sub(s1, "%(app_label)s"@) {
            match app_label_lower {
                Some(a) => Some(replace_all(s1, "%(app_label)s"@, a)),
                None => None,
            }
        } else {
            Some(s1)
        };
        match s2 {
            Some(s) => if spec_is_python_identifier(s) {
                Some(s)
            } else {
                None
            },
            None => None,
        }
    }
}

/// The accessor name a `related_name` string gives for a source class.
pub open spec fn spec_format_related_name(
    raw: Seq<char>,
    class_name: Seq<char>,
    module_name: Seq<char>,
) -> Option<Seq<char>> {
    spec_render_related_name(
        raw,
        lowercase(class_name),
        match spec_app_label(module_name) {
            Some(a) => Some(lowercase(a)),
            None => None,
        },
    )
}

/// The accessor name of a relation field: its `related_name` when given as a
/// string, the default when absent or `None`; no accessor otherwise.
pub open spec fn spec_django_related_name(
    call: ExprCall,
    class_name: Seq<char>,
    module_name: Seq<char>,
    kind: DjangoRelationKind,
) -> Option<Seq<char>> {
    match spec_find_keyword(call.keywords@, "related_name"@) {
        None => Some(spec_default_related_name(lowercase(class_name), kind)),
        Some(Expr::NoneLiteral) => Some(spec_default_related_name(lowercase(class_name), kind)),
        Some(Expr::StringLiteral(lit)) => spec_format_related_name(lit@, class_name, module_name),
        _ => None,
    }
}

/// Whether a many-to-many relation from a class to itself is symmetrical, so
/// that Django adds no reverse accessor: only when symmetry is statically
/// known (absent, `None` or `True`).
pub open spec fn spec_is_symmetrical_self_m2m(call: ExprCall, same_class: bool) -> bool {
    same_class && match spec_find_keyword(call.keywords@, "symmetrical"@) {
        None => true,
        Some(Expr::NoneLiteral) => true,
        Some(Expr::BooleanLiteral(b)) => b,
        _ => false,
    }
}

/// The components of `s` split at each `'.'`.
fn split_dots_exec(s: &Vec<char>) -> (r: Vec<Vec<char>>)
    ensures
        r@.map_values(|p: Vec<char>| p@) == split_dots(s@),
    decreases s@.len(),
{
    let mut i: usize = s.len();
    proof {
        assert(s@.take(i as int) =~= s@);
    }
    while i > 0
        invariant
            i <= s@.len(),
            last_dot(s@) == last_dot(s@.take(i as int)),
            forall|j: int| i <= j < s@.len() ==> s@[j] != '.',
        ensures
            i <= s@.len(),
            last_dot(s@) == last_dot(s@.take(i as int)),
            i > 0 ==> s@[i - 1] == '.',
        decreases i,
    {
        proof {
            assert(s@.take(i as int).drop_last() =~= s@.take(i - 1));
        }
        if s[i - 1] == '.' {
            break;
        }
        i = i - 1;
    }
    if i == 0 {
        proof {
            assert(s@.take(0) =~= Seq::<char>::empty());
        }
        let mut r: Vec<Vec<char>> = Vec::new();
        r.push(copy_chars(s, 0, s.len()));
        proof {
            assert(s@.subrange(0, s@.len() as int) =~= s@);
            assert(r@.map_values(|p: Vec<char>| p@) =~= seq![s@]);
        }
        return r;
    }
    let d = i - 1;
    proof {
        assert(s@.take(i as int).last() == '.');
        assert(last_dot(s@) == d);
    }
    let head = copy_chars(s, 0, d);
    let tail = copy_chars(s, i, s.len());
    proof {
        assert(head@ =~= s@.take(d as int));
        assert(tail@ =~= s@.skip(i as int));
    }
    let mut r = split_dots_exec(&head);
    let ghost r0 = r@;
    r.push(tail);
    proof {
        assert(r@.map_values(|p: Vec<char>| p@) =~= r0.map_values(|p: Vec<char>| p@).push(tail@));
    }
    r
}

/// The characters of `s` from `from` to `to`.
fn copy_chars(s: &Vec<char>, from: usize, to: usize) -> (r: Vec<char>)
    requires
        from <= to <= s@.len(),
    ensures
        r@ == s@.subrange(from as int, to as int),
{
    let mut r: Vec<char> = Vec::new();
    let mut k: usize = from;
    while k < to
        invariant
            from <= k <= to,
            to <= s@.len(),
            r@ == s@.subrange(from as int, k as int),
        decreases to - k,
    {
        r.push(s[k]);
        proof {
            assert(s@.subrange(from as int, k + 1) =~= s@.subrange(from as int, k as int).push(s@[k as int]));
        }
        k = k + 1;
    }
    r
}

/// The Django app label of a module, if it has one.
pub fn app_label(module_name: &str) -> (r: Option<String>)
    ensures
        r is Some <==> spec_app_label(module_name@) is Some,
        r matches Some(a) ==> spec_app_label(module_name@) == Some(a@),
{
    let parts = split_dots_exec(&chars_of(module_name));
    let ghost pv = parts@.map_values(|p: Vec<char>| p@);
    let models = chars_of("models");
    let mut n: usize = parts.len();
    proof {
        assert(pv.take(n as int) =~= pv);
    }
    while n >= 2
        invariant
            n <= parts@.len(),
            pv == parts@.map_values(|p: Vec<char>| p@),
            pv == split_dots(module_name@),
            models@ == "models"@,
            app_label_in(pv) == app_label_in(pv.take(n as int)),
        decreases n,
    {
        if crate::text::chars_eq(&parts[n - 1], &models) {
            proof {
                assert(pv[n - 1] == parts@[n - 1]@);
                assert(pv[n - 2] == parts@[n - 2]@);
                assert(pv.take(n as int).last() == pv[n - 1]);
                assert(pv.take(n as int)[n - 2] == pv[n - 2]);
                assert(app_label_in(pv.take(n as int)) == Some(pv[n - 2]));
            }
            return Some(string_of(&parts[n - 2]));
        }
        proof {
            assert(pv.take(n as int).drop_last() =~= pv.take(n - 1));
        }
        n = n - 1;
    }
    None
}

/// The accessor name a `related_name` string gives, from the lowercased source
/// class name and the lowercased app label, if the module has one.
pub fn render_related_name(raw: &str, class_name_lower: &str, app_label_lower: Option<&str>) -> (r:
    Option<String>)
    ensures
        r is Some <==> spec_render_related_name(
            raw@,
            class_name_lower@,
            match app_label_lower {
                Some(a) => Some(a@),
                None => None,
            },
        ) is Some,
        r matches Some(s) ==> spec_render_related_name(
            raw@,
            class_name_lower@,
            match app_label_lower {
                Some(a) => Some(a@),
                None => None,
            },
        ) == Some(s@),
{
    let raw_chars = chars_of(raw);
    if raw_chars.len() > 0 && raw_chars[raw_chars.len() - 1] == '+' {
        return None;
    }
    let class_pat = chars_of("%(class)s");
    let app_pat = chars_of("%(app_label)s");
    proof {
        reveal_strlit("%(class)s");
        reveal_strlit("%(app_label)s");
    }
    let s1 = replace_all_exec(&raw_chars, &class_pat, &chars_of(class_name_lower));
    let s2 = if contains_sub_exec(&s1, &app_pat) {
        match app_label_lower {
            Some(a) => replace_all_exec(&s1, &app_pat, &chars_of(a)),
            None => {
                return None;
            },
        }
    } else {
        s1
    };
    let name = string_of(&s2);
    if !is_python_identifier(name.as_str()) {
        return None;
    }
    Some(name)
}

/// The accessor name a `related_name` string gives for a source class named
/// `class_name` in module `module_name`.
pub fn format_related_name(raw: &str, class_name: &str, module_name: &str) -> (r: Option<String>)
    ensures
        r is Some <==> spec_format_related_name(raw@, class_name@, module_name@) is Some,
        r matches Some(s) ==> spec_format_related_name(raw@, class_name@, module_name@) == Some(s@),
{
    let class_lower = to_lowercase(class_name);
    match app_label(module_name) {
        Some(a) => {
            let a_lower = to_lowercase(a.as_str());
            render_related_name(raw, class_lower.as_str(), Some(a_lower.as_str()))
        },
        None => render_related_name(raw, class_lower.as_str(), None),
    }
}

/// The default accessor name for a source class.
pub fn django_default_related_name(class_name: &str, kind: DjangoRelationKind) -> (r: String)
    ensures
        r@ == spec_default_related_name(lowercase(class_name@), kind),
{
    let lower = to_lowercase(class_name);
    match kind {
        DjangoRelationKind::OneToOne => lower,
        _ => {
            let mut cs = chars_of(lower.as_str());
            let suffix = chars_of("_set");
            let mut k: usize = 0;
            let ghost c0 = cs@;
            while k < suffix.len()
                invariant
                    k <= suffix@.len(),
                    cs@ == c0 + suffix@.take(k as int),
                decreases suffix@.len() - k,
            {
                cs.push(suffix[k]);
                proof {
                    assert(suffix@.take(k + 1) =~= suffix@.take(k as int).push(suffix@[k as int]));
                }
                k = k + 1;
            }
            proof {
                assert(suffix@.take(suffix@.len() as int) =~= suffix@);
            }
            string_of(&cs)
        },
    }
}

/// The accessor name of a relation field declared in class `class_name` of
/// module `module_name`, if the relation has one.
pub fn django_related_name(
    call: &ExprCall,
    class_name: &str,
    module_name: &str,
    kind: DjangoRelationKind,
) -> (r: Option<String>)
    ensures
        r is Some <==> spec_django_related_name(*call, class_name@, module_name@, kind) is Some,
        r matches Some(s) ==> spec_django_related_name(*call, class_name@, module_name@, kind) == Some(
            s@,
        ),
{
    match find_keyword(call, "related_name") {
        None => Some(django_default_related_name(class_name, kind)),
        Some(Expr::NoneLiteral) => Some(django_default_related_name(class_name, kind)),
        Some(Expr::StringLiteral(lit)) => format_related_name(lit.as_str(), class_name, module_name),
        _ => None,
    }
}

/// Whether a many-to-many relation from a class to itself (when `same_class`)
/// is symmetrical, so that Django adds no reverse accessor.
pub fn is_symmetrical_self_m2m(call: &ExprCall, same_class: bool) -> (r: bool)
    ensures
        r == spec_is_symmetrical_self_m2m(*call, same_class),
{
    if !same_class {
        return false;
    }
    match find_keyword(call, "symmetrical") {
        None => true,
        Some(Expr::NoneLiteral) => true,
        Some(Expr::BooleanLiteral(b)) => *b,
        Some(_) => false,
    }
}

/// A `related_name` ending in `+` disables the reverse accessor.
pub proof fn law_plus_suffix_disables_accessor(
    raw: Seq<char>,
    class_name: Seq<char>,
    module_name: Seq<char>,
)
    requires
        raw.len() > 0,
        raw.last() == '+',
    ensures
        spec_format_related_name(raw, class_name, module_name) is None,
{
}

/// An accessor name taken from `related_name` is always a Python identifier.
pub proof fn law_related_name_is_identifier(
    raw: Seq<char>,
    class_name: Seq<char>,
    module_name: Seq<char>,
)
    ensures
        spec_format_related_name(raw, class_name, module_name) matches Some(n)
            ==> spec_is_python_identifier(n),
{
}

} // verus!
