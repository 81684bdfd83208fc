//! The Django form factories whose result type depends on their arguments:
//! `formset_factory`, `modelform_factory` and `modelformset_factory`.
//!
//! Which arguments to infer is decided here from the call; the checker infers
//! them; what the call returns is then decided here from what it found.
use vstd::prelude::*;

use crate::ast::{Expr, ExprCall, find_keyword, spec_find_keyword};
use crate::text::str_eq;

verus! {

/// The index of the first starred positional argument, or the number of
/// positional arguments when none is starred.
pub open spec fn first_starred(args: Seq<Expr>) -> int
    decreases args.len(),
{
    if args.len() == 0 {
        0
    } else if first_starred(args.drop_last()) < args.len() - 1 {
        first_starred(args.drop_last())
    } else if args.last() is Starred {
        args.len() - 1
    } else {
        args.len() as int
    }
}

/// The argument for parameter `name` at `position`: the keyword argument
/// `name=...`, else the positional argument at `position` when no starred
/// argument comes at or before it.
pub open spec fn spec_find_argument_value(call: ExprCall, name: Seq<char>, position: int) -> Option<
    Expr,
> {
    match spec_find_keyword(call.keywords@, name) {
        Some(e) => Some(e),
        None => if 0 <= position < first_starred(call.args@) {
            Some(call.args@[position])
        } else {
            None
        },
    }
}

/// `first_starred` is a position, and no argument before it is starred.
proof fn lemma_first_starred(args: Seq<Expr>)
    ensures
        0 <= first_starred(args) <= args.len(),
        first_starred(args) < args.len() ==> args[first_starred(args)] is Starred,
        forall|j: int| 0 <= j < first_starred(args) ==> !(#[trigger] args[j] is Starred),
    decreases args.len(),
{
    if args.len() > 0 {
        lemma_first_starred(args.drop_last());
        assert forall|j: int| 0 <= j < first_starred(args) implies !(#[trigger] args[j] is Starred) by {
            if j < args.len() - 1 {
                assert(args.drop_last()[j] == args[j]);
            }
        }
    }
}

/// The expression an optional reference points to.
pub open spec fn opt_expr(e: Option<&Expr>) -> Option<Expr> {
    match e {
        Some(x) => Some(*x),
        None => None,
    }
}

/// The argument for parameter `name` at `position` of a call.
pub fn find_argument_value<'a>(call: &'a ExprCall, name: &str, position: usize) -> (r: Option<&'a Expr>)
    ensures
        opt_expr(r) == spec_find_argument_value(*call, name@, position as int),
{
    match find_keyword(call, name) {
        Some(e) => {
            return Some(e);
        },
        None => {},
    }
    proof {
        lemma_first_starred(call.args@);
    }
    let mut i: usize = 0;
    while i < call.args.len()
        invariant
            i <= call.args@.len(),
            i <= position,
            spec_find_keyword(call.keywords@, name@) is None,
            forall|j: int| 0 <= j < i ==> !(#[trigger] call.args@[j] is Starred),
            0 <= first_starred(call.args@) <= call.args@.len(),
            first_starred(call.args@) < call.args@.len() ==> call.args@[first_starred(call.args@)] is Starred,
            forall|j: int| 0 <= j < first_starred(call.args@) ==> !(#[trigger] call.args@[j] is Starred),
        decreases call.args@.len() - i,
    {
        match &call.args[i] {
            Expr::Starred(_) => {
                return None;
            },
            _ => {},
        }
        if i == position {
            return Some(&call.args[i]);
        }
        i = i + 1;
    }
    None
}

/// A form factory of Django whose result type the checker specializes.
#[derive(Debug, Clone, Copy, PartialEq, Eq)]
pub enum FormFactory {
    /// `django.forms.formsets.formset_factory(form, formset, ...)`.
    FormsetFactory,
    /// `django.forms.models.modelform_factory(model, form, ...)`.
    ModelformFactory,
    /// `django.forms.models.modelformset_factory(model, form, _, formset, ...)`.
    ModelformsetFactory,
}

/// The factory a function `module.id` is.
pub open spec fn spec_form_factory(module: Seq<char>, id: Seq<char>) -> Option<FormFactory> {
    if module == "django.forms.formsets"@ && id == "formset_factory"@ {
        Some(FormFactory::FormsetFactory)
    } else if module == "django.forms.models"@ && id == "modelform_factory"@ {
        Some(FormFactory::ModelformFactory)
    } else if module == "django.forms.models"@ && id == "modelformset_factory"@ {
        Some(FormFactory::ModelformsetFactory)
    } else {
        None
    }
}

/// The form factory that the function `id` of module `module` is, if any.
pub fn form_factory(module: &str, id: &str) -> (r: Option<FormFactory>)
    ensures
        r == spec_form_factory(module@, id@),
{
    if str_eq(module, "django.forms.formsets") && str_eq(id, "formset_factory") {
        Some(FormFactory::FormsetFactory)
    } else if str_eq(module, "django.forms.models") && str_eq(id, "modelform_factory") {
        Some(FormFactory::ModelformFactory)
    } else if str_eq(module, "django.forms.models") && str_eq(id, "modelformset_factory") {
        Some(FormFactory::ModelformsetFactory)
    } else {
        None
    }
}

/// The arguments of a factory call that the checker infers: `model` (at 0)
/// for the model factories; `form` (at 0 for `formset_factory`, else at 1);
/// `formset` (at 1 for `formset_factory`, at 3 for `modelformset_factory`).
#[derive(Debug)]
pub struct FactoryArguments<'a> {
    pub model: Option<&'a Expr>,
    pub form: Option<&'a Expr>,
    pub formset: Option<&'a Expr>,
}

/// The arguments of a call of `factory` that the checker infers.
pub fn factory_arguments<'a>(factory: FormFactory, call: &'a ExprCall) -> (r: FactoryArguments<'a>)
    ensures
        match factory {
            FormFactory::FormsetFactory => {
                &&& r.model is None
                &&& opt_expr(r.form) == spec_find_argument_value(*call, "form"@, 0)
                &&& opt_expr(r.formset) == spec_find_argument_value(*call, "formset"@, 1)
            },
            FormFactory::ModelformFactory => {
                &&& opt_expr(r.model) == spec_find_argument_value(*call, "model"@, 0)
                &&& opt_expr(r.form) == spec_find_argument_value(*call, "form"@, 1)
                &&& r.formset is None
            },
            FormFactory::ModelformsetFactory => {
                &&& opt_expr(r.model) == spec_find_argument_value(*call, "model"@, 0)
                &&& opt_expr(r.form) == spec_find_argument_value(*call, "form"@, 1)
                &&& opt_expr(r.formset) == spec_find_argument_value(*call, "formset"@, 3)
            },
        },
{
    match factory {
        FormFactory::FormsetFactory => FactoryArguments {
            model: None,
            form: find_argument_value(call, "form", 0),
            formset: find_argument_value(call, "formset", 1),
        },
        FormFactory::ModelformFactory => FactoryArguments {
            model: find_argument_value(call, "model", 0),
            form: find_argument_value(call, "form", 1),
            formset: None,
        },
        FormFactory::ModelformsetFactory => FactoryArguments {
            model: find_argument_value(call, "model", 0),
            form: find_argument_value(call, "form", 1),
            formset: find_argument_value(call, "formset", 3),
        },
    }
}

/// What the checker found for one argument.
#[derive(Debug, Clone, Copy, PartialEq, Eq)]
pub enum Inferred<K> {
    /// The call does not pass it.
    Absent,
    /// It is not a class.
    NotAClass,
    /// It is the class `K`.
    Class(K),
}

/// A type argument of the specialized class.
#[derive(Debug, Clone, Copy, PartialEq, Eq)]
pub enum TypeArg<K> {
    /// An instance of a class.
    Instance(K),
    /// The generic class `generic` specialized to an instance of `arg`.
    Specialized { generic: K, arg: K },
}

/// The type a factory call returns: `type[class[args...]]`.
#[derive(Debug)]
pub struct FactoryType<K> {
    pub class: K,
    pub args: Vec<TypeArg<K>>,
}

/// The class an optional argument gives: the class it is, or when the call
/// does not pass it, the default that Django exports, if it is a class.
pub open spec fn class_or_default<K>(arg: Inferred<K>, default: Option<K>) -> Option<K> {
    match arg {
        Inferred::Absent => default,
        Inferred::NotAClass => None,
        Inferred::Class(k) => Some(k),
    }
}

/// The type a factory call returns, as `(class, type arguments)`, or `None`
/// to keep the type the stubs give: `formset_factory(form, formset)` returns
/// `type[formset[form]]`; `modelform_factory(model, form)` returns
/// `type[form[model]]`; `modelformset_factory(model, form, formset)` returns
/// `type[formset[model, form[model]]]`, with `ModelForm` and
/// `BaseModelFormSet` for a form and formset the call does not pass.
pub open spec fn spec_factory_type<K>(
    factory: FormFactory,
    model: Inferred<K>,
    form: Inferred<K>,
    formset: Inferred<K>,
    model_form: Option<K>,
    base_model_form_set: Option<K>,
) -> Option<(K, Seq<TypeArg<K>>)> {
    match factory {
        FormFactory::FormsetFactory => match (form, formset) {
            (Inferred::Class(f), Inferred::Class(fs)) => Some((fs, seq![TypeArg::Instance(f)])),
            _ => None,
        },
        FormFactory::ModelformFactory => match (model, form) {
            (Inferred::Class(m), Inferred::Class(f)) => Some((f, seq![TypeArg::Instance(m)])),
            _ => None,
        },
        FormFactory::ModelformsetFactory => match (
            model,
            class_or_default(form, model_form),
            class_or_default(formset, base_model_form_set),
        ) {
            (Inferred::Class(m), Some(f), Some(fs)) => Some(
                (fs, seq![TypeArg::Instance(m), TypeArg::Specialized { generic: f, arg: m }]),
            ),
            _ => None,
        },
    }
}

/// The class an optional argument gives.
fn class_or_default_exec<K: Copy>(arg: Inferred<K>, default: Option<K>) -> (r: Option<K>)
    ensures
        r == class_or_default(arg, default),
{
    match arg {
        Inferred::Absent => default,
        Inferred::NotAClass => None,
        Inferred::Class(k) => Some(k),
    }
}

/// The type a call of `factory` returns, from what the checker found for its
/// `model`, `form` and `formset` arguments and the classes `ModelForm` and
/// `BaseModelFormSet` of `django.forms.models` (if they are exported as
/// classes); `None` to keep the type the stubs give.
pub fn factory_type<K: Copy>(
    factory: FormFactory,
    model: Inferred<K>,
    form: Inferred<K>,
    formset: Inferred<K>,
    model_form: Option<K>,
    base_model_form_set: Option<K>,
) -> (r: Option<FactoryType<K>>)
    ensures
        match r {
            Some(t) => Some((t.class, t.args@)),
            None => None,
        } == spec_factory_type(factory, model, form, formset, model_form, base_model_form_set),
{
    match factory {
        FormFactory::FormsetFactory => match (form, formset) {
            (Inferred::Class(f), Inferred::Class(fs)) => {
                let args = vec![TypeArg::Instance(f)];
                proof {
                    assert(args@ =~= seq![TypeArg::Instance(f)]);
                }
                Some(FactoryType { class: fs, args })
            },
            _ => None,
        },
        FormFactory::ModelformFactory => match (model, form) {
            (Inferred::Class(m), Inferred::Class(f)) => {
                let args = vec![TypeArg::Instance(m)];
                proof {
                    assert(args@ =~= seq![TypeArg::Instance(m)]);
                }
                Some(FactoryType { class: f, args })
            },
            _ => None,
        },
        FormFactory::ModelformsetFactory => {
            let f = class_or_default_exec(form, model_form);
            let fs = class_or_default_exec(formset, base_model_form_set);
            match (model, f, fs) {
                (Inferred::Class(m), Some(f), Some(fs)) => {
                    let args = vec![TypeArg::Instance(m), TypeArg::Specialized { generic: f, arg: m }];
                    proof {
                        assert(args@ =~= seq![
                            TypeArg::Instance(m),
                            TypeArg::Specialized { generic: f, arg: m },
                        ]);
                    }
                    Some(FactoryType { class: fs, args })
                },
                _ => None,
            }
        },
    }
}

/// `modelformset_factory` with a model class `m` and a form class `f` gives
/// `type[formset[m, f[m]]]`: the passed form, specialized to the model, is
/// the second type argument whatever the formset argument is; the formset
/// is the passed class, or `BaseModelFormSet` when none is passed.
pub proof fn law_modelformset_keeps_the_passed_form<K>(
    m: K,
    f: K,
    formset: Inferred<K>,
    model_form: Option<K>,
    base_model_form_set: Option<K>,
)
    ensures
        spec_factory_type(
            FormFactory::ModelformsetFactory,
            Inferred::Class(m),
            Inferred::Class(f),
            formset,
            model_form,
            base_model_form_set,
        ) == match formset {
            Inferred::Class(fs) => Some(
                (fs, seq![TypeArg::Instance(m), TypeArg::Specialized { generic: f, arg: m }]),
            ),
            Inferred::Absent => match base_model_form_set {
                Some(fs) => Some(
                    (fs, seq![TypeArg::Instance(m), TypeArg::Specialized { generic: f, arg: m }]),
                ),
                None => None,
            },
            Inferred::NotAClass => None,
        },
{
}

/// `modelformset_factory` with a model class `m` and no form argument uses
/// `ModelForm`, specialized to the model, as the second type argument.
pub proof fn law_modelformset_defaults_to_model_form<K>(
    m: K,
    formset: Inferred<K>,
    model_form: K,
    base_model_form_set: Option<K>,
)
    ensures
        spec_factory_type(
            FormFactory::ModelformsetFactory,
            Inferred::Class(m),
            Inferred::Absent,
            formset,
            Some(model_form),
            base_model_form_set,
        ) matches Some(r) ==> r.1 == seq![
            TypeArg::Instance(m),
            TypeArg::Specialized { generic: model_form, arg: m },
        ],
{
}

} // verus!
