use pyrefly_django::ast::{Expr, ExprCall, Keyword};
use pyrefly_django::django_forms::{
    FactoryType, FormFactory, Inferred, TypeArg, factory_arguments, factory_type,
    find_argument_value, form_factory,
};

fn name(n: &str) -> Expr {
    Expr::Name(n.to_owned())
}

fn call(args: Vec<Expr>, keywords: Vec<(&str, Expr)>) -> ExprCall {
    ExprCall {
        func: Box::new(name("f")),
        args,
        keywords: keywords.into_iter().map(|(k, v)| Keyword { arg: Some(k.to_owned()), value: v }).collect(),
    }
}

fn is_name(e: Option<&Expr>, n: &str) -> bool {
    matches!(e, Some(Expr::Name(x)) if x == n)
}

#[test]
fn test_find_argument_value() {
    let c = call(vec![name("a"), name("b")], vec![("form", name("k"))]);
    assert!(is_name(find_argument_value(&c, "form", 0), "k"));
    assert!(is_name(find_argument_value(&c, "model", 0), "a"));
    assert!(is_name(find_argument_value(&c, "model", 1), "b"));
    assert!(find_argument_value(&c, "model", 2).is_none());
    let starred = call(vec![name("a"), Expr::Starred(Box::new(name("rest"))), name("c")], vec![]);
    assert!(is_name(find_argument_value(&starred, "x", 0), "a"));
    assert!(find_argument_value(&starred, "x", 1).is_none());
    assert!(find_argument_value(&starred, "x", 2).is_none());
}

#[test]
fn test_form_factories() {
    assert_eq!(form_factory("django.forms.formsets", "formset_factory"), Some(FormFactory::FormsetFactory));
    assert_eq!(form_factory("django.forms.models", "modelform_factory"), Some(FormFactory::ModelformFactory));
    assert_eq!(form_factory("django.forms.models", "modelformset_factory"), Some(FormFactory::ModelformsetFactory));
    assert_eq!(form_factory("django.forms.models", "formset_factory"), None);
    assert_eq!(form_factory("django.forms.formsets", "modelform_factory"), None);
}

#[test]
fn test_factory_arguments() {
    // modelformset_factory(Eggs, Spam, formset=Ham, fields="__all__")
    let c = call(vec![name("Eggs"), name("Spam")], vec![("formset", name("Ham")), ("fields", Expr::StringLiteral("__all__".to_owned()))]);
    let a = factory_arguments(FormFactory::ModelformsetFactory, &c);
    assert!(is_name(a.model, "Eggs") && is_name(a.form, "Spam") && is_name(a.formset, "Ham"));
    let a = factory_arguments(FormFactory::FormsetFactory, &c);
    assert!(a.model.is_none() && is_name(a.form, "Eggs") && is_name(a.formset, "Ham"));
    let only_model = call(vec![name("Eggs")], vec![]);
    let a = factory_arguments(FormFactory::ModelformFactory, &only_model);
    assert!(is_name(a.model, "Eggs") && a.form.is_none() && a.formset.is_none());
}

fn shown(t: Option<FactoryType<&'static str>>) -> Option<(&'static str, Vec<TypeArg<&'static str>>)> {
    t.map(|t| (t.class, t.args))
}

#[test]
fn test_modelformset_factory_types() {
    // modelformset_factory(Eggs, fields="__all__") -> type[BaseModelFormSet[Eggs, ModelForm[Eggs]]]
    let t = factory_type(FormFactory::ModelformsetFactory, Inferred::Class("Eggs"), Inferred::Absent, Inferred::Absent, Some("ModelForm"), Some("BaseModelFormSet"));
    assert_eq!(
        shown(t),
        Some(("BaseModelFormSet", vec![TypeArg::Instance("Eggs"), TypeArg::Specialized { generic: "ModelForm", arg: "Eggs" }]))
    );
    // modelformset_factory(Eggs, Spam, formset=Ham) -> type[Ham[Eggs, Spam[Eggs]]]
    let t = factory_type(FormFactory::ModelformsetFactory, Inferred::Class("Eggs"), Inferred::Class("Spam"), Inferred::Class("Ham"), Some("ModelForm"), Some("BaseModelFormSet"));
    assert_eq!(shown(t), Some(("Ham", vec![TypeArg::Instance("Eggs"), TypeArg::Specialized { generic: "Spam", arg: "Eggs" }])));
    // a form that is not a class keeps the stub type
    let t = factory_type(FormFactory::ModelformsetFactory, Inferred::Class("Eggs"), Inferred::NotAClass, Inferred::Absent, Some("ModelForm"), Some("BaseModelFormSet"));
    assert!(t.is_none());
    // no default form exported
    let t = factory_type(FormFactory::ModelformsetFactory, Inferred::Class("Eggs"), Inferred::Absent, Inferred::Absent, None, Some("BaseModelFormSet"));
    assert!(t.is_none());
}

#[test]
fn test_modelform_and_formset_factory_types() {
    let t = factory_type(FormFactory::ModelformFactory, Inferred::Class("Eggs"), Inferred::Class("Spam"), Inferred::Absent, None, None);
    assert_eq!(shown(t), Some(("Spam", vec![TypeArg::Instance("Eggs")])));
    // modelform_factory(Eggs): the stub type stands
    let t = factory_type(FormFactory::ModelformFactory, Inferred::Class("Eggs"), Inferred::Absent, Inferred::Absent, Some("ModelForm"), None);
    assert!(t.is_none());
    let t = factory_type(FormFactory::FormsetFactory, Inferred::Absent, Inferred::Class("F"), Inferred::Class("FS"), None, None);
    assert_eq!(shown(t), Some(("FS", vec![TypeArg::Instance("F")])));
    let t = factory_type(FormFactory::FormsetFactory, Inferred::Absent, Inferred::Class("F"), Inferred::NotAClass, None, None);
    assert!(t.is_none());
}
