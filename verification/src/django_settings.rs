//! Django settings that change what the checker infers: the settings module,
//! the user model `AUTH_USER_MODEL` names, and the model labels
//! (`"app_label.Model"`) that relation fields and settings use.
use vstd::prelude::*;

use crate::ast::Expr;
use crate::django_fields::{has_qname, is_qname};
use crate::django_index::last_dot;
use crate::django_model::ClassRef;
use crate::framework_config::{FrameworkConfig, option_of};
use crate::related_name::lemma_last_dot;
use crate::text::{chars_of, concat3, str_eq, string_of};

verus! {

/// The settings module: the `settings-module` option of framework `django`,
/// else the value of the `DJANGO_SETTINGS_MODULE` environment variable.
pub open spec fn spec_django_settings_module(
    config: Map<Seq<char>, Map<Seq<char>, Seq<char>>>,
    env_value: Option<Seq<char>>,
) -> Option<Seq<char>> {
    match option_of(config, "django"@, "settings-module"@) {
        Some(m) => Some(m),
        None => env_value,
    }
}

/// The Django settings module, from the configuration or else from
/// `env_value`, the value of `DJANGO_SETTINGS_MODULE` if it is set.
pub fn django_settings_module(config: &FrameworkConfig, env_value: Option<String>) -> (r: Option<
    String,
>)
    ensures
        match r {
            Some(s) => Some(s@),
            None => None,
        } == spec_django_settings_module(
            config@,
            match env_value {
                Some(e) => Some(e@),
                None => None,
            },
        ),
{
    proof {
        reveal_strlit("django");
        reveal_strlit("settings-module");
        reveal_strlit("");
    }
    match config.option("django", "settings-module") {
        Some(m) => Some(concat3(m, "", "")),
        None => env_value,
    }
}

/// Where the model a label names is looked up.
pub enum ModelLabelPlan {
    /// `"self"`: the class that declares the field.
    CurrentClass,
    /// The `(module, class name)` exports to try, in order; the first that
    /// is a class gives the model.
    Exports(Seq<(Seq<char>, Seq<char>)>),
}

/// Where the model a label names is looked up.
#[derive(Debug)]
pub enum ModelLabelLookup {
    /// `"self"`: the class that declares the field.
    CurrentClass,
    /// The `(module, class name)` exports to try, in order; the first that
    /// is a class gives the model.
    Exports(Vec<(String, String)>),
}

/// The plan a lookup stands for.
pub open spec fn lookup_plan(l: ModelLabelLookup) -> ModelLabelPlan {
    match l {
        ModelLabelLookup::CurrentClass => ModelLabelPlan::CurrentClass,
        ModelLabelLookup::Exports(v) => ModelLabelPlan::Exports(
            v@.map_values(|p: (String, String)| (p.0@, p.1@)),
        ),
    }
}

/// The models module of an app label; Django's built-in `auth` app label
/// does not match its import package.
pub open spec fn models_module(app_label: Seq<char>) -> Seq<char> {
    if app_label == "auth"@ {
        "django.contrib.auth.models"@
    } else {
        app_label + ".models"@
    }
}

/// Where a model label is looked up, from the module of the class declaring
/// the field when there is one. `"self"` is that class. A bare `Model` is
/// looked up in that module. `app_label.Model` is looked up in the app's
/// models module, then in that module.
pub open spec fn spec_model_label_lookup(label: Seq<char>, current_module: Option<Seq<char>>) -> ModelLabelPlan {
    let here = |name: Seq<char>|
        match current_module {
            Some(m) => seq![(m, name)],
            None => Seq::empty(),
        };
    if label == "self"@ {
        if current_module is Some {
            ModelLabelPlan::CurrentClass
        } else {
            ModelLabelPlan::Exports(Seq::empty())
        }
    } else if last_dot(label) < 0 {
        ModelLabelPlan::Exports(here(label))
    } else {
        let app = label.take(last_dot(label));
        let name = label.skip(last_dot(label) + 1);
        ModelLabelPlan::Exports(seq![(models_module(app), name)] + here(name))
    }
}

/// `s` split at its last `'.'`, if it has one.
fn rsplit_once_dot(s: &str) -> (r: Option<(String, String)>)
    ensures
        r is Some <==> last_dot(s@) >= 0,
        r matches Some(p) ==> p.0@ == s@.take(last_dot(s@)) && p.1@ == s@.skip(last_dot(s@) + 1),
{
    let cs = chars_of(s);
    let mut i: usize = cs.len();
    proof {
        assert(s@.take(i as int) =~= s@);
    }
    while i > 0
        invariant
            i <= cs@.len(),
            cs@ == s@,
            last_dot(s@) == last_dot(s@.take(i as int)),
        decreases i,
    {
        proof {
            assert(s@.take(i as int).drop_last() =~= s@.take(i - 1));
        }
        if cs[i - 1] == '.' {
            let mut head: Vec<char> = Vec::new();
            let mut j: usize = 0;
            while j < i - 1
                invariant
                    0 < i <= cs@.len(),
                    j <= i - 1,
                    head@ =~= cs@.subrange(0, j as int),
                decreases i - 1 - j,
            {
                head.push(cs[j]);
                j = j + 1;
            }
            let mut tail: Vec<char> = Vec::new();
            let mut j: usize = i;
            while j < cs.len()
                invariant
                    i <= j <= cs@.len(),
                    tail@ =~= cs@.subrange(i as int, j as int),
                decreases cs@.len() - j,
            {
                tail.push(cs[j]);
                j = j + 1;
            }
            proof {
                assert(last_dot(s@) == i - 1);
                assert(s@.take(i - 1) =~= cs@.subrange(0, i - 1));
                assert(s@.skip(i as int) =~= cs@.subrange(i as int, cs@.len() as int));
            }
            return Some((string_of(&head), string_of(&tail)));
        }
        i = i - 1;
    }
    proof {
        assert(s@.take(0) =~= Seq::<char>::empty());
    }
    None
}

/// Where the model that `label` names is looked up, `current_module` being
/// the module of the class that declares the field, if there is one.
pub fn model_label_lookup(label: &str, current_module: Option<&str>) -> (r: ModelLabelLookup)
    ensures
        lookup_plan(r) == spec_model_label_lookup(
            label@,
            match current_module {
                Some(m) => Some(m@),
                None => None,
            },
        ),
{
    proof {
        reveal_strlit("self");
        reveal_strlit("auth");
        reveal_strlit("django.contrib.auth.models");
        reveal_strlit(".models");
        reveal_strlit("");
    }
    let ghost cur = match current_module {
        Some(m) => Some(m@),
        None => None::<Seq<char>>,
    };
    if str_eq(label, "self") {
        return match current_module {
            Some(_) => ModelLabelLookup::CurrentClass,
            None => {
                let v: Vec<(String, String)> = Vec::new();
                proof {
                    assert(v@.map_values(|p: (String, String)| (p.0@, p.1@)) =~= Seq::<
                        (Seq<char>, Seq<char>),
                    >::empty());
                }
                ModelLabelLookup::Exports(v)
            },
        };
    }
    let mut v: Vec<(String, String)> = Vec::new();
    let name = match rsplit_once_dot(label) {
        None => concat3(label, "", ""),
        Some((app, name)) => {
            let module = if str_eq(app.as_str(), "auth") {
                concat3("django.contrib.auth.models", "", "")
            } else {
                concat3(app.as_str(), ".models", "")
            };
            v.push((module, concat3(name.as_str(), "", "")));
            name
        },
    };
    let ghost v0 = v@.map_values(|p: (String, String)| (p.0@, p.1@));
    match current_module {
        Some(m) => {
            v.push((concat3(m, "", ""), name));
        },
        None => {},
    }
    proof {
        let vv = v@.map_values(|p: (String, String)| (p.0@, p.1@));
        if last_dot(label@) < 0 {
            assert(v0 =~= Seq::<(Seq<char>, Seq<char>)>::empty());
        } else {
            lemma_last_dot(label@);
            assert(v0 =~= seq![
                (models_module(label@.take(last_dot(label@))), label@.skip(last_dot(label@) + 1)),
            ]);
        }
        match current_module {
            Some(m) => {
                assert(vv =~= v0 + seq![(m@, name@)]);
            },
            None => {
                assert(vv =~= v0 + Seq::<(Seq<char>, Seq<char>)>::empty());
            },
        }
    }
    ModelLabelLookup::Exports(v)
}

/// What the settings module holds under `AUTH_USER_MODEL`.
#[derive(Debug)]
pub enum AuthUserModelSetting {
    /// The settings module exports no `AUTH_USER_MODEL`.
    Missing,
    /// A string literal, the label of the user model.
    Label(String),
    /// Anything else.
    Other,
}

/// Where the user model comes from.
#[derive(Debug)]
pub enum AuthUserModelSource {
    /// Django's own `django.contrib.auth.models.User`.
    Default,
    /// The model a label names, looked up with no current class.
    Label(String),
    /// Nothing the checker can resolve.
    Unknown,
}

/// Where the user model comes from: the default without a settings module
/// or without `AUTH_USER_MODEL` in it; the label it holds; nothing when it
/// holds something else.
pub fn auth_user_model_source(settings_module: Option<&str>, setting: &AuthUserModelSetting) -> (r:
    AuthUserModelSource)
    ensures
        settings_module is None ==> r is Default,
        settings_module is Some ==> match *setting {
            AuthUserModelSetting::Missing => r is Default,
            AuthUserModelSetting::Label(l) => r matches AuthUserModelSource::Label(x) && x@ == l@,
            AuthUserModelSetting::Other => r is Unknown,
        },
{
    match settings_module {
        None => AuthUserModelSource::Default,
        Some(_) => match setting {
            AuthUserModelSetting::Missing => AuthUserModelSource::Default,
            AuthUserModelSetting::Label(l) => AuthUserModelSource::Label(l.clone()),
            AuthUserModelSetting::Other => AuthUserModelSource::Unknown,
        },
    }
}

/// Whether the type alias `name` of module `module` is the one that stands
/// for the configured user model: `_User` of `django.contrib.auth.models`.
pub fn is_user_model_alias(module: &str, name: &str) -> (r: bool)
    ensures
        r == (module@ == "django.contrib.auth.models"@ && name@ == "_User"@),
{
    str_eq(module, "django.contrib.auth.models") && str_eq(name, "_User")
}

/// The object of `X.AUTH_USER_MODEL`; when it is Django's lazy settings
/// object, the expression names the user model setting.
pub fn auth_user_model_setting_object(e: &Expr) -> (r: Option<&Expr>)
    ensures
        match *e {
            Expr::Attribute { value, attr } => if attr@ == "AUTH_USER_MODEL"@ {
                r == Some(&*value)
            } else {
                r is None
            },
            _ => r is None,
        },
{
    match e {
        Expr::Attribute { value, attr } => {
            if str_eq(attr.as_str(), "AUTH_USER_MODEL") {
                Some(&**value)
            } else {
                None
            }
        },
        _ => None,
    }
}

/// Whether a class is Django's lazy settings object class,
/// `django.conf.LazySettings`.
pub fn is_lazy_settings(c: &ClassRef) -> (r: bool)
    ensures
        r == has_qname(*c, "django.conf"@, "LazySettings"@),
{
    is_qname(c, "django.conf", "LazySettings")
}

/// How the model a relation target expression names is found.
#[derive(Debug)]
pub enum TargetKind {
    /// A name or an attribute: inferred in the current scope; a string
    /// literal type found there is read as a model label, a class as the model.
    Inferred,
    /// A string literal: a model label.
    Label(String),
    /// Any other expression names no model.
    Unsupported,
}

/// How the model a relation target expression names is found.
pub fn target_kind(e: &Expr) -> (r: TargetKind)
    ensures
        match *e {
            Expr::Name(_) => r is Inferred,
            Expr::Attribute { .. } => r is Inferred,
            Expr::StringLiteral(s) => r matches TargetKind::Label(l) && l@ == s@,
            _ => r is Unsupported,
        },
{
    match e {
        Expr::Name(_) => TargetKind::Inferred,
        Expr::Attribute { .. } => TargetKind::Inferred,
        Expr::StringLiteral(s) => TargetKind::Label(s.clone()),
        _ => TargetKind::Unsupported,
    }
}

/// Whether a declared class attribute keeps the type inferred for it rather
/// than the annotation it inherits: in a Django model, an instance of
/// `django.db.models.manager.BaseManager` or of a subclass of it.
pub open spec fn spec_should_preserve_field_type(
    class_is_model: bool,
    manager: Option<ClassRef>,
    manager_ancestors: Seq<ClassRef>,
) -> bool {
    class_is_model && match manager {
        Some(m) => has_qname(m, "django.db.models.manager"@, "BaseManager"@) || exists|i: int|
            0 <= i < manager_ancestors.len() && has_qname(
                #[trigger] manager_ancestors[i],
                "django.db.models.manager"@,
                "BaseManager"@,
            ),
        None => false,
    }
}

/// Framework-owned class attributes may intentionally refine an annotation
/// inherited from the framework base class: keep the concrete manager subtype
/// declared by a model. `manager` is the class of the inferred type when it
/// is a class instance; `manager_ancestors` are that class's ancestors.
pub fn should_preserve_inferred_class_field_type(
    class_is_model: bool,
    manager: Option<&ClassRef>,
    manager_ancestors: &Vec<ClassRef>,
) -> (r: bool)
    ensures
        r == spec_should_preserve_field_type(
            class_is_model,
            match manager {
                Some(m) => Some(*m),
                None => None,
            },
            manager_ancestors@,
        ),
{
    if !class_is_model {
        return false;
    }
    let m = match manager {
        Some(m) => m,
        None => {
            return false;
        },
    };
    if is_qname(m, "django.db.models.manager", "BaseManager") {
        return true;
    }
    let mut i: usize = 0;
    while i < manager_ancestors.len()
        invariant
            i <= manager_ancestors@.len(),
            class_is_model,
            manager == Some(m),
            forall|j: int|
                0 <= j < i ==> !has_qname(
                    #[trigger] manager_ancestors@[j],
                    "django.db.models.manager"@,
                    "BaseManager"@,
                ),
        decreases manager_ancestors@.len() - i,
    {
        if is_qname(&manager_ancestors[i], "django.db.models.manager", "BaseManager") {
            return true;
        }
        i = i + 1;
    }
    false
}

/// The last `'.'` of `app.name`, where `name` has no `'.'`, is the one after
/// `app`.
proof fn lemma_last_dot_of_label(app: Seq<char>, name: Seq<char>)
    requires
        forall|k: int| 0 <= k < name.len() ==> name[k] != '.',
    ensures
        last_dot(app + seq!['.'] + name) == app.len(),
    decreases name.len(),
{
    let s = app + seq!['.'] + name;
    if name.len() == 0 {
        assert(s.last() == '.');
    } else {
        assert(s.last() == name.last());
        assert(s.drop_last() =~= app + seq!['.'] + name.drop_last());
        lemma_last_dot_of_label(app, name.drop_last());
    }
}

/// A label `app.Name` (with no `'.'` in `Name`) is looked up as `Name` in the
/// app's models module, `django.contrib.auth.models` for the app `auth` and
/// `app.models` for any other, and then, for every app, as `Name` in the
/// module of the class declaring the field, when there is one.
pub proof fn law_app_label_lookup(app: Seq<char>, name: Seq<char>, current_module: Option<Seq<char>>)
    requires
        forall|k: int| 0 <= k < name.len() ==> name[k] != '.',
    ensures
        spec_model_label_lookup(app + seq!['.'] + name, current_module) == ModelLabelPlan::Exports(
            seq![
                (
                    if app == "auth"@ {
                        "django.contrib.auth.models"@
                    } else {
                        app + ".models"@
                    },
                    name,
                ),
            ] + match current_module {
                Some(m) => seq![(m, name)],
                None => Seq::<(Seq<char>, Seq<char>)>::empty(),
            },
        ),
{
    let label = app + seq!['.'] + name;
    lemma_last_dot_of_label(app, name);
    reveal_strlit("self");
    assert(label[app.len() as int] == '.');
    assert(label != "self"@) by {
        if label == "self"@ {
            assert("self"@[app.len() as int] == '.');
        }
    }
    assert(label.take(app.len() as int) =~= app);
    assert(label.skip(app.len() as int + 1) =~= name);
}

} // verus!
