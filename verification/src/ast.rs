//! The part of a parsed Python module that Django support reads.
//!
//! A parser produces these values; the library only inspects them. Statements
//! and expressions that the library never looks into are kept as `Other`,
//! with the statements nested in them, in source order.
use vstd::prelude::*;

use crate::text::str_eq;

verus! {

/// A keyword argument of a call: `arg=value`, or `**value` when `arg` is `None`.
#[derive(Debug)]
pub struct Keyword {
    pub arg: Option<String>,
    pub value: Expr,
}

/// A call expression `func(args..., keywords...)`.
#[derive(Debug)]
pub struct ExprCall {
    pub func: Box<Expr>,
    /// The positional arguments, in order; a `*x` argument is `Expr::Starred`.
    pub args: Vec<Expr>,
    pub keywords: Vec<Keyword>,
}

/// An expression.
#[derive(Debug)]
pub enum Expr {
    /// A name, such as `Author`.
    Name(String),
    /// An attribute access `value.attr`.
    Attribute { value: Box<Expr>, attr: String },
    /// A string literal, with its (concatenated) value.
    StringLiteral(String),
    /// `True` or `False`.
    BooleanLiteral(bool),
    /// `None`.
    NoneLiteral,
    /// A tuple display `(a, b, ...)`.
    Tuple(Vec<Expr>),
    /// A starred expression `*value`.
    Starred(Box<Expr>),
    /// A call.
    Call(ExprCall),
    /// Any other expression.
    Other,
}

/// A statement.
#[derive(Debug)]
#[allow(inconsistent_fields)]
pub enum Stmt {
    /// `class name(...): body`.
    ClassDef { name: String, body: Vec<Stmt> },
    /// `targets = value`.
    Assign { value: Expr },
    /// `target: annotation = value`, where the value is optional.
    AnnAssign { value: Option<Expr> },
    /// Any other statement, with the statements nested in it (the branches of
    /// an `if`, the body of a `def`, of a loop or of a `try`), in source order.
    Other { body: Vec<Stmt> },
}

/// A parsed module.
#[derive(Debug)]
pub struct ModModule {
    pub body: Vec<Stmt>,
}

/// Whether a keyword argument is written `name=...`.
pub open spec fn keyword_named(k: Keyword, name: Seq<char>) -> bool {
    k.arg matches Some(a) && a@ == name
}

/// The value of the first keyword argument written `name=...`.
pub open spec fn spec_find_keyword(kws: Seq<Keyword>, name: Seq<char>) -> Option<Expr>
    decreases kws.len(),
{
    if kws.len() == 0 {
        None
    } else if keyword_named(kws[0], name) {
        Some(kws[0].value)
    } else {
        spec_find_keyword(kws.drop_first(), name)
    }
}

/// Whether the keyword argument `name` is given as the literal `True`.
pub open spec fn spec_has_keyword_true(call: ExprCall, name: Seq<char>) -> bool {
    spec_find_keyword(call.keywords@, name) == Some(Expr::BooleanLiteral(true))
}

/// Find a keyword argument by name and return its value expression.
pub fn find_keyword<'a>(call: &'a ExprCall, name: &str) -> (r: Option<&'a Expr>)
    ensures
        r is Some <==> spec_find_keyword(call.keywords@, name@) is Some,
        r matches Some(e) ==> spec_find_keyword(call.keywords@, name@) == Some(*e),
{
    let kws = &call.keywords;
    let mut i: usize = 0;
    proof {
        assert(kws@.skip(0) =~= kws@);
    }
    while i < kws.len()
        invariant
            kws@ == call.keywords@,
            i <= kws.len(),
            spec_find_keyword(kws@, name@) == spec_find_keyword(kws@.skip(i as int), name@),
        decreases kws.len() - i,
    {
        let kw = &kws[i];
        proof {
            assert(kws@.skip(i as int)[0] == kws@[i as int]);
            assert(kws@.skip(i as int).drop_first() =~= kws@.skip(i + 1));
        }
        match &kw.arg {
            Some(a) => {
                if str_eq(a.as_str(), name) {
                    proof {
                        assert(keyword_named(kws@[i as int], name@));
                        assert(kws@.skip(i as int).len() > 0);
                        assert(spec_find_keyword(kws@.skip(i as int), name@) == Some(
                            kws@[i as int].value,
                        ));
                    }
                    return Some(&kw.value);
                }
            },
            None => {},
        }
        i = i + 1;
    }
    None
}

/// Check if a keyword argument with the given name exists and has value `True`.
pub fn has_keyword_true(call: &ExprCall, name: &str) -> (r: bool)
    ensures
        r == spec_has_keyword_true(*call, name@),
{
    match find_keyword(call, name) {
        Some(Expr::BooleanLiteral(b)) => *b,
        _ => false,
    }
}

} // verus!
