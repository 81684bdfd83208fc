//! A project-wide routing table for Django reverse relations.
//!
//! Django adds an accessor to the model a relation field points *at*:
//! `Choice.question = ForeignKey(Question)` gives `Question.choice_set`. The
//! target class body says nothing about who references it, and the target
//! module does not import the source, so synthesizing `choice_set` requires
//! knowing which other modules declare a relation to `Question`.
//!
//! This module answers exactly that question, and nothing more. It is a
//! pruning filter, not a source of truth: the accessor names and types still
//! come from each source module's relation answer, which is keyed by the exact
//! class. A syntactic false positive here therefore costs one wasted lookup,
//! never a wrong answer.
//!
//! Module paths and module names are held by their rendered text.
use vstd::prelude::*;
use starlark_map::small_map::SmallMap;
use starlark_map::small_set::SmallSet;

use crate::ast::{Expr, ExprCall, ModModule, Stmt, spec_find_keyword, find_keyword};
use crate::collections::{
    key_index, keys_distinct, lemma_key_index, lemma_key_index_distinct, lemma_key_index_push,
    lemma_key_index_same_keys, lemma_key_index_update, lemma_keys_distinct_from_indices, list_entries, list_map_get,
    list_map_get_index, list_map_insert, list_map_len, list_map_new, list_map_push, lookup,
    module_entries, module_map_get, module_map_get_index, module_map_len, module_map_new,
    set_difference, set_entries, set_insert, set_insert_all_spec, set_insert_spec, set_items,
    set_map_extend, set_map_get, set_map_insert, set_map_into_vec, set_map_new, set_new,
    set_to_vec, strings, lemma_insert_all_contains, lemma_insert_all_no_duplicates,
};
use crate::text::{
    chars_eq, chars_lt, chars_of, lemma_seq_lt_asymmetric, lemma_seq_lt_total, lemma_seq_lt_transitive, seq_lt, str_eq,
    string_of,
};

verus! {

/// The substrings that must appear in a file's source for it to be able to
/// declare a relation. Checking these against the raw bytes lets a caller skip
/// parsing the overwhelming majority of a project's files.
pub const RELATION_TOKENS: [&'static str; 3] = ["ForeignKey", "OneToOneField", "ManyToManyField"];

/// The relation-routing information contributed by one module.
#[derive(Debug, Clone)]
pub struct DjangoModuleData {
    pub module_name: String,
    pub relation_targets: SmallSet<String>,
}

// ---------------------------------------------------------------------------
// Scanning a module
// ---------------------------------------------------------------------------

/// The callee names that declare a relation field.
pub open spec fn is_relation_constructor(name: Seq<char>) -> bool {
    name == "ForeignKey"@ || name == "OneToOneField"@ || name == "ManyToManyField"@
}

/// The index of the last `'.'` in `s`, or -1.
pub open spec fn last_dot(s: Seq<char>) -> int
    decreases s.len(),
{
    if s.len() == 0 {
        -1
    } else if s.last() == '.' {
        s.len() - 1
    } else {
        last_dot(s.drop_last())
    }
}

/// The part of `s` after its last `'.'`, or all of `s` when it has none.
pub open spec fn after_last_dot(s: Seq<char>) -> Seq<char> {
    if last_dot(s) >= 0 {
        s.skip(last_dot(s) + 1)
    } else {
        s
    }
}

/// The model short name that a relation target expression names, if it can be
/// read syntactically: a bare name, the last component of a dotted name, or
/// the part of a string label after its last dot. `'self'` names the
/// declaring class, which needs no routing.
pub open spec fn spec_relation_target(arg: Expr) -> Option<Seq<char>> {
    match arg {
        Expr::Name(x) => Some(x@),
        Expr::Attribute { attr, .. } => Some(attr@),
        Expr::StringLiteral(v) => if v@ == "self"@ {
            None
        } else {
            Some(after_last_dot(v@))
        },
        _ => None,
    }
}

/// The expression a relation field call names as its target: its first
/// positional argument, else its `to=` keyword argument.
pub open spec fn spec_django_relation_target(call: ExprCall) -> Option<Expr> {
    if call.args@.len() > 0 {
        Some(call.args@[0])
    } else {
        spec_find_keyword(call.keywords@, "to"@)
    }
}

/// The last name component of a callee: `ForeignKey` in both `ForeignKey(...)`
/// and `models.ForeignKey(...)`.
pub open spec fn callee_name(func: Expr) -> Option<Seq<char>> {
    match func {
        Expr::Name(id) => Some(id@),
        Expr::Attribute { attr, .. } => Some(attr@),
        _ => None,
    }
}

/// The value assigned by an assignment statement.
pub open spec fn assigned_value(stmt: Stmt) -> Option<Expr> {
    match stmt {
        Stmt::Assign { value } => Some(value),
        Stmt::AnnAssign { value } => value,
        _ => None,
    }
}

/// The target model name of the relation declared by a class-body statement.
pub open spec fn member_relation(stmt: Stmt) -> Option<Seq<char>> {
    match assigned_value(stmt) {
        Some(Expr::Call(call)) => match callee_name(*call.func) {
            Some(c) => if is_relation_constructor(c) {
                match spec_django_relation_target(call) {
                    Some(t) => spec_relation_target(t),
                    None => None,
                }
            } else {
                None
            },
            None => None,
        },
        _ => None,
    }
}

/// The one-element sequence of a present value, or the empty sequence.
pub open spec fn opt_seq(o: Option<Seq<char>>) -> Seq<Seq<char>> {
    match o {
        Some(x) => seq![x],
        None => Seq::empty(),
    }
}

/// The relation targets declared directly in a class body, in order.
pub open spec fn members_names(body: Seq<Stmt>) -> Seq<Seq<char>>
    decreases body.len(),
{
    if body.len() == 0 {
        Seq::empty()
    } else {
        members_names(body.drop_last()) + opt_seq(member_relation(body.last()))
    }
}

/// The relation targets found in a statement, in the order the scan meets them:
/// a class's own members first, then whatever is nested in its statements.
pub open spec fn stmt_names(stmt: Stmt) -> Seq<Seq<char>>
    decreases stmt,
{
    match stmt {
        Stmt::ClassDef { body, .. } => members_names(body@) + stmts_names(body@),
        Stmt::Other { body } => stmts_names(body@),
        _ => Seq::empty(),
    }
}

/// The relation targets found in a sequence of statements, in order.
pub open spec fn stmts_names(stmts: Seq<Stmt>) -> Seq<Seq<char>>
    decreases stmts,
{
    if stmts.len() == 0 {
        Seq::empty()
    } else {
        stmts_names(stmts.drop_last()) + stmt_names(stmts.last())
    }
}

/// Inserting `a + b` is inserting `a`, then `b`.
pub proof fn lemma_insert_all_append(s: Seq<Seq<char>>, a: Seq<Seq<char>>, b: Seq<Seq<char>>)
    ensures
        set_insert_all_spec(s, a + b) == set_insert_all_spec(set_insert_all_spec(s, a), b),
    decreases b.len(),
{
    if b.len() == 0 {
        assert(a + b =~= a);
    } else {
        assert((a + b).drop_last() =~= a + b.drop_last());
        lemma_insert_all_append(s, a, b.drop_last());
    }
}

/// The part of `s` after its last `'.'`, computed.
fn after_last_dot_exec(s: &String) -> (r: String)
    ensures
        r@ == after_last_dot(s@),
{
    let cs = chars_of(s.as_str());
    let mut i: usize = cs.len();
    proof {
        assert(s@.take(i as int) =~= s@);
    }
    while i > 0
        invariant
            i <= cs.len(),
            cs@ == s@,
            last_dot(s@) == last_dot(s@.take(i as int)),
        decreases i,
    {
        proof {
            assert(s@.take(i as int).drop_last() =~= s@.take(i - 1));
        }
        if cs[i - 1] == '.' {
            let mut tail: Vec<char> = Vec::new();
            let mut j: usize = i;
            while j < cs.len()
                invariant
                    i <= j <= cs.len(),
                    tail@ =~= cs@.subrange(i as int, j as int),
                decreases cs.len() - j,
            {
                tail.push(cs[j]);
                j = j + 1;
            }
            proof {
                assert(s@.skip(i as int) =~= cs@.subrange(i as int, cs.len() as int));
            }
            return string_of(&tail);
        }
        i = i - 1;
    }
    proof {
        assert(s@.take(0) =~= Seq::<char>::empty());
    }
    s.clone()
}

/// The model short name that a relation target expression names, if any.
fn relation_target(arg: &Expr) -> (r: Option<String>)
    ensures
        r is Some <==> spec_relation_target(*arg) is Some,
        r matches Some(x) ==> spec_relation_target(*arg) == Some(x@),
{
    match arg {
        Expr::Name(x) => Some(x.clone()),
        Expr::Attribute { attr, .. } => Some(attr.clone()),
        Expr::StringLiteral(v) => {
            if str_eq(v.as_str(), "self") {
                None
            } else {
                Some(after_last_dot_exec(v))
            }
        },
        _ => None,
    }
}

/// The expression that a relation field call names as its target.
fn django_relation_target(call: &ExprCall) -> (r: Option<&Expr>)
    ensures
        r is Some <==> spec_django_relation_target(*call) is Some,
        r matches Some(e) ==> spec_django_relation_target(*call) == Some(*e),
{
    if call.args.len() > 0 {
        Some(&call.args[0])
    } else {
        find_keyword(call, "to")
    }
}

/// Whether `name` is one of the relation field constructors.
fn is_relation_constructor_exec(name: &str) -> (r: bool)
    ensures
        r == is_relation_constructor(name@),
{
    str_eq(name, "ForeignKey") || str_eq(name, "OneToOneField") || str_eq(name, "ManyToManyField")
}

/// Record the relation declared by a class-body assignment, if there is one.
fn scan_class_member(stmt: &Stmt, scan: &mut SmallSet<String>)
    ensures
        set_items(*final(scan)) == set_insert_all_spec(
            set_items(*old(scan)),
            opt_seq(member_relation(*stmt)),
        ),
{
    proof {
        assert(set_insert_all_spec(set_items(*old(scan)), Seq::empty()) == set_items(*old(scan)));
    }
    let value = match stmt {
        Stmt::Assign { value } => Some(value),
        Stmt::AnnAssign { value } => match value {
            Some(v) => Some(v),
            None => None,
        },
        _ => None,
    };
    let call = match value {
        Some(Expr::Call(call)) => call,
        _ => {
            return ;
        },
    };
    let constructor = match &*call.func {
        Expr::Name(id) => id,
        Expr::Attribute { attr, .. } => attr,
        _ => {
            return ;
        },
    };
    if !is_relation_constructor_exec(constructor.as_str()) {
        return ;
    }
    let target = match django_relation_target(call) {
        Some(t) => t,
        None => {
            return ;
        },
    };
    match relation_target(target) {
        Some(name) => {
            proof {
                let xs = seq![name@];
                assert(xs.drop_last() =~= Seq::<Seq<char>>::empty());
            }
            set_insert(scan, name);
        },
        None => {},
    }
}

/// Record every relation declared in a statement and in the statements nested
/// in it. Classes and relation fields can be nested inside functions,
/// `if TYPE_CHECKING` blocks and other classes: over-approximating costs a
/// wasted lookup, missing one costs a missing attribute.
fn scan_stmt(stmt: &Stmt, scan: &mut SmallSet<String>)
    ensures
        set_items(*final(scan)) == set_insert_all_spec(set_items(*old(scan)), stmt_names(*stmt)),
    decreases stmt,
{
    match stmt {
        Stmt::ClassDef { body, .. } => {
            let ghost start = set_items(*scan);
            let mut i: usize = 0;
            while i < body.len()
                invariant
                    i <= body.len(),
                    set_items(*scan) == set_insert_all_spec(start, members_names(body@.take(i as int))),
                decreases body.len() - i,
            {
                proof {
                    assert(body@.take(i + 1).drop_last() =~= body@.take(i as int));
                    lemma_insert_all_append(
                        start,
                        members_names(body@.take(i as int)),
                        opt_seq(member_relation(body@[i as int])),
                    );
                }
                scan_class_member(&body[i], scan);
                i = i + 1;
            }
            proof {
                assert(body@.take(body.len() as int) =~= body@);
            }
            let ghost mid = set_items(*scan);
            scan_stmts(body, scan);
            proof {
                lemma_insert_all_append(start, members_names(body@), stmts_names(body@));
            }
        },
        Stmt::Other { body } => {
            scan_stmts(body, scan);
        },
        _ => {
            proof {
                assert(set_insert_all_spec(set_items(*scan), Seq::empty()) == set_items(*scan));
            }
        },
    }
}

/// `scan_stmt` on each of a sequence of statements, in order.
fn scan_stmts(stmts: &Vec<Stmt>, scan: &mut SmallSet<String>)
    ensures
        set_items(*final(scan)) == set_insert_all_spec(set_items(*old(scan)), stmts_names(stmts@)),
    decreases stmts@,
{
    let ghost start = set_items(*scan);
    let mut i: usize = 0;
    while i < stmts.len()
        invariant
            i <= stmts.len(),
            set_items(*scan) == set_insert_all_spec(start, stmts_names(stmts@.take(i as int))),
        decreases stmts.len() - i,
    {
        proof {
            assert(stmts@.take(i + 1).drop_last() =~= stmts@.take(i as int));
            lemma_insert_all_append(
                start,
                stmts_names(stmts@.take(i as int)),
                stmt_names(stmts@[i as int]),
            );
        }
        scan_stmt(&stmts[i], scan);
        i = i + 1;
    }
    proof {
        assert(stmts@.take(stmts.len() as int) =~= stmts@);
    }
}

/// Collect the Django relation routing information of a parsed module: the
/// model short names that its class bodies declare relations to, each once,
/// in the order the scan first meets them.
pub fn django_scan(module: &ModModule) -> (r: SmallSet<String>)
    ensures
        set_items(r) == set_insert_all_spec(Seq::empty(), stmts_names(module.body@)),
{
    let mut scan = set_new();
    scan_stmts(&module.body, &mut scan);
    scan
}


// ---------------------------------------------------------------------------
// The routing table
// ---------------------------------------------------------------------------

/// The paths of the modules, in map order, whose scan found a relation to `target`.
pub open spec fn paths_declaring(e: Seq<(Seq<char>, DjangoModuleData)>, target: Seq<char>) -> Seq<
    Seq<char>,
>
    decreases e.len(),
{
    if e.len() == 0 {
        Seq::empty()
    } else if set_items(e.last().1.relation_targets).contains(target) {
        paths_declaring(e.drop_last(), target).push(e.last().0)
    } else {
        paths_declaring(e.drop_last(), target)
    }
}

/// The module name stored for `path`, or the empty name when there is none.
pub open spec fn module_name_of(e: Seq<(Seq<char>, DjangoModuleData)>, path: Seq<char>) -> Seq<
    char,
> {
    match lookup(e, path) {
        Some(d) => d.module_name@,
        None => Seq::empty(),
    }
}

/// Lexicographic strict order on pairs of names.
pub open spec fn pair_lt(a: (Seq<char>, Seq<char>), b: (Seq<char>, Seq<char>)) -> bool {
    seq_lt(a.0, b.0) || (a.0 == b.0 && seq_lt(a.1, b.1))
}

/// The order in which the modules of one target are listed: by module name,
/// then by path, as rendered text. The order does not depend on the order in
/// which the modules were handed over.
pub open spec fn routing_key(e: Seq<(Seq<char>, DjangoModuleData)>, path: Seq<char>) -> (
    Seq<char>,
    Seq<char>,
) {
    (module_name_of(e, path), path)
}

/// `paths` are in routing order.
pub open spec fn sorted_by_routing_key(e: Seq<(Seq<char>, DjangoModuleData)>, paths: Seq<Seq<char>>) -> bool {
    forall|i: int, j: int|
        0 <= i < j < paths.len() ==> !pair_lt(routing_key(e, paths[j]), routing_key(e, paths[i]))
}

/// `paths` are in strictly increasing routing order.
pub open spec fn strictly_sorted_by_routing_key(
    e: Seq<(Seq<char>, DjangoModuleData)>,
    paths: Seq<Seq<char>>,
) -> bool {
    forall|i: int, j: int|
        0 <= i < j < paths.len() ==> pair_lt(routing_key(e, paths[i]), routing_key(e, paths[j]))
}

/// The paths of a list of `(module name, path)` pairs.
pub open spec fn route_paths(r: Seq<(String, String)>) -> Seq<Seq<char>> {
    r.map_values(|x: (String, String)| x.1@)
}

/// An empty list stands for no entry.
pub open spec fn as_lookup(s: Seq<Seq<char>>) -> Option<Seq<Seq<char>>> {
    if s.len() > 0 {
        Some(s)
    } else {
        None
    }
}

/// `pair_lt` is transitive.
pub proof fn lemma_pair_lt_transitive(
    a: (Seq<char>, Seq<char>),
    b: (Seq<char>, Seq<char>),
    c: (Seq<char>, Seq<char>),
)
    requires
        pair_lt(a, b),
        pair_lt(b, c),
    ensures
        pair_lt(a, c),
{
    if seq_lt(a.0, b.0) && seq_lt(b.0, c.0) {
        lemma_seq_lt_transitive(a.0, b.0, c.0);
    } else if a.0 == b.0 && b.0 == c.0 {
        lemma_seq_lt_transitive(a.1, b.1, c.1);
    }
}

/// `pair_lt` is asymmetric.
pub proof fn lemma_pair_lt_asymmetric(a: (Seq<char>, Seq<char>), b: (Seq<char>, Seq<char>))
    requires
        pair_lt(a, b),
    ensures
        !pair_lt(b, a),
{
    if seq_lt(a.0, b.0) {
        lemma_seq_lt_asymmetric(a.0, b.0);
    } else {
        lemma_seq_lt_asymmetric(a.1, b.1);
    }
}

/// Every path routed to a target is the path of some module.
pub proof fn lemma_paths_declaring_are_keys(
    e: Seq<(Seq<char>, DjangoModuleData)>,
    target: Seq<char>,
    p: Seq<char>,
)
    requires
        paths_declaring(e, target).contains(p),
    ensures
        lookup(e, p) is Some,
    decreases e.len(),
{
    lemma_key_index(e, p);
    if e.len() > 0 {
        let rest = paths_declaring(e.drop_last(), target);
        if rest.contains(p) {
            lemma_paths_declaring_are_keys(e.drop_last(), target, p);
            lemma_key_index(e.drop_last(), p);
            let k = key_index(e.drop_last(), p);
            assert(e[k].0 == p);
        } else {
            let j = choose|j: int|
                0 <= j < paths_declaring(e, target).len() && paths_declaring(e, target)[j] == p;
            if j < rest.len() {
                assert(rest[j] == p);
            }
            assert(e[e.len() - 1].0 == p);
        }
    }
}

/// What `list_map_push` does to lookups.
proof fn lemma_list_push_lookup(
    e0: Seq<(Seq<char>, Seq<Seq<char>>)>,
    k: Seq<char>,
    x: Seq<char>,
    e1: Seq<(Seq<char>, Seq<Seq<char>>)>,
)
    requires
        keys_distinct(e0),
        e1 == (if key_index(e0, k) >= 0 {
            e0.update(key_index(e0, k), (k, e0[key_index(e0, k)].1.push(x)))
        } else {
            e0.push((k, seq![x]))
        }),
    ensures
        keys_distinct(e1),
        forall|t: Seq<char>|
            #[trigger] lookup(e1, t) == (if t == k {
                Some(
                    match lookup(e0, k) {
                        Some(v) => v.push(x),
                        None => seq![x],
                    },
                )
            } else {
                lookup(e0, t)
            }),
{
    lemma_key_index(e0, k);
    let i = key_index(e0, k);
    if i >= 0 {
        assert forall|t: Seq<char>|
            #[trigger] lookup(e1, t) == (if t == k {
                Some(
                    match lookup(e0, k) {
                        Some(v) => v.push(x),
                        None => seq![x],
                    },
                )
            } else {
                lookup(e0, t)
            }) by {
            lemma_key_index_update(e0, i, e0[i].1.push(x), t);
            lemma_key_index(e0, t);
        }
    } else {
        assert forall|t: Seq<char>|
            #[trigger] lookup(e1, t) == (if t == k {
                Some(
                    match lookup(e0, k) {
                        Some(v) => v.push(x),
                        None => seq![x],
                    },
                )
            } else {
                lookup(e0, t)
            }) by {
            lemma_key_index_push(e0, (k, seq![x]), t);
            lemma_key_index(e0, t);
        }
    }
}

/// Whether `(a0, a1)` comes strictly before `(b0, b1)`.
fn pair_lt_exec(a0: &Vec<char>, a1: &Vec<char>, b0: &Vec<char>, b1: &Vec<char>) -> (r: bool)
    ensures
        r == pair_lt((a0@, a1@), (b0@, b1@)),
{
    chars_lt(a0, b0) || (chars_eq(a0, b0) && chars_lt(a1, b1))
}

/// The paths of a list of keyed paths.
pub open spec fn keyed_paths(s: Seq<(Vec<char>, Vec<char>, String)>) -> Seq<Seq<char>> {
    s.map_values(|x: (Vec<char>, Vec<char>, String)| x.2@)
}

/// `paths`, in routing order (a stable insertion sort).
fn sort_paths(modules: &SmallMap<String, DjangoModuleData>, paths: &Vec<String>) -> (r: Vec<String>)
    ensures
        sorted_by_routing_key(module_entries(*modules), strings(r@)),
        strings(r@).to_multiset() == strings(paths@).to_multiset(),
{
    let ghost e = module_entries(*modules);
    let mut out: Vec<(Vec<char>, Vec<char>, String)> = Vec::new();
    let mut i: usize = 0;
    proof {
        assert(strings(paths@.take(0)) =~= Seq::<Seq<char>>::empty());
        assert(keyed_paths(out@) =~= Seq::<Seq<char>>::empty());
    }
    while i < paths.len()
        invariant
            i <= paths.len(),
            e == module_entries(*modules),
            forall|k: int|
                0 <= k < out@.len() ==> (#[trigger] out@[k]).0@ == module_name_of(e, out@[k].2@)
                    && out@[k].1@ == out@[k].2@,
            forall|a: int, b: int|
                0 <= a < b < out@.len() ==> !pair_lt(
                    (out@[b].0@, out@[b].1@),
                    (out@[a].0@, out@[a].1@),
                ),
            keyed_paths(out@).to_multiset() == strings(paths@.take(i as int)).to_multiset(),
        decreases paths.len() - i,
    {
        let p = &paths[i];
        let name: Vec<char> = match module_map_get(modules, p.as_str()) {
            Some(d) => chars_of(d.module_name.as_str()),
            None => Vec::new(),
        };
        let pc = chars_of(p.as_str());
        let mut pos: usize = 0;
        while pos < out.len()
            invariant
                pos <= out@.len(),
                forall|k: int|
                    0 <= k < pos ==> !pair_lt((name@, pc@), (#[trigger] out@[k].0@, out@[k].1@)),
            ensures
                pos <= out@.len(),
                forall|k: int|
                    0 <= k < pos ==> !pair_lt((name@, pc@), (#[trigger] out@[k].0@, out@[k].1@)),
                pos < out@.len() ==> pair_lt((name@, pc@), (out@[pos as int].0@, out@[pos as int].1@)),
            decreases out@.len() - pos,
        {
            if pair_lt_exec(&name, &pc, &out[pos].0, &out[pos].1) {
                break;
            }
            pos = pos + 1;
        }
        let ghost old_out = out@;
        let ghost x = (name@, pc@);
        proof {
            assert(name@ == module_name_of(e, p@));
            assert forall|b: int| pos <= b < old_out.len() implies !pair_lt(
                (old_out[b].0@, old_out[b].1@),
                x,
            ) by {
                if pair_lt((old_out[b].0@, old_out[b].1@), x) {
                    // out[pos] is after x, and nothing in out is before an earlier element
                    assert(pair_lt(x, (old_out[pos as int].0@, old_out[pos as int].1@)));
                    if b == pos {
                        lemma_pair_lt_asymmetric(x, (old_out[b].0@, old_out[b].1@));
                    } else {
                        lemma_pair_lt_transitive(
                            (old_out[b].0@, old_out[b].1@),
                            x,
                            (old_out[pos as int].0@, old_out[pos as int].1@),
                        );
                    }
                }
            }
        }
        out.insert(pos, (name, pc, p.clone()));
        proof {
            old_out.insert_ensures(pos as int, out@[pos as int]);
            assert(keyed_paths(out@) =~= keyed_paths(old_out).insert(pos as int, p@));
            vstd::seq_lib::to_multiset_insert(keyed_paths(old_out), pos as int, p@);
            assert(strings(paths@.take(i + 1)) =~= strings(paths@.take(i as int)).push(p@));
            vstd::seq_lib::to_multiset_build(strings(paths@.take(i as int)), p@);
            assert forall|a: int, b: int| 0 <= a < b < out@.len() implies !pair_lt(
                (out@[b].0@, out@[b].1@),
                (out@[a].0@, out@[a].1@),
            ) by {
                if b < pos {
                } else if b == pos {
                } else if a < pos {
                    if pair_lt((out@[b].0@, out@[b].1@), (out@[a].0@, out@[a].1@)) {
                        // out[b] == old_out[b-1], which is not before x, which is not before out[a]
                        assert(out@[b] == old_out[b - 1]);
                        assert(out@[a] == old_out[a]);
                        assert(!pair_lt(x, (out@[a].0@, out@[a].1@)));
                        assert(!pair_lt((out@[b].0@, out@[b].1@), x));
                        assert(!pair_lt((old_out[b - 1].0@, old_out[b - 1].1@), (old_out[a].0@, old_out[a].1@)));
                    }
                } else if a == pos {
                    assert(out@[b] == old_out[b - 1]);
                } else {
                    assert(out@[b] == old_out[b - 1]);
                    assert(out@[a] == old_out[a - 1]);
                }
            }
        }
        i = i + 1;
    }
    let mut r: Vec<String> = Vec::new();
    let mut k: usize = 0;
    while k < out.len()
        invariant
            k <= out@.len(),
            strings(r@) == keyed_paths(out@).take(k as int),
        decreases out@.len() - k,
    {
        r.push(out[k].2.clone());
        proof {
            assert(keyed_paths(out@).take(k + 1) =~= keyed_paths(out@).take(k as int).push(out@[k as int].2@));
            assert(strings(r@) =~= strings(r@.drop_last()).push(r@.last()@));
        }
        k = k + 1;
    }
    proof {
        assert(keyed_paths(out@).take(out@.len() as int) =~= keyed_paths(out@));
        assert(paths@.take(paths@.len() as int) =~= paths@);
        assert forall|a: int, b: int| 0 <= a < b < strings(r@).len() implies !pair_lt(
            routing_key(e, strings(r@)[b]),
            routing_key(e, strings(r@)[a]),
        ) by {
            assert(strings(r@)[a] == out@[a].2@);
            assert(strings(r@)[b] == out@[b].2@);
        }
    }
    r
}

/// The project-wide routing table.
///
/// Immutable once built. A refresh produces a new one from updated module
/// information, so a transaction that is never committed simply drops its copy.
#[derive(Debug)]
pub struct DjangoRelationIndex {
    /// Only modules with something to contribute are stored; a module absent
    /// here has been scanned and found empty.
    modules: SmallMap<String, DjangoModuleData>,
    /// Model short name to the modules that may declare a relation to it,
    /// sorted for deterministic merge order.
    modules_by_relation_target: SmallMap<String, Vec<String>>,
}

impl DjangoRelationIndex {
    /// The module data the table was built from, by module path, in order.
    pub closed spec fn entries(&self) -> Seq<(Seq<char>, DjangoModuleData)> {
        module_entries(self.modules)
    }

    /// The reverse map lists, under each target, exactly the modules that
    /// declare a relation to it, in routing order.
    #[verifier::type_invariant]
    closed spec fn routes_match_modules(self) -> bool {
        let e = module_entries(self.modules);
        let t = list_entries(self.modules_by_relation_target);
        &&& keys_distinct(e)
        &&& keys_distinct(t)
        &&& forall|k: int|
            0 <= k < t.len() ==> sorted_by_routing_key(e, #[trigger] t[k].1) && t[k].1.to_multiset()
                == paths_declaring(e, t[k].0).to_multiset()
        &&& forall|n: Seq<char>| #[trigger] lookup(t, n) is None ==> paths_declaring(e, n).len() == 0
    }

    /// Builds the table from the scanned module data, by module path.
    pub fn new(module_data_by_path: SmallMap<String, DjangoModuleData>) -> (r: Self)
        ensures
            r.entries() == module_entries(module_data_by_path),
    {
        let ghost e = module_entries(module_data_by_path);
        let mut by_target = list_map_new();
        let n = module_map_len(&module_data_by_path);
        let mut i: usize = 0;
        proof {
            assert(e.take(0) =~= Seq::<(Seq<char>, DjangoModuleData)>::empty());
        }
        while i < n
            invariant
                n == e.len(),
                e == module_entries(module_data_by_path),
                i <= n,
                forall|a: int| 0 <= a < i ==> key_index(e, #[trigger] e[a].0) == a,
                keys_distinct(list_entries(by_target)),
                forall|t: Seq<char>|
                    #[trigger] lookup(list_entries(by_target), t) == as_lookup(
                        paths_declaring(e.take(i as int), t),
                    ),
            decreases n - i,
        {
            let (path, data) = module_map_get_index(&module_data_by_path, i);
            let targets = set_to_vec(&data.relation_targets);
            let ghost prefix = e.take(i as int);
            let mut j: usize = 0;
            proof {
                assert forall|t: Seq<char>| #[trigger] lookup(list_entries(by_target), t) == as_lookup(
                    paths_declaring(prefix, t) + (if strings(targets@).take(0).contains(t) {
                        seq![path@]
                    } else {
                        Seq::empty()
                    }),
                ) by {
                    assert(paths_declaring(prefix, t) + Seq::<Seq<char>>::empty() =~= paths_declaring(prefix, t));
                }
            }
            while j < targets.len()
                invariant
                    j <= targets@.len(),
                    i < n,
                    n == e.len(),
                    forall|a: int| 0 <= a <= i ==> key_index(e, #[trigger] e[a].0) == a,
                    strings(targets@).no_duplicates(),
                    keys_distinct(list_entries(by_target)),
                    forall|t: Seq<char>|
                        #[trigger] lookup(list_entries(by_target), t) == as_lookup(
                            paths_declaring(prefix, t) + (if strings(targets@).take(j as int).contains(t) {
                                seq![path@]
                            } else {
                                Seq::empty()
                            }),
                        ),
                decreases targets@.len() - j,
            {
                let ghost before = list_entries(by_target);
                let ghost k = targets@[j as int]@;
                list_map_push(&mut by_target, targets[j].clone(), path.clone());
                proof {
                    lemma_list_push_lookup(before, k, path@, list_entries(by_target));
                    assert(strings(targets@).take(j + 1) =~= strings(targets@).take(j as int).push(k));
                    assert(strings(targets@)[j as int] == k);
                    let s0 = strings(targets@).take(j as int);
                    if s0.contains(k) {
                        let a = choose|a: int| 0 <= a < s0.len() && s0[a] == k;
                        assert(strings(targets@)[a] == strings(targets@)[j as int]);
                    }
                    assert forall|t: Seq<char>| #[trigger] lookup(list_entries(by_target), t) == as_lookup(
                        paths_declaring(prefix, t) + (if strings(targets@).take(j + 1).contains(t) {
                            seq![path@]
                        } else {
                            Seq::empty()
                        }),
                    ) by {
                        let pd = paths_declaring(prefix, t);
                        assert(pd + Seq::<Seq<char>>::empty() =~= pd);
                        assert(pd + seq![path@] =~= pd.push(path@));
                        if t == k {
                            assert(strings(targets@).take(j + 1)[j as int] == k);
                        } else {
                            let s1 = strings(targets@).take(j + 1);
                            let s0 = strings(targets@).take(j as int);
                            if s1.contains(t) {
                                let a = choose|a: int| 0 <= a < s1.len() && s1[a] == t;
                                assert(s0[a] == t);
                            }
                            if s0.contains(t) {
                                let a = choose|a: int| 0 <= a < s0.len() && s0[a] == t;
                                assert(s1[a] == t);
                            }
                        }
                    }
                }
                j = j + 1;
            }
            proof {
                assert(strings(targets@).take(targets@.len() as int) =~= strings(targets@));
                assert(e.take(i + 1).drop_last() =~= prefix);
                assert(e.take(i + 1).last() == e[i as int]);
                assert forall|t: Seq<char>| #[trigger] lookup(list_entries(by_target), t) == as_lookup(
                    paths_declaring(e.take(i + 1), t),
                ) by {
                    let pd = paths_declaring(prefix, t);
                    assert(pd + Seq::<Seq<char>>::empty() =~= pd);
                    assert(pd + seq![path@] =~= pd.push(path@));
                }
            }
            i = i + 1;
        }
        proof {
            assert(e.take(n as int) =~= e);
            lemma_keys_distinct_from_indices(e);
        }
        let ghost t0 = list_entries(by_target);
        let m = list_map_len(&by_target);
        let mut q: usize = 0;
        while q < m
            invariant
                m == t0.len(),
                e == module_entries(module_data_by_path),
                keys_distinct(e),
                keys_distinct(t0),
                forall|t: Seq<char>| #[trigger] lookup(t0, t) == as_lookup(paths_declaring(e, t)),
                list_entries(by_target).len() == m,
                q <= m,
                forall|k: int| 0 <= k < m ==> (#[trigger] list_entries(by_target)[k]).0 == t0[k].0,
                forall|k: int|
                    0 <= k < m ==> (#[trigger] list_entries(by_target)[k]).1.to_multiset()
                        == t0[k].1.to_multiset(),
                forall|k: int|
                    0 <= k < q ==> sorted_by_routing_key(e, (#[trigger] list_entries(by_target)[k]).1),
            decreases m - q,
        {
            let ghost before = list_entries(by_target);
            let (key, paths) = list_map_get_index(&by_target, q);
            let sorted = sort_paths(&module_data_by_path, paths);
            let key2 = key.clone();
            proof {
                assert(keys_distinct(before)) by {
                    assert forall|a: int, b: int| 0 <= a < b < before.len() implies before[a].0 != before[b].0 by {
                        assert(before[a].0 == t0[a].0);
                        assert(before[b].0 == t0[b].0);
                    }
                }
                lemma_key_index_distinct(before, q as int);
            }
            list_map_insert(&mut by_target, key2, sorted);
            proof {
                let after = list_entries(by_target);
                assert forall|k: int| 0 <= k < m implies (#[trigger] after[k]).0 == t0[k].0 && after[k].1.to_multiset() == t0[k].1.to_multiset() && (k < q + 1 ==> sorted_by_routing_key(e, after[k].1)) by {
                    if k != q {
                        assert(after[k] == before[k]);
                    }
                }
            }
            q = q + 1;
        }
        proof {
            let t = list_entries(by_target);
            assert(keys_distinct(t)) by {
                assert forall|a: int, b: int| 0 <= a < b < t.len() implies t[a].0 != t[b].0 by {
                    assert(t[a].0 == t0[a].0);
                    assert(t[b].0 == t0[b].0);
                }
            }
            assert forall|k: int| 0 <= k < t.len() implies sorted_by_routing_key(e, #[trigger] t[k].1) && t[k].1.to_multiset()
                == paths_declaring(e, t[k].0).to_multiset() by {
                lemma_key_index_distinct(t0, k);
                assert(lookup(t0, t0[k].0) == Some(t0[k].1));
            }
            assert forall|n: Seq<char>| #[trigger] lookup(t, n) is None implies paths_declaring(e, n).len() == 0 by {
                lemma_key_index_same_keys(t, t0, n);
                assert(lookup(t0, n) is None);
            }
        }
        let r = DjangoRelationIndex { modules: module_data_by_path, modules_by_relation_target: by_target };
        r
    }

    /// The module data by module path, at most one entry per path.
    pub fn module_data_by_path(&self) -> (r: &SmallMap<String, DjangoModuleData>)
        ensures
            module_entries(*r) == self.entries(),
            keys_distinct(module_entries(*r)),
    {
        proof {
            use_type_invariant(self);
        }
        &self.modules
    }

    /// The modules that may declare a reverse accessor on `model_name`, as
    /// `(module name, module path)`, in routing order: exactly the modules whose
    /// scan found a relation to `model_name`.
    pub fn modules_for_relation_target(&self, model_name: &str) -> (r: Vec<(String, String)>)
        ensures
            sorted_by_routing_key(self.entries(), route_paths(r@)),
            strictly_sorted_by_routing_key(self.entries(), route_paths(r@)),
            route_paths(r@).no_duplicates(),
            route_paths(r@).to_multiset() == paths_declaring(self.entries(), model_name@).to_multiset(),
            forall|k: int|
                0 <= k < r@.len() ==> (#[trigger] r@[k]).0@ == module_name_of(self.entries(), r@[k].1@),
    {
        proof {
            use_type_invariant(self);
        }
        let ghost e = module_entries(self.modules);
        let ghost t = list_entries(self.modules_by_relation_target);
        match list_map_get(&self.modules_by_relation_target, model_name) {
            None => {
                let r: Vec<(String, String)> = Vec::new();
                proof {
                    assert(paths_declaring(e, model_name@) =~= Seq::<Seq<char>>::empty());
                    assert(route_paths(r@) =~= Seq::<Seq<char>>::empty());
                }
                r
            },
            Some(paths) => {
                proof {
                    lemma_key_index(t, model_name@);
                    let ki = key_index(t, model_name@);
                    assert(t[ki].1 == strings(paths@));
                    assert(sorted_by_routing_key(e, t[ki].1));
                }
                let mut r: Vec<(String, String)> = Vec::new();
                let mut k: usize = 0;
                while k < paths.len()
                    invariant
                        k <= paths@.len(),
                        e == module_entries(self.modules),
                        strings(paths@).to_multiset() == paths_declaring(e, model_name@).to_multiset(),
                        route_paths(r@) == strings(paths@).take(k as int),
                        forall|a: int|
                            0 <= a < r@.len() ==> (#[trigger] r@[a]).0@ == module_name_of(e, r@[a].1@),
                    decreases paths@.len() - k,
                {
                    let p = &paths[k];
                    proof {
                        assert(strings(paths@)[k as int] == p@);
                        vstd::seq_lib::to_multiset_contains(strings(paths@), p@);
                        vstd::seq_lib::to_multiset_contains(paths_declaring(e, model_name@), p@);
                        lemma_paths_declaring_are_keys(e, model_name@, p@);
                    }
                    match module_map_get(&self.modules, p.as_str()) {
                        Some(d) => {
                            let ghost r_old = r@;
                            r.push((d.module_name.clone(), p.clone()));
                            proof {
                                assert(route_paths(r@) =~= route_paths(r_old).push(p@));
                                assert(strings(paths@).take(k + 1) =~= strings(paths@).take(
                                    k as int,
                                ).push(p@));
                            }
                        },
                        None => {
                            proof {
                                assert(false);
                            }
                        },
                    }
                    k = k + 1;
                }
                proof {
                    assert(strings(paths@).take(paths@.len() as int) =~= strings(paths@));
                    lemma_routed_paths_are_strictly_sorted(e, model_name@, route_paths(r@));
                }
                r
            },
        }
    }
}

impl Default for DjangoRelationIndex {
    /// The table of a project with no relations.
    fn default() -> (r: Self)
        ensures
            r.entries() == Seq::<(Seq<char>, DjangoModuleData)>::empty(),
    {
        let r = DjangoRelationIndex { modules: module_map_new(), modules_by_relation_target: list_map_new() };
        proof {
            let e = module_entries(r.modules);
            assert forall|n: Seq<char>| #[trigger] lookup(list_entries(r.modules_by_relation_target), n) is None implies paths_declaring(e, n).len() == 0 by {}
        }
        r
    }
}


// ---------------------------------------------------------------------------
// Who asked about which model names
// ---------------------------------------------------------------------------

/// The elements of the set stored under `target`, or none.
pub open spec fn readers_of(e: Seq<(Seq<char>, Seq<Seq<char>>)>, target: Seq<char>) -> Seq<
    Seq<char>,
> {
    match lookup(e, target) {
        Some(s) => s,
        None => Seq::empty(),
    }
}

/// The elements of every set stored under `target`, in entry order.
pub open spec fn merged_items(e: Seq<(Seq<char>, Seq<Seq<char>>)>, target: Seq<char>) -> Seq<
    Seq<char>,
>
    decreases e.len(),
{
    if e.len() == 0 {
        Seq::empty()
    } else if e.last().0 == target {
        merged_items(e.drop_last(), target) + e.last().1
    } else {
        merged_items(e.drop_last(), target)
    }
}

/// With distinct keys, the elements stored under `target` are those of its
/// one entry.
proof fn lemma_merged_items_distinct(e: Seq<(Seq<char>, Seq<Seq<char>>)>, target: Seq<char>)
    requires
        keys_distinct(e),
    ensures
        merged_items(e, target) == readers_of(e, target),
    decreases e.len(),
{
    if e.len() > 0 {
        let init = e.drop_last();
        assert(keys_distinct(init)) by {
            assert forall|i: int, j: int| 0 <= i < j < init.len() implies init[i].0 != init[j].0 by {
                assert(init[i] == e[i] && init[j] == e[j]);
            }
        }
        lemma_merged_items_distinct(init, target);
        lemma_key_index(init, target);
        lemma_key_index_push(init, e.last(), target);
        assert(init.push(e.last()) =~= e);
        if e.last().0 == target {
            if key_index(init, target) >= 0 {
                assert(init[key_index(init, target)] == e[key_index(init, target)]);
                assert(e[e.len() - 1] == e.last());
            }
            assert(merged_items(init, target) =~= Seq::<Seq<char>>::empty());
            assert(Seq::<Seq<char>>::empty() + e.last().1 =~= e.last().1);
        } else if key_index(init, target) >= 0 {
            assert(init[key_index(init, target)] == e[key_index(init, target)]);
        }
    }
}

/// How lookups change when the entry under `k` is modified or appended.
proof fn lemma_set_map_modify(
    e0: Seq<(Seq<char>, Seq<Seq<char>>)>,
    e1: Seq<(Seq<char>, Seq<Seq<char>>)>,
    k: Seq<char>,
)
    requires
        e1.len() == (if key_index(e0, k) >= 0 {
            e0.len()
        } else {
            e0.len() + 1
        }),
        forall|j: int| 0 <= j < e0.len() && j != key_index(e0, k) ==> e1[j] == e0[j],
        key_index(e0, k) >= 0 ==> e1[key_index(e0, k)].0 == k,
        key_index(e0, k) < 0 ==> e1[e0.len() as int].0 == k,
    ensures
        forall|t: Seq<char>| t != k ==> #[trigger] lookup(e1, t) == lookup(e0, t),
        lookup(e1, k) == Some(
            e1[if key_index(e0, k) >= 0 {
                key_index(e0, k)
            } else {
                e0.len() as int
            }].1,
        ),
{
    lemma_key_index(e0, k);
    let i = key_index(e0, k);
    if i >= 0 {
        assert forall|t: Seq<char>| true implies key_index(e1, t) == key_index(e0, t) by {
            lemma_key_index_same_keys(e1, e0, t);
        }
        assert forall|t: Seq<char>| t != k implies #[trigger] lookup(e1, t) == lookup(e0, t) by {
            lemma_key_index(e0, t);
        }
    } else {
        assert(e1 =~= e0.push(e1[e0.len() as int]));
        assert forall|t: Seq<char>| t != k implies #[trigger] lookup(e1, t) == lookup(e0, t) by {
            lemma_key_index_push(e0, e1[e0.len() as int], t);
            lemma_key_index(e0, t);
        }
        lemma_key_index_push(e0, e1[e0.len() as int], k);
    }
}

/// Which modules have asked the routing table about which model names.
///
/// A module that synthesizes fields for a model has no dependency edge to a
/// module that does not yet reference that model, so when one appears the only
/// way to find the stale readers is to remember who asked.
#[derive(Debug, Clone)]
pub struct DjangoReaders(SmallMap<String, SmallSet<String>>);

impl DjangoReaders {
    /// The recorded readers, by target name, in insertion order.
    pub closed spec fn entries(&self) -> Seq<(Seq<char>, Seq<Seq<char>>)> {
        set_entries(self.0)
    }

    /// The modules recorded as readers of `target`, in the order first recorded.
    pub open spec fn readers(&self, target: Seq<char>) -> Seq<Seq<char>> {
        readers_of(self.entries(), target)
    }

    /// Remembers that `reader` asked about `target`.
    pub fn record(&mut self, target: &str, reader: &str)
        ensures
            forall|t: Seq<char>|
                #[trigger] final(self).readers(t) == (if t == target@ {
                    set_insert_spec(old(self).readers(t), reader@)
                } else {
                    old(self).readers(t)
                }),
    {
        let ghost e0 = set_entries(self.0);
        set_map_insert(&mut self.0, string_of(&chars_of(target)), string_of(&chars_of(reader)));
        proof {
            let e1 = set_entries(self.0);
            lemma_set_map_modify(e0, e1, target@);
            lemma_key_index(e0, target@);
        }
    }

    /// Adds every reader that `other` recorded: for each target, `other`'s
    /// readers are recorded in their order.
    pub fn merge(&mut self, other: DjangoReaders)
        ensures
            forall|t: Seq<char>|
                #[trigger] final(self).readers(t) == set_insert_all_spec(
                    old(self).readers(t),
                    other.readers(t),
                ),
    {
        let ghost start = *self;
        let ghost oe = other.entries();
        let mut items = set_map_into_vec(other.0);
        let ghost all = items@;
        let n = items.len();
        let mut i: usize = 0;
        proof {
            assert(oe.take(0) =~= Seq::<(Seq<char>, Seq<Seq<char>>)>::empty());
            assert(all.skip(0) =~= all);
        }
        while i < n
            invariant
                i <= n,
                n == all.len(),
                all.len() == oe.len(),
                items@ == all.skip(i as int),
                forall|k: int|
                    0 <= k < all.len() ==> (#[trigger] all[k]).0@ == oe[k].0 && set_items(all[k].1)
                        == oe[k].1,
                forall|t: Seq<char>|
                    #[trigger] self.readers(t) == set_insert_all_spec(
                        start.readers(t),
                        merged_items(oe.take(i as int), t),
                    ),
            decreases n - i,
        {
            let ghost e0 = set_entries(self.0);
            let ghost s0 = *self;
            let ghost key = all[i as int].0@;
            let ghost xs = set_items(all[i as int].1);
            proof {
                assert(items@[0] == all[i as int]);
            }
            let (target, readers) = items.remove(0);
            proof {
                assert(items@ =~= all.skip(i + 1));
            }
            set_map_extend(&mut self.0, target, readers);
            proof {
                let e1 = set_entries(self.0);
                lemma_set_map_modify(e0, e1, key);
                lemma_key_index(e0, key);
                assert(oe.take(i + 1).drop_last() =~= oe.take(i as int));
                assert(oe.take(i + 1).last() == oe[i as int]);
                assert forall|t: Seq<char>| #[trigger] self.readers(t) == set_insert_all_spec(
                    start.readers(t),
                    merged_items(oe.take(i + 1), t),
                ) by {
                    assert(oe[i as int].0 == key);
                    assert(s0.readers(t) == set_insert_all_spec(
                        start.readers(t),
                        merged_items(oe.take(i as int), t),
                    ));
                    assert(s0.readers(t) == readers_of(e0, t));
                    if t == key {
                        lemma_insert_all_append(
                            start.readers(t),
                            merged_items(oe.take(i as int), t),
                            xs,
                        );
                        let idx = if key_index(e0, key) >= 0 {
                            key_index(e0, key)
                        } else {
                            e0.len() as int
                        };
                        assert(lookup(e1, key) == Some(e1[idx].1));
                        assert(e1[idx].1 == set_insert_all_spec(readers_of(e0, key), xs));
                        assert(merged_items(oe.take(i + 1), t) == merged_items(oe.take(i as int), t) + xs);
                    } else {
                        assert(lookup(e1, t) == lookup(e0, t));
                        assert(merged_items(oe.take(i + 1), t) == merged_items(oe.take(i as int), t));
                    }
                }
            }
            i = i + 1;
        }
        proof {
            assert(oe.take(oe.len() as int) =~= oe);
            assert forall|k: int| 0 <= k < oe.len() implies key_index(oe, #[trigger] oe[k].0) == k by {
                assert(all[k].0@ == oe[k].0);
            }
            lemma_keys_distinct_from_indices(oe);
            assert forall|t: Seq<char>| #[trigger] merged_items(oe, t) == readers_of(oe, t) by {
                lemma_merged_items_distinct(oe, t);
            }
        }
    }

    /// The modules recorded as readers of `target`.
    fn of(&self, target: &str) -> (r: Vec<String>)
        ensures
            strings(r@) == self.readers(target@),
    {
        match set_map_get(&self.0, target) {
            Some(s) => set_to_vec(s),
            None => {
                let r: Vec<String> = Vec::new();
                proof {
                    assert(strings(r@) =~= Seq::<Seq<char>>::empty());
                }
                r
            },
        }
    }
}

impl Default for DjangoReaders {
    /// No reader recorded.
    fn default() -> (r: Self)
        ensures
            r.entries() == Seq::<(Seq<char>, Seq<Seq<char>>)>::empty(),
    {
        DjangoReaders(set_map_new())
    }
}

/// The elements of an optional set, or none.
pub open spec fn items_or_empty(s: Option<&SmallSet<String>>) -> Seq<Seq<char>> {
    match s {
        Some(x) => set_items(*x),
        None => Seq::empty(),
    }
}

/// The elements of `a` that are not elements of `b`, in `a`'s order.
pub open spec fn minus(a: Seq<Seq<char>>, b: Seq<Seq<char>>) -> Seq<Seq<char>> {
    a.filter(|x: Seq<char>| !b.contains(x))
}

/// The readers of each name, one name after the other.
pub open spec fn stale_of(names: Seq<Seq<char>>, readers: DjangoReaders) -> Seq<Seq<char>>
    decreases names.len(),
{
    if names.len() == 0 {
        Seq::empty()
    } else {
        stale_of(names.drop_last(), readers) + readers.readers(names.last())
    }
}

/// Accumulates the target names whose candidate set changed during a refresh.
#[derive(Debug)]
pub struct ChangedTargets {
    names: SmallSet<String>,
}

impl ChangedTargets {
    /// The changed target names, in the order first recorded.
    pub closed spec fn names(&self) -> Seq<Seq<char>> {
        set_items(self.names)
    }

    /// Record the difference a rescan of one file made: the targets it lost,
    /// then the targets it gained.
    pub fn record(&mut self, before: Option<&SmallSet<String>>, after: Option<&SmallSet<String>>)
        ensures
            final(self).names() == set_insert_all_spec(
                set_insert_all_spec(
                    old(self).names(),
                    minus(items_or_empty(before), items_or_empty(after)),
                ),
                minus(items_or_empty(after), items_or_empty(before)),
            ),
    {
        let empty = set_new();
        let before = match before {
            Some(b) => b,
            None => &empty,
        };
        let after = match after {
            Some(a) => a,
            None => &empty,
        };
        let lost = set_difference(before, after);
        let gained = set_difference(after, before);
        insert_each(&mut self.names, &lost);
        insert_each(&mut self.names, &gained);
    }

    /// The modules whose synthesized fields these changes invalidate: the
    /// readers of each changed name, name after name.
    pub fn stale_readers(&self, readers: &DjangoReaders) -> (r: Vec<String>)
        ensures
            strings(r@) == stale_of(self.names(), *readers),
    {
        let names = set_to_vec(&self.names);
        let mut r: Vec<String> = Vec::new();
        let mut i: usize = 0;
        proof {
            assert(strings(names@).take(0) =~= Seq::<Seq<char>>::empty());
            assert(strings(r@) =~= Seq::<Seq<char>>::empty());
        }
        while i < names.len()
            invariant
                i <= names@.len(),
                strings(names@) == set_items(self.names),
                strings(r@) == stale_of(strings(names@).take(i as int), *readers),
            decreases names@.len() - i,
        {
            let of = readers.of(names[i].as_str());
            let mut k: usize = 0;
            let ghost r0 = strings(r@);
            while k < of.len()
                invariant
                    k <= of@.len(),
                    strings(r@) == r0 + strings(of@).take(k as int),
                decreases of@.len() - k,
            {
                let ghost r_prev = r@;
                r.push(of[k].clone());
                proof {
                    assert(strings(of@).take(k + 1) =~= strings(of@).take(k as int).push(of@[k as int]@));
                    assert(strings(r@) =~= strings(r_prev).push(of@[k as int]@));
                }
                k = k + 1;
            }
            proof {
                assert(strings(of@).take(of@.len() as int) =~= strings(of@));
                assert(strings(names@).take(i + 1).drop_last() =~= strings(names@).take(i as int));
                assert(strings(names@).take(i + 1).last() == names@[i as int]@);
            }
            i = i + 1;
        }
        proof {
            assert(strings(names@).take(names@.len() as int) =~= strings(names@));
        }
        r
    }
}

impl Default for ChangedTargets {
    /// No changed target.
    fn default() -> (r: Self)
        ensures
            r.names() == Seq::<Seq<char>>::empty(),
    {
        ChangedTargets { names: set_new() }
    }
}

/// Inserts each element of `xs`, in order.
fn insert_each(s: &mut SmallSet<String>, xs: &Vec<String>)
    ensures
        set_items(*final(s)) == set_insert_all_spec(set_items(*old(s)), strings(xs@)),
{
    let ghost start = set_items(*s);
    let mut i: usize = 0;
    proof {
        assert(strings(xs@).take(0) =~= Seq::<Seq<char>>::empty());
    }
    while i < xs.len()
        invariant
            i <= xs@.len(),
            set_items(*s) == set_insert_all_spec(start, strings(xs@).take(i as int)),
        decreases xs@.len() - i,
    {
        set_insert(s, xs[i].clone());
        proof {
            assert(strings(xs@).take(i + 1).drop_last() =~= strings(xs@).take(i as int));
        }
        i = i + 1;
    }
    proof {
        assert(strings(xs@).take(xs@.len() as int) =~= strings(xs@));
    }
}

// ---------------------------------------------------------------------------
// Laws
// ---------------------------------------------------------------------------

/// The scan of a module holds each model name that a relation field of one of
/// its class bodies (at any depth) targets, once, and no other name.
pub proof fn law_scan_holds_exactly_the_declared_targets(body: Seq<Stmt>, x: Seq<char>)
    ensures
        set_insert_all_spec(Seq::empty(), stmts_names(body)).contains(x) <==> stmts_names(
            body,
        ).contains(x),
        set_insert_all_spec(Seq::empty(), stmts_names(body)).no_duplicates(),
{
    lemma_insert_all_contains(Seq::empty(), stmts_names(body), x);
    lemma_insert_all_no_duplicates(Seq::empty(), stmts_names(body));
}

/// Every constructor the scan recognizes is one of `RELATION_TOKENS`, and
/// each token is a constructor it recognizes: since a relation field's
/// callee names its constructor, a file whose source holds none of the
/// tokens declares no relation the scan would find.
pub proof fn law_relation_tokens_are_the_recognized_constructors(name: Seq<char>)
    ensures
        is_relation_constructor(name) <==> exists|i: int|
            0 <= i < RELATION_TOKENS@.len() && (#[trigger] RELATION_TOKENS@[i])@ == name,
{
    reveal_strlit("ForeignKey");
    reveal_strlit("OneToOneField");
    reveal_strlit("ManyToManyField");
    assert(RELATION_TOKENS@.len() == 3);
    assert(RELATION_TOKENS@[0]@ == "ForeignKey"@);
    assert(RELATION_TOKENS@[1]@ == "OneToOneField"@);
    assert(RELATION_TOKENS@[2]@ == "ManyToManyField"@);
}

/// Two lists of module paths in routing order that hold the same paths are
/// one list: the order in which a target's modules are listed is fixed by
/// which modules they are.
pub proof fn law_routing_order_is_determined(
    e: Seq<(Seq<char>, DjangoModuleData)>,
    p1: Seq<Seq<char>>,
    p2: Seq<Seq<char>>,
)
    requires
        sorted_by_routing_key(e, p1),
        sorted_by_routing_key(e, p2),
        p1.to_multiset() == p2.to_multiset(),
    ensures
        p1 == p2,
    decreases p1.len(),
{
    p1.to_multiset_ensures();
    p2.to_multiset_ensures();
    if p1.len() == 0 {
        assert(p2.len() == 0);
        assert(p1 =~= p2);
    } else {
        assert(p2.len() == p1.len());
        assert(p1.to_multiset().count(p1[0]) > 0);
        assert(p2.contains(p1[0]));
        let j = choose|j: int| 0 <= j < p2.len() && p2[j] == p1[0];
        assert(p2.to_multiset().count(p2[0]) > 0);
        assert(p1.contains(p2[0]));
        let k = choose|k: int| 0 <= k < p1.len() && p1[k] == p2[0];
        let a = routing_key(e, p1[0]);
        let b = routing_key(e, p2[0]);
        if a != b {
            if a.0 != b.0 {
                lemma_seq_lt_total(a.0, b.0);
            } else {
                lemma_seq_lt_total(a.1, b.1);
            }
            if pair_lt(a, b) {
                // p2[0] sits at k > 0 in p1, after p1[0], so it is not smaller
                assert(j > 0);
                assert(!pair_lt(routing_key(e, p2[j]), routing_key(e, p2[0])));
            } else {
                assert(k > 0);
                assert(!pair_lt(routing_key(e, p1[k]), routing_key(e, p1[0])));
            }
        }
        assert(p1[0] == p2[0]);
        let q1 = p1.remove(0);
        let q2 = p2.remove(0);
        assert(q1.to_multiset() =~= q2.to_multiset());
        assert forall|a: int, b: int| 0 <= a < b < q1.len() implies !pair_lt(
            routing_key(e, q1[b]),
            routing_key(e, q1[a]),
        ) by {
            assert(q1[a] == p1[a + 1] && q1[b] == p1[b + 1]);
        }
        assert forall|a: int, b: int| 0 <= a < b < q2.len() implies !pair_lt(
            routing_key(e, q2[b]),
            routing_key(e, q2[a]),
        ) by {
            assert(q2[a] == p2[a + 1] && q2[b] == p2[b + 1]);
        }
        law_routing_order_is_determined(e, q1, q2);
        assert(p1 =~= p2) by {
            assert forall|i: int| 0 <= i < p1.len() implies p1[i] == p2[i] by {
                if i > 0 {
                    assert(p1[i] == q1[i - 1] && p2[i] == q2[i - 1]);
                }
            }
        }
    }
}

/// In a table whose paths are distinct, a path is among the paths declaring
/// `t` once when its data declares `t`, and otherwise not at all.
proof fn lemma_paths_declaring_count(
    e: Seq<(Seq<char>, DjangoModuleData)>,
    t: Seq<char>,
    p: Seq<char>,
)
    requires
        keys_distinct(e),
    ensures
        paths_declaring(e, t).to_multiset().count(p) == (if lookup(e, p) matches Some(d)
            && set_items(d.relation_targets).contains(t) {
            1nat
        } else {
            0nat
        }),
    decreases e.len(),
{
    if e.len() == 0 {
        assert(paths_declaring(e, t) =~= Seq::<Seq<char>>::empty());
        paths_declaring(e, t).to_multiset_ensures();
        assert(!paths_declaring(e, t).contains(p));
    } else {
        let init = e.drop_last();
        let last = e.last();
        assert(keys_distinct(init)) by {
            assert forall|i: int, j: int| 0 <= i < j < init.len() implies init[i].0 != init[j].0 by {
                assert(init[i] == e[i] && init[j] == e[j]);
            }
        }
        lemma_paths_declaring_count(init, t, p);
        let pd0 = paths_declaring(init, t);
        pd0.to_multiset_ensures();
        lemma_key_index(init, p);
        lemma_key_index_push(init, last, p);
        assert(init.push(last) =~= e);
        let declares = set_items(last.1.relation_targets).contains(t);
        if declares {
            assert(paths_declaring(e, t) == pd0.push(last.0));
            assert(paths_declaring(e, t).to_multiset().count(p) == pd0.to_multiset().count(p) + (if last.0
                == p {
                1nat
            } else {
                0nat
            }));
        } else {
            assert(paths_declaring(e, t) == pd0);
        }
        let ki = key_index(init, p);
        if ki >= 0 {
            assert(init[ki] == e[ki]);
            assert(e[ki].0 == p);
            assert(last.0 != p) by {
                assert(e[e.len() - 1] == last);
            }
            assert(key_index(e, p) == ki);
            assert(lookup(e, p) == lookup(init, p));
        } else if last.0 == p {
            assert(key_index(e, p) == e.len() - 1);
            assert(lookup(e, p) == Some(last.1));
            assert(lookup(init, p) is None);
        } else {
            assert(key_index(e, p) == -1);
            assert(lookup(e, p) is None);
            assert(lookup(init, p) is None);
        }
    }
}

/// A sequence in which some element occurs twice counts it at least twice.
proof fn lemma_repeat_counts_twice(p: Seq<Seq<char>>, i: int, j: int)
    requires
        0 <= i < j < p.len(),
        p[i] == p[j],
    ensures
        p.to_multiset().count(p[j]) >= 2,
{
    p.to_multiset_ensures();
    let q = p.remove(j);
    q.to_multiset_ensures();
    assert(q[i] == p[i]);
    assert(q.contains(p[j]));
    assert(q.to_multiset().count(p[j]) > 0);
    assert(q.to_multiset() =~= p.to_multiset().remove(p[j]));
    assert(p.to_multiset().count(p[j]) > 0) by {
        assert(p.contains(p[j]));
    }
}

/// Routed paths of a table with distinct paths are distinct, and so in
/// strictly increasing routing order.
proof fn lemma_routed_paths_are_strictly_sorted(
    e: Seq<(Seq<char>, DjangoModuleData)>,
    t: Seq<char>,
    p: Seq<Seq<char>>,
)
    requires
        keys_distinct(e),
        sorted_by_routing_key(e, p),
        p.to_multiset() == paths_declaring(e, t).to_multiset(),
    ensures
        p.no_duplicates(),
        strictly_sorted_by_routing_key(e, p),
{
    assert forall|i: int, j: int| 0 <= i < j < p.len() implies p[i] != p[j] by {
        if p[i] == p[j] {
            lemma_repeat_counts_twice(p, i, j);
            lemma_paths_declaring_count(e, t, p[j]);
        }
    }
    assert forall|i: int, j: int| 0 <= i < j < p.len() implies pair_lt(
        routing_key(e, p[i]),
        routing_key(e, p[j]),
    ) by {
        let a = routing_key(e, p[i]);
        let b = routing_key(e, p[j]);
        assert(!pair_lt(b, a));
        if a.0 != b.0 {
            lemma_seq_lt_total(a.0, b.0);
        } else {
            lemma_seq_lt_total(a.1, b.1);
        }
    }
}

/// Two tables holding the same module data under the same paths, in
/// whatever order they were built, list the same modules for a target, in the
/// same order.
pub proof fn law_routing_does_not_depend_on_table_order(
    e1: Seq<(Seq<char>, DjangoModuleData)>,
    e2: Seq<(Seq<char>, DjangoModuleData)>,
    t: Seq<char>,
    p1: Seq<Seq<char>>,
    p2: Seq<Seq<char>>,
)
    requires
        keys_distinct(e1),
        keys_distinct(e2),
        forall|k: Seq<char>| #[trigger] lookup(e1, k) == lookup(e2, k),
        sorted_by_routing_key(e1, p1),
        p1.to_multiset() == paths_declaring(e1, t).to_multiset(),
        sorted_by_routing_key(e2, p2),
        p2.to_multiset() == paths_declaring(e2, t).to_multiset(),
    ensures
        p1 == p2,
{
    assert(paths_declaring(e1, t).to_multiset() =~= paths_declaring(e2, t).to_multiset()) by {
        assert forall|p: Seq<char>|
            paths_declaring(e1, t).to_multiset().count(p) == paths_declaring(e2, t).to_multiset().count(
                p,
            ) by {
            lemma_paths_declaring_count(e1, t, p);
            lemma_paths_declaring_count(e2, t, p);
            assert(lookup(e1, p) == lookup(e2, p));
        }
    }
    assert forall|i: int, j: int| 0 <= i < j < p2.len() implies !pair_lt(
        routing_key(e1, p2[j]),
        routing_key(e1, p2[i]),
    ) by {
        assert(lookup(e1, p2[j]) == lookup(e2, p2[j]));
        assert(lookup(e1, p2[i]) == lookup(e2, p2[i]));
        assert(!pair_lt(routing_key(e2, p2[j]), routing_key(e2, p2[i])));
    }
    law_routing_order_is_determined(e1, p1, p2);
}

/// The `(module name, path)` pairs of a routing list, as text.
pub open spec fn routed_view(r: Seq<(String, String)>) -> Seq<(Seq<char>, Seq<char>)> {
    r.map_values(|x: (String, String)| (x.0@, x.1@))
}

/// Two tables holding the same module data under the same paths, whatever
/// the order they were built in, route a target to the same
/// `(module name, path)` pairs in the same order: what
/// `modules_for_relation_target` returns depends on the table's contents only.
pub proof fn law_routed_modules_do_not_depend_on_table_order(
    e1: Seq<(Seq<char>, DjangoModuleData)>,
    e2: Seq<(Seq<char>, DjangoModuleData)>,
    t: Seq<char>,
    r1: Seq<(String, String)>,
    r2: Seq<(String, String)>,
)
    requires
        keys_distinct(e1),
        keys_distinct(e2),
        forall|k: Seq<char>| #[trigger] lookup(e1, k) == lookup(e2, k),
        sorted_by_routing_key(e1, route_paths(r1)),
        route_paths(r1).to_multiset() == paths_declaring(e1, t).to_multiset(),
        forall|k: int| 0 <= k < r1.len() ==> (#[trigger] r1[k]).0@ == module_name_of(e1, r1[k].1@),
        sorted_by_routing_key(e2, route_paths(r2)),
        route_paths(r2).to_multiset() == paths_declaring(e2, t).to_multiset(),
        forall|k: int| 0 <= k < r2.len() ==> (#[trigger] r2[k]).0@ == module_name_of(e2, r2[k].1@),
    ensures
        routed_view(r1) == routed_view(r2),
{
    law_routing_does_not_depend_on_table_order(e1, e2, t, route_paths(r1), route_paths(r2));
    assert(route_paths(r1).len() == r1.len());
    assert forall|k: int| 0 <= k < r1.len() implies routed_view(r1)[k] == routed_view(r2)[k] by {
        assert(route_paths(r1)[k] == r1[k].1@);
        assert(route_paths(r2)[k] == r2[k].1@);
        assert(lookup(e1, r1[k].1@) == lookup(e2, r1[k].1@));
    }
    assert(routed_view(r1) =~= routed_view(r2));
}

/// Recording a reader makes it a reader of the target, keeps every earlier
/// reader, and recording it again changes nothing.
pub proof fn law_recorded_reader_is_kept(readers: Seq<Seq<char>>, reader: Seq<char>, y: Seq<char>)
    ensures
        set_insert_spec(readers, reader).contains(reader),
        readers.contains(y) ==> set_insert_spec(readers, reader).contains(y),
        set_insert_spec(set_insert_spec(readers, reader), reader) == set_insert_spec(readers, reader),
{
    if !readers.contains(reader) {
        assert(readers.push(reader)[readers.len() as int] == reader);
        if readers.contains(y) {
            let i = choose|i: int| 0 <= i < readers.len() && readers[i] == y;
            assert(readers.push(reader)[i] == y);
        }
    }
}

/// The readers of a target after recording `readers`, one `record` call
/// after another, in order.
pub open spec fn record_in_order(recorded: Seq<Seq<char>>, readers: Seq<Seq<char>>) -> Seq<
    Seq<char>,
>
    decreases readers.len(),
{
    if readers.len() == 0 {
        recorded
    } else {
        record_in_order(set_insert_spec(recorded, readers[0]), readers.drop_first())
    }
}

/// Merging another table of readers has, for each target, the effect of
/// recording each of its readers of that target, one call after another, in
/// its order.
pub proof fn law_merge_is_recording_each_reader(mine: Seq<Seq<char>>, theirs: Seq<Seq<char>>)
    ensures
        set_insert_all_spec(mine, theirs) == record_in_order(mine, theirs),
    decreases theirs.len(),
{
    if theirs.len() > 0 {
        let first = seq![theirs[0]];
        let rest = theirs.drop_first();
        law_merge_is_recording_each_reader(set_insert_spec(mine, theirs[0]), rest);
        assert(first + rest =~= theirs);
        lemma_insert_all_append(mine, first, rest);
        assert(first.drop_last() =~= Seq::<Seq<char>>::empty());
        assert(set_insert_all_spec(mine, first.drop_last()) == mine);
        assert(first.last() == theirs[0]);
        assert(set_insert_all_spec(mine, first) == set_insert_spec(mine, theirs[0]));
    }
}

/// After a merge, a module reads a target exactly when it read it before or
/// the merged readers had it read it.
pub proof fn law_merge_is_union(mine: Seq<Seq<char>>, theirs: Seq<Seq<char>>, y: Seq<char>)
    ensures
        set_insert_all_spec(mine, theirs).contains(y) <==> mine.contains(y) || theirs.contains(y),
{
    lemma_insert_all_contains(mine, theirs, y);
}

/// The elements of `minus(a, b)` are the elements of `a` that `b` lacks.
proof fn lemma_minus_contains(a: Seq<Seq<char>>, b: Seq<Seq<char>>, x: Seq<char>)
    ensures
        minus(a, b).contains(x) <==> a.contains(x) && !b.contains(x),
{
    let pred = |y: Seq<char>| !b.contains(y);
    a.filter_lemma(pred);
    if minus(a, b).contains(x) {
        a.lemma_filter_contains_rev(pred, x);
        let i = choose|i: int| 0 <= i < minus(a, b).len() && minus(a, b)[i] == x;
        assert(pred(minus(a, b)[i]));
    }
    if a.contains(x) && !b.contains(x) {
        let i = choose|i: int| 0 <= i < a.len() && a[i] == x;
        assert(pred(a[i]));
    }
}

/// After recording a rescan, a name has changed exactly when it had changed
/// before, or the rescan found it in one of the two scans and not the other.
pub proof fn law_changed_targets_are_the_symmetric_difference(
    names: Seq<Seq<char>>,
    before: Seq<Seq<char>>,
    after: Seq<Seq<char>>,
    x: Seq<char>,
)
    ensures
        set_insert_all_spec(
            set_insert_all_spec(names, minus(before, after)),
            minus(after, before),
        ).contains(x) <==> names.contains(x) || before.contains(x) != after.contains(x),
{
    lemma_insert_all_contains(names, minus(before, after), x);
    lemma_insert_all_contains(
        set_insert_all_spec(names, minus(before, after)),
        minus(after, before),
        x,
    );
    lemma_minus_contains(before, after, x);
    lemma_minus_contains(after, before, x);
}

/// A module is a stale reader exactly when it read some changed name.
pub proof fn law_stale_readers_are_the_readers_of_changed_names(
    names: Seq<Seq<char>>,
    readers: DjangoReaders,
    m: Seq<char>,
)
    ensures
        stale_of(names, readers).contains(m) <==> exists|n: Seq<char>|
            names.contains(n) && #[trigger] readers.readers(n).contains(m),
    decreases names.len(),
{
    if names.len() > 0 {
        let init = names.drop_last();
        let last = names.last();
        law_stale_readers_are_the_readers_of_changed_names(init, readers, m);
        let s0 = stale_of(init, readers);
        let rl = readers.readers(last);
        assert(stale_of(names, readers) == s0 + rl);
        if stale_of(names, readers).contains(m) {
            let i = choose|i: int| 0 <= i < s0.len() + rl.len() && (s0 + rl)[i] == m;
            if i < s0.len() {
                assert(s0[i] == m);
                let n = choose|n: Seq<char>| init.contains(n) && #[trigger] readers.readers(n).contains(m);
                let q = choose|q: int| 0 <= q < init.len() && init[q] == n;
                assert(names[q] == n);
            } else {
                assert(rl[i - s0.len()] == m);
                assert(names[names.len() - 1] == last);
                assert(names.contains(last) && readers.readers(last).contains(m));
            }
        }
        if exists|n: Seq<char>| names.contains(n) && #[trigger] readers.readers(n).contains(m) {
            let n = choose|n: Seq<char>| names.contains(n) && #[trigger] readers.readers(n).contains(m);
            let q = choose|q: int| 0 <= q < names.len() && names[q] == n;
            if q < names.len() - 1 {
                assert(init[q] == n);
                let i = choose|i: int| 0 <= i < s0.len() && s0[i] == m;
                assert((s0 + rl)[i] == m);
            } else {
                let i = choose|i: int| 0 <= i < rl.len() && rl[i] == m;
                assert((s0 + rl)[s0.len() + i] == m);
            }
        }
    }
}

/// A rescan that adds or drops a relation to a model invalidates every module
/// that asked about that model.
pub proof fn law_changed_target_invalidates_its_readers(
    names: Seq<Seq<char>>,
    before: Seq<Seq<char>>,
    after: Seq<Seq<char>>,
    readers: DjangoReaders,
    target: Seq<char>,
    m: Seq<char>,
)
    requires
        before.contains(target) != after.contains(target),
        readers.readers(target).contains(m),
    ensures
        stale_of(
            set_insert_all_spec(
                set_insert_all_spec(names, minus(before, after)),
                minus(after, before),
            ),
            readers,
        ).contains(m),
{
    let changed = set_insert_all_spec(
        set_insert_all_spec(names, minus(before, after)),
        minus(after, before),
    );
    law_changed_targets_are_the_symmetric_difference(names, before, after, target);
    law_stale_readers_are_the_readers_of_changed_names(changed, readers, m);
}

} // verus!
