use pyrefly_django::ast::{Expr, ExprCall, Keyword, ModModule, Stmt};
use pyrefly_django::django_index::{
    ChangedTargets, DjangoModuleData, DjangoReaders, DjangoRelationIndex, RELATION_TOKENS,
    django_scan,
};
use starlark_map::small_map::SmallMap;
use starlark_map::small_set::SmallSet;

fn name(n: &str) -> Expr {
    Expr::Name(n.to_owned())
}

fn attr(value: Expr, a: &str) -> Expr {
    Expr::Attribute { value: Box::new(value), attr: a.to_owned() }
}

fn string(s: &str) -> Expr {
    Expr::StringLiteral(s.to_owned())
}

fn kw(arg: &str, value: Expr) -> Keyword {
    Keyword { arg: Some(arg.to_owned()), value }
}

fn call(func: Expr, args: Vec<Expr>, keywords: Vec<Keyword>) -> Expr {
    Expr::Call(ExprCall { func: Box::new(func), args, keywords })
}

/// `models.<field>(args..., keywords...)`
fn models_call(field: &str, args: Vec<Expr>, keywords: Vec<Keyword>) -> Expr {
    call(attr(name("models"), field), args, keywords)
}

fn assign(value: Expr) -> Stmt {
    Stmt::Assign { value }
}

fn class(n: &str, body: Vec<Stmt>) -> Stmt {
    Stmt::ClassDef { name: n.to_owned(), body }
}

fn targets(body: Vec<Stmt>) -> Vec<String> {
    django_scan(&ModModule { body }).iter().cloned().collect()
}

fn set(items: &[&str]) -> SmallSet<String> {
    let mut s = SmallSet::new();
    for x in items {
        s.insert((*x).to_owned());
    }
    s
}

fn module(name: &str, targets: &[&str]) -> DjangoModuleData {
    DjangoModuleData { module_name: name.to_owned(), relation_targets: set(targets) }
}

#[test]
fn test_bare_and_qualified_constructors() {
    let scan = targets(vec![class(
        "Book",
        vec![
            assign(models_call(
                "ForeignKey",
                vec![name("Author")],
                vec![kw("on_delete", attr(name("models"), "CASCADE"))],
            )),
            assign(call(name("ForeignKey"), vec![name("Editor")], vec![])),
            assign(models_call("OneToOneField", vec![name("Place")], vec![])),
            assign(models_call("ManyToManyField", vec![name("Tag")], vec![])),
        ],
    )]);
    assert_eq!(scan, vec!["Author", "Editor", "Place", "Tag"]);
}

#[test]
fn test_dotted_target_keeps_last_component() {
    let target = attr(attr(name("auth"), "models"), "User");
    assert_eq!(
        targets(vec![class("B", vec![assign(models_call("ForeignKey", vec![target], vec![]))])]),
        vec!["User"]
    );
}

#[test]
fn test_string_literal_targets() {
    assert_eq!(
        targets(vec![class(
            "B",
            vec![assign(models_call("ForeignKey", vec![string("Author")], vec![]))]
        )]),
        vec!["Author"]
    );
    assert_eq!(
        targets(vec![class(
            "B",
            vec![assign(models_call("ForeignKey", vec![string("myapp.Author")], vec![]))]
        )]),
        vec!["Author"]
    );
}

#[test]
fn test_self_reference_is_not_a_routing_target() {
    let scan = targets(vec![class(
        "B",
        vec![assign(models_call("ForeignKey", vec![string("self")], vec![]))],
    )]);
    assert!(scan.is_empty());
}

#[test]
fn test_unreadable_target_is_ignored() {
    let target = call(attr(name("settings"), "AUTH_USER_MODEL_REF"), vec![], vec![]);
    let scan = targets(vec![class(
        "B",
        vec![assign(models_call("ForeignKey", vec![target], vec![]))],
    )]);
    assert!(scan.is_empty());
}

#[test]
fn test_keyword_target_is_indexed() {
    assert_eq!(
        targets(vec![class(
            "B",
            vec![assign(models_call("ForeignKey", vec![], vec![kw("to", name("Author"))]))]
        )]),
        vec!["Author"]
    );
}

#[test]
fn test_annotated_assignment() {
    let value = models_call("ForeignKey", vec![name("Author")], vec![]);
    assert_eq!(
        targets(vec![class("B", vec![Stmt::AnnAssign { value: Some(value) }])]),
        vec!["Author"]
    );
}

#[test]
fn test_nested_and_conditional_declarations() {
    // `if TYPE_CHECKING:` around one class, a `def` around the other.
    let guarded = Stmt::Other {
        body: vec![class(
            "Guarded",
            vec![assign(models_call("ForeignKey", vec![name("Author")], vec![]))],
        )],
    };
    let factory = Stmt::Other {
        body: vec![class(
            "Local",
            vec![assign(models_call("ForeignKey", vec![name("Editor")], vec![]))],
        )],
    };
    assert_eq!(targets(vec![guarded, factory]), vec!["Author", "Editor"]);
}

#[test]
fn test_non_relation_calls_are_ignored() {
    let scan = targets(vec![class(
        "B",
        vec![
            assign(models_call(
                "CharField",
                vec![],
                vec![kw("max_length", Expr::Other)],
            )),
            assign(models_call("IntegerField", vec![], vec![])),
        ],
    )]);
    assert!(scan.is_empty());
}

#[test]
fn test_module_level_assignment_is_not_a_relation() {
    let scan = targets(vec![assign(models_call("ForeignKey", vec![name("Author")], vec![]))]);
    assert!(scan.is_empty());
}

#[test]
fn test_relation_tokens_cover_every_recognized_constructor() {
    for constructor in ["ForeignKey", "OneToOneField", "ManyToManyField"] {
        assert!(RELATION_TOKENS.contains(&constructor));
        // and the scan does recognize each of them
        let scan = targets(vec![class(
            "B",
            vec![assign(models_call(constructor, vec![name("Author")], vec![]))],
        )]);
        assert_eq!(scan, vec!["Author"]);
    }
}

#[test]
fn test_scan_lists_each_target_once_in_first_appearance_order() {
    let scan = targets(vec![
        class(
            "A",
            vec![
                assign(models_call("ForeignKey", vec![name("Tag")], vec![])),
                assign(models_call("ManyToManyField", vec![name("Author")], vec![])),
            ],
        ),
        class(
            "B",
            vec![
                assign(models_call("ForeignKey", vec![string("app.Tag")], vec![])),
                assign(models_call("OneToOneField", vec![name("Place")], vec![])),
            ],
        ),
    ]);
    assert_eq!(scan, vec!["Tag", "Author", "Place"]);
}

#[test]
fn test_nested_class_members_are_scanned() {
    let inner = class("Meta", vec![assign(models_call("ForeignKey", vec![name("Inner")], vec![]))]);
    let scan = targets(vec![class(
        "Outer",
        vec![inner, assign(models_call("ForeignKey", vec![name("Outer2")], vec![]))],
    )]);
    // a class's own members first, then the classes nested in it
    assert_eq!(scan, vec!["Outer2", "Inner"]);
}

#[test]
fn test_index_lists_declaring_modules_by_module_name_then_path() {
    let mut modules = SmallMap::new();
    modules.insert("z/press.py".to_owned(), module("press", &["Author"]));
    modules.insert("b/library.py".to_owned(), module("library", &["Author", "Tag"]));
    modules.insert("a/library.py".to_owned(), module("library", &["Author"]));
    modules.insert("c/other.py".to_owned(), module("aaa", &["Tag"]));
    let index = DjangoRelationIndex::new(modules);
    assert_eq!(
        index.modules_for_relation_target("Author"),
        vec![
            ("library".to_owned(), "a/library.py".to_owned()),
            ("library".to_owned(), "b/library.py".to_owned()),
            ("press".to_owned(), "z/press.py".to_owned()),
        ]
    );
    assert_eq!(
        index.modules_for_relation_target("Tag"),
        vec![
            ("aaa".to_owned(), "c/other.py".to_owned()),
            ("library".to_owned(), "b/library.py".to_owned()),
        ]
    );
    assert!(index.modules_for_relation_target("Nobody").is_empty());
    assert_eq!(index.module_data_by_path().len(), 4);
}

#[test]
fn test_index_order_does_not_depend_on_insertion_order() {
    let mut first = SmallMap::new();
    first.insert("p1".to_owned(), module("m2", &["X"]));
    first.insert("p2".to_owned(), module("m1", &["X"]));
    let mut second = SmallMap::new();
    second.insert("p2".to_owned(), module("m1", &["X"]));
    second.insert("p1".to_owned(), module("m2", &["X"]));
    let a = DjangoRelationIndex::new(first).modules_for_relation_target("X");
    let b = DjangoRelationIndex::new(second).modules_for_relation_target("X");
    assert_eq!(a, b);
    assert_eq!(a[0].0, "m1");
}

#[test]
fn test_default_index_is_empty() {
    let index = DjangoRelationIndex::default();
    assert!(index.modules_for_relation_target("Author").is_empty());
    assert_eq!(index.module_data_by_path().len(), 0);
}

#[test]
fn test_recorded_readers_are_stale_when_their_target_changes() {
    let mut readers = DjangoReaders::default();
    readers.record("Author", "main.py");
    readers.record("Author", "author.py");
    readers.record("Author", "main.py");
    readers.record("Tag", "tags.py");
    let mut changed = ChangedTargets::default();
    let before = set(&["Tag"]);
    let after = set(&["Tag", "Author"]);
    changed.record(Some(&before), Some(&after));
    assert_eq!(changed.stale_readers(&readers), vec!["main.py", "author.py"]);
}

#[test]
fn test_changed_targets_hold_the_symmetric_difference() {
    let mut readers = DjangoReaders::default();
    readers.record("A", "ra");
    readers.record("B", "rb");
    readers.record("C", "rc");
    let mut changed = ChangedTargets::default();
    changed.record(Some(&set(&["A", "B"])), Some(&set(&["B", "C"])));
    // lost `A` first, then gained `C`; `B` did not change
    assert_eq!(changed.stale_readers(&readers), vec!["ra", "rc"]);
    changed.record(None, Some(&set(&["B"])));
    assert_eq!(changed.stale_readers(&readers), vec!["ra", "rc", "rb"]);
}

#[test]
fn test_unchanged_rescan_marks_nothing_stale() {
    let mut readers = DjangoReaders::default();
    readers.record("A", "ra");
    let mut changed = ChangedTargets::default();
    changed.record(Some(&set(&["A"])), Some(&set(&["A"])));
    changed.record(None, None);
    assert!(changed.stale_readers(&readers).is_empty());
}

#[test]
fn test_merge_adds_the_other_readers() {
    let mut mine = DjangoReaders::default();
    mine.record("A", "x");
    let mut theirs = DjangoReaders::default();
    theirs.record("A", "y");
    theirs.record("A", "x");
    theirs.record("B", "z");
    mine.merge(theirs);
    let mut changed = ChangedTargets::default();
    changed.record(None, Some(&set(&["A", "B"])));
    assert_eq!(changed.stale_readers(&mine), vec!["x", "y", "z"]);
}

#[test]
fn test_relation_added_in_another_module_reaches_the_target() {
    // `main` reads `Author().book_set`; the modules defining `Author` asked the
    // routing table about `Author`.
    let mut readers = DjangoReaders::default();
    readers.record("Author", "author.py");
    let book_with_relation = vec![class(
        "Book",
        vec![assign(models_call(
            "ForeignKey",
            vec![name("Author")],
            vec![kw("on_delete", attr(name("models"), "CASCADE"))],
        ))],
    )];
    let index_of = |scan: &SmallSet<String>| {
        let mut modules = SmallMap::new();
        if !scan.is_empty() {
            modules.insert(
                "book.py".to_owned(),
                DjangoModuleData { module_name: "book".to_owned(), relation_targets: scan.clone() },
            );
        }
        DjangoRelationIndex::new(modules)
    };

    let empty_scan = django_scan(&ModModule { body: vec![] });
    assert_eq!(
        index_of(&empty_scan).modules_for_relation_target("Author").len(),
        0,
        "`book_set` should not exist yet"
    );

    let with_relation = django_scan(&ModModule { body: book_with_relation });
    let mut changed = ChangedTargets::default();
    changed.record(Some(&empty_scan), Some(&with_relation));
    assert_eq!(changed.stale_readers(&readers), vec!["author.py"]);
    assert_eq!(
        index_of(&with_relation).modules_for_relation_target("Author"),
        vec![("book".to_owned(), "book.py".to_owned())],
        "adding the relation should make `book_set` appear on `Author`"
    );

    let mut changed = ChangedTargets::default();
    changed.record(Some(&with_relation), Some(&empty_scan));
    assert_eq!(changed.stale_readers(&readers), vec!["author.py"]);
    assert_eq!(
        index_of(&empty_scan).modules_for_relation_target("Author").len(),
        0,
        "removing the relation should make `book_set` disappear again"
    );
}
