use cargo_rust_unused::analyzer::{reconcile, CodeAnalyzer};
use cargo_rust_unused::string_set::StringSet;
use cargo_rust_unused::syntax::{
    function_key_of, module_key_of, Callee, NodeKind, SourceFile, SyntaxNode, UseTree, ENTRY_POINT,
    FUNCTION_PREFIX, MODULE_PREFIX,
};

fn strings(items: &[&str]) -> Vec<String> {
    items.iter().map(|s| s.to_string()).collect()
}

fn node(kind: NodeKind, children: Vec<SyntaxNode>) -> SyntaxNode {
    SyntaxNode { kind, children }
}

fn function(name: &str, children: Vec<SyntaxNode>) -> SyntaxNode {
    node(NodeKind::Function { name: name.to_string() }, children)
}

fn module(name: &str, children: Vec<SyntaxNode>) -> SyntaxNode {
    node(NodeKind::Module { name: name.to_string() }, children)
}

fn other(children: Vec<SyntaxNode>) -> SyntaxNode {
    node(NodeKind::Other, children)
}

fn path_ref(segments: &[&str]) -> SyntaxNode {
    node(NodeKind::PathRef { segments: strings(segments) }, vec![])
}

/// A call of a path, as a parser hands it over: the callee is one of the
/// call's own sub-expressions.
fn call(segments: &[&str], args: Vec<SyntaxNode>) -> SyntaxNode {
    let mut children = vec![path_ref(segments)];
    children.extend(args);
    node(NodeKind::Call { callee: Callee::Path { segments: strings(segments) } }, children)
}

fn import(tree: UseTree) -> SyntaxNode {
    node(NodeKind::Import { tree }, vec![])
}

fn use_name(ident: &str) -> UseTree {
    UseTree::Name { ident: ident.to_string() }
}

fn use_path(segments: &[&str], last: UseTree) -> UseTree {
    let mut tree = last;
    for segment in segments.iter().rev() {
        tree = UseTree::Path { ident: segment.to_string(), tree: Box::new(tree) };
    }
    tree
}

fn file(items: Vec<SyntaxNode>) -> SourceFile {
    SourceFile { items }
}

fn analyse(dependencies: &[&str], files: &[SourceFile]) -> CodeAnalyzer {
    let mut analyzer = CodeAnalyzer::new();
    analyzer.analyze_project(&strings(dependencies), files);
    analyzer
}

/// `use serde;`, two functions of which `main` calls one, and a module with a
/// function of its own.
fn sample_main_file() -> SourceFile {
    file(vec![
        import(use_name("serde")),
        function("used_function", vec![other(vec![])]),
        function("unused_function", vec![other(vec![])]),
        module("unused_module", vec![function("unused_fn", vec![])]),
        function("main", vec![other(vec![call(&["used_function"], vec![])])]),
    ])
}

#[test]
fn sample_project_is_reported_in_full() {
    let analyzer = analyse(&["serde", "log"], &[sample_main_file()]);
    assert_eq!(analyzer.report.unused_dependencies, strings(&["log"]));
    assert_eq!(analyzer.report.unused_functions, strings(&["fn unused_fn", "fn unused_function"]));
    assert_eq!(analyzer.report.unused_modules, strings(&["mod unused_module"]));
}

#[test]
fn one_unused_item_of_each_kind() {
    let source = file(vec![
        import(use_name("serde")),
        function("used_function", vec![]),
        function("unused_function", vec![]),
        module("unused_module", vec![]),
        function("main", vec![call(&["used_function"], vec![])]),
    ]);
    let analyzer = analyse(&["serde", "log"], &[source]);
    assert_eq!(analyzer.report.unused_dependencies, strings(&["log"]));
    assert_eq!(analyzer.report.unused_functions, strings(&["fn unused_function"]));
    assert_eq!(analyzer.report.unused_modules, strings(&["mod unused_module"]));
}

#[test]
fn new_analyzer_holds_nothing() {
    let analyzer = CodeAnalyzer::new();
    assert!(analyzer.report.unused_dependencies.is_empty());
    assert!(analyzer.report.unused_functions.is_empty());
    assert!(analyzer.report.unused_modules.is_empty());
    assert!(analyzer.declared_items().is_empty());
    assert!(analyzer.used_items().is_empty());
    assert!(analyzer.dependencies().is_empty());
    assert!(analyzer.used_dependencies().is_empty());
}

#[test]
fn empty_project_reports_nothing() {
    let analyzer = analyse(&[], &[]);
    assert!(analyzer.report.unused_dependencies.is_empty());
    assert!(analyzer.report.unused_functions.is_empty());
    assert!(analyzer.report.unused_modules.is_empty());
    assert!(analyzer.report().is_empty());
}

#[test]
fn project_of_files_without_declarations_reports_nothing() {
    let files = [file(vec![]), file(vec![other(vec![other(vec![])])])];
    let analyzer = analyse(&[], &files);
    assert!(analyzer.report.unused_dependencies.is_empty());
    assert!(analyzer.report.unused_functions.is_empty());
    assert!(analyzer.report.unused_modules.is_empty());
}

#[test]
fn uncalled_function_is_reported_until_it_is_called() {
    let uncalled = [file(vec![function("helper", vec![]), function("main", vec![])])];
    let analyzer = analyse(&[], &uncalled);
    assert_eq!(analyzer.report.unused_functions, strings(&["fn helper"]));

    let called = [
        file(vec![function("helper", vec![]), function("main", vec![])]),
        file(vec![function("elsewhere", vec![call(&["helper"], vec![])])]),
    ];
    let analyzer = analyse(&[], &called);
    assert_eq!(analyzer.report.unused_functions, strings(&["fn elsewhere"]));
}

#[test]
fn entry_point_is_never_reported() {
    let files = [file(vec![function("main", vec![])])];
    let analyzer = analyse(&[], &files);
    assert!(analyzer.report.unused_functions.is_empty());
    assert!(analyzer.declared_items().is_empty());
}

#[test]
fn entry_point_nested_in_a_module_is_not_reported_either() {
    let files = [file(vec![module("inner", vec![function("main", vec![])])])];
    let analyzer = analyse(&[], &files);
    assert!(analyzer.report.unused_functions.is_empty());
    assert_eq!(analyzer.report.unused_modules, strings(&["mod inner"]));
}

#[test]
fn function_whose_name_only_begins_like_the_entry_point_is_reported() {
    let files = [file(vec![function("main2", vec![]), function("mai", vec![])])];
    let analyzer = analyse(&[], &files);
    assert_eq!(analyzer.report.unused_functions, strings(&["fn mai", "fn main2"]));
}

#[test]
fn imported_dependency_is_not_reported() {
    let files = [file(vec![import(use_path(&["serde"], use_name("Serialize")))])];
    let analyzer = analyse(&["serde", "log"], &files);
    assert_eq!(analyzer.report.unused_dependencies, strings(&["log"]));
    assert_eq!(analyzer.used_dependencies(), &strings(&["serde"]));
}

#[test]
fn dependency_without_import_is_reported() {
    let analyzer = analyse(&["regex", "anyhow"], &[file(vec![function("main", vec![])])]);
    assert_eq!(analyzer.report.unused_dependencies, strings(&["anyhow", "regex"]));
}

#[test]
fn only_the_first_segment_of_an_import_counts() {
    let files = [file(vec![import(use_path(&["a", "b"], use_name("c")))])];
    let analyzer = analyse(&["a", "b", "c"], &files);
    assert_eq!(analyzer.report.unused_dependencies, strings(&["b", "c"]));
}

#[test]
fn every_form_of_import_names_its_first_segment() {
    let files = [file(vec![
        import(use_name("plain")),
        import(UseTree::Rename { ident: "renamed".to_string(), rename: "other".to_string() }),
        import(use_path(&["globbed"], UseTree::Glob)),
        import(use_path(
            &["grouped"],
            UseTree::Group { items: vec![use_name("x"), use_path(&["y"], use_name("z"))] },
        )),
        import(UseTree::Group {
            items: vec![use_path(&["left"], use_name("l")), use_name("right"), UseTree::Glob],
        }),
    ])];
    let dependencies =
        ["plain", "renamed", "other", "globbed", "grouped", "x", "y", "z", "left", "l", "right"];
    let analyzer = analyse(&dependencies, &files);
    assert_eq!(analyzer.report.unused_dependencies, strings(&["l", "other", "x", "y", "z"]));
    assert_eq!(
        analyzer.used_dependencies(),
        &strings(&["globbed", "grouped", "left", "plain", "renamed", "right"])
    );
}

#[test]
fn import_inside_a_function_body_counts() {
    let files = [file(vec![function("main", vec![import(use_path(&["log"], use_name("info")))])])];
    let analyzer = analyse(&["log"], &files);
    assert!(analyzer.report.unused_dependencies.is_empty());
}

#[test]
fn dependency_name_must_match_exactly() {
    let files = [file(vec![import(use_path(&["serde_json"], use_name("Value")))])];
    let analyzer = analyse(&["serde", "serde-json", "serde_json"], &files);
    assert_eq!(analyzer.report.unused_dependencies, strings(&["serde", "serde-json"]));
}

#[test]
fn analysis_is_idempotent() {
    let dependencies = strings(&["serde", "log"]);
    let files = [sample_main_file()];
    let mut analyzer = CodeAnalyzer::new();
    analyzer.analyze_project(&dependencies, &files);
    let first = (
        analyzer.report.unused_dependencies.clone(),
        analyzer.report.unused_functions.clone(),
        analyzer.report.unused_modules.clone(),
    );
    analyzer.analyze_project(&dependencies, &files);
    assert_eq!(analyzer.report.unused_dependencies, first.0);
    assert_eq!(analyzer.report.unused_functions, first.1);
    assert_eq!(analyzer.report.unused_modules, first.2);

    let again = analyse(&["serde", "log"], &[sample_main_file()]);
    assert_eq!(again.report.unused_dependencies, first.0);
    assert_eq!(again.report.unused_functions, first.1);
    assert_eq!(again.report.unused_modules, first.2);
}

#[test]
fn report_does_not_depend_on_the_order_of_files_or_dependencies() {
    let one = || file(vec![function("zeta", vec![]), module("m2", vec![])]);
    let two = || file(vec![function("alpha", vec![]), module("m1", vec![])]);
    let forward = analyse(&["x", "a", "m"], &[one(), two()]);
    let backward = analyse(&["m", "a", "x"], &[two(), one()]);
    assert_eq!(forward.report.unused_dependencies, strings(&["a", "m", "x"]));
    assert_eq!(forward.report.unused_functions, strings(&["fn alpha", "fn zeta"]));
    assert_eq!(forward.report.unused_modules, strings(&["mod m1", "mod m2"]));
    assert_eq!(backward.report.unused_dependencies, forward.report.unused_dependencies);
    assert_eq!(backward.report.unused_functions, forward.report.unused_functions);
    assert_eq!(backward.report.unused_modules, forward.report.unused_modules);
}

#[test]
fn function_used_only_as_a_value_is_still_reported() {
    let files = [file(vec![
        function("callback", vec![]),
        function("register", vec![]),
        function(
            "main",
            vec![
                other(vec![path_ref(&["callback"])]),
                call(&["register"], vec![path_ref(&["callback"])]),
            ],
        ),
    ])];
    let analyzer = analyse(&[], &files);
    assert_eq!(analyzer.report.unused_functions, strings(&["fn callback"]));
}

#[test]
fn qualified_call_marks_its_last_segment() {
    let files = [file(vec![
        module("util", vec![function("helper", vec![])]),
        function("util", vec![]),
        function("main", vec![call(&["crate", "util", "helper"], vec![])]),
    ])];
    let analyzer = analyse(&[], &files);
    assert_eq!(analyzer.report.unused_functions, strings(&["fn util"]));
    assert_eq!(analyzer.used_items(), &strings(&["fn helper"]));
}

#[test]
fn call_of_something_computed_marks_nothing() {
    let computed = node(NodeKind::Call { callee: Callee::Computed }, vec![path_ref(&["helper"])]);
    let empty_path = node(NodeKind::Call { callee: Callee::Path { segments: vec![] } }, vec![]);
    let files =
        [file(vec![function("helper", vec![]), function("main", vec![computed, empty_path])])];
    let analyzer = analyse(&[], &files);
    assert_eq!(analyzer.report.unused_functions, strings(&["fn helper"]));
    assert!(analyzer.used_items().is_empty());
}

#[test]
fn calls_nested_in_arguments_and_closures_count() {
    let files = [file(vec![
        function("inner", vec![]),
        function("outer", vec![]),
        function("deep", vec![]),
        function(
            "main",
            vec![call(
                &["outer"],
                vec![call(&["inner"], vec![]), other(vec![other(vec![call(&["deep"], vec![])])])],
            )],
        ),
    ])];
    let analyzer = analyse(&[], &files);
    assert!(analyzer.report.unused_functions.is_empty());
}

#[test]
fn nested_declarations_are_found() {
    let files = [file(vec![
        module("outer", vec![module("inner", vec![function("buried", vec![])])]),
        other(vec![other(vec![function("in_impl_body", vec![])])]),
        function("main", vec![function("local", vec![])]),
    ])];
    let analyzer = analyse(&[], &files);
    assert_eq!(
        analyzer.report.unused_functions,
        strings(&["fn buried", "fn in_impl_body", "fn local"])
    );
    assert_eq!(analyzer.report.unused_modules, strings(&["mod inner", "mod outer"]));
}

#[test]
fn modules_are_always_reported() {
    let files = [file(vec![
        module("helpers", vec![function("run", vec![])]),
        function("main", vec![call(&["helpers", "run"], vec![]), path_ref(&["helpers"])]),
    ])];
    let analyzer = analyse(&[], &files);
    assert_eq!(analyzer.report.unused_modules, strings(&["mod helpers"]));
    assert!(analyzer.report.unused_functions.is_empty());
}

#[test]
fn function_and_module_of_one_name_are_kept_apart() {
    let files = [file(vec![
        function("shared", vec![]),
        module("shared", vec![]),
        function("main", vec![call(&["shared"], vec![])]),
    ])];
    let analyzer = analyse(&[], &files);
    assert!(analyzer.report.unused_functions.is_empty());
    assert_eq!(analyzer.report.unused_modules, strings(&["mod shared"]));
}

#[test]
fn same_name_in_several_files_is_one_item() {
    let files = [
        file(vec![function("twice", vec![]), module("m", vec![])]),
        file(vec![function("twice", vec![]), module("m", vec![])]),
    ];
    let analyzer = analyse(&["dup", "dup"], &files);
    assert_eq!(analyzer.report.unused_functions, strings(&["fn twice"]));
    assert_eq!(analyzer.report.unused_modules, strings(&["mod m"]));
    assert_eq!(analyzer.report.unused_dependencies, strings(&["dup"]));

    let with_call = [
        file(vec![function("twice", vec![])]),
        file(vec![function("twice", vec![]), function("main", vec![call(&["twice"], vec![])])]),
    ];
    assert!(analyse(&[], &with_call).report.unused_functions.is_empty());
}

#[test]
fn listings_are_in_code_point_order() {
    let files = [file(vec![
        function("b", vec![]),
        function("ab", vec![]),
        function("a", vec![]),
        function("B", vec![]),
        function("_x", vec![]),
        function("a1", vec![]),
        function("\u{e9}t\u{e9}", vec![]),
        function("z", vec![]),
    ])];
    let analyzer = analyse(&[], &files);
    let expected =
        strings(&["fn B", "fn _x", "fn a", "fn a1", "fn ab", "fn b", "fn z", "fn \u{e9}t\u{e9}"]);
    assert_eq!(analyzer.report.unused_functions, expected);
    let mut sorted = expected.clone();
    sorted.sort();
    assert_eq!(sorted, expected);
}

#[test]
fn reconciling_again_replaces_the_report() {
    let mut analyzer = CodeAnalyzer::new();
    analyzer.add_dependencies(&strings(&["log"]));
    analyzer.analyze_file(&file(vec![function("helper", vec![])]));
    assert!(analyzer.report.unused_functions.is_empty());
    analyzer.find_unused_items();
    analyzer.find_unused_items();
    assert_eq!(analyzer.report.unused_functions, strings(&["fn helper"]));
    assert_eq!(analyzer.report.unused_dependencies, strings(&["log"]));

    analyzer.report.unused_modules.push("mod stale".to_string());
    analyzer.analyze_file(&file(vec![function("main", vec![call(&["helper"], vec![])])]));
    assert_eq!(analyzer.report.unused_functions, strings(&["fn helper"]));
    analyzer.find_unused_items();
    assert!(analyzer.report.unused_functions.is_empty());
    assert!(analyzer.report.unused_modules.is_empty());
    assert_eq!(analyzer.report.unused_dependencies, strings(&["log"]));
}

#[test]
fn gathering_only_adds() {
    let mut analyzer = CodeAnalyzer::new();
    analyzer.analyze_file(&file(vec![function("one", vec![call(&["two"], vec![])])]));
    assert_eq!(analyzer.declared_items(), &strings(&["fn one"]));
    assert_eq!(analyzer.used_items(), &strings(&["fn two"]));
    analyzer.analyze_file(&file(vec![module("m", vec![]), import(use_name("dep"))]));
    assert_eq!(analyzer.declared_items(), &strings(&["fn one", "mod m"]));
    assert_eq!(analyzer.used_items(), &strings(&["fn two"]));
    assert_eq!(analyzer.used_dependencies(), &strings(&["dep"]));
    analyzer.add_dependencies(&strings(&["dep", "other"]));
    analyzer.add_dependencies(&strings(&["third"]));
    assert_eq!(analyzer.dependencies(), &strings(&["dep", "other", "third"]));
}

#[test]
fn visiting_single_nodes() {
    let mut analyzer = CodeAnalyzer::new();
    analyzer.visit_item(&NodeKind::Function { name: "f".to_string() });
    analyzer.visit_item(&NodeKind::Function { name: "main".to_string() });
    analyzer.visit_item(&NodeKind::Module { name: "main".to_string() });
    analyzer.visit_item(&NodeKind::Other);
    analyzer.visit_item(&NodeKind::Call { callee: Callee::Path { segments: strings(&["g"]) } });
    assert_eq!(analyzer.declared_items(), &strings(&["fn f", "mod main"]));
    assert!(analyzer.used_items().is_empty());

    let qualified = Callee::Path { segments: strings(&["a", "g"]) };
    analyzer.visit_expr(&NodeKind::Call { callee: qualified });
    analyzer.visit_expr(&NodeKind::PathRef { segments: strings(&["h"]) });
    analyzer.visit_expr(&NodeKind::Function { name: "k".to_string() });
    assert_eq!(analyzer.used_items(), &strings(&["fn g"]));
    assert_eq!(analyzer.declared_items(), &strings(&["fn f", "mod main"]));

    analyzer.visit_use_tree(&use_path(&["std", "collections"], use_name("HashSet")));
    analyzer.visit_use_tree(&UseTree::Glob);
    assert_eq!(analyzer.used_dependencies(), &strings(&["std"]));

    analyzer.visit_node(&function("outer", vec![call(&["f"], vec![]), import(use_name("dep"))]));
    analyzer.visit_forest(&vec![module("m", vec![]), function("n", vec![])]);
    assert_eq!(
        analyzer.declared_items(),
        &strings(&["fn f", "fn n", "fn outer", "mod m", "mod main"])
    );
    assert_eq!(analyzer.used_items(), &strings(&["fn f", "fn g"]));
    assert_eq!(analyzer.used_dependencies(), &strings(&["dep", "std"]));
}

#[test]
fn reconcile_is_a_function_of_the_four_sets() {
    let set = |items: &[&str]| {
        let mut s = StringSet::new();
        for item in items {
            s.insert(item.to_string());
        }
        s
    };
    let report = reconcile(
        &set(&["mod b", "fn b", "fn a", "mod a", "struct s", "fn", "fn "]),
        &set(&["fn a", "mod b", "fn zzz"]),
        &set(&["y", "x", "z"]),
        &set(&["z", "w"]),
    );
    assert_eq!(report.unused_dependencies, strings(&["x", "y"]));
    assert_eq!(report.unused_functions, strings(&["fn ", "fn b"]));
    assert_eq!(report.unused_modules, strings(&["mod a"]));
}

#[test]
fn keys_are_made_of_kind_and_name() {
    assert_eq!(ENTRY_POINT, "main");
    assert_eq!(FUNCTION_PREFIX, "fn ");
    assert_eq!(MODULE_PREFIX, "mod ");
    assert_eq!(function_key_of("helper"), "fn helper");
    assert_eq!(function_key_of(""), "fn ");
    assert_eq!(module_key_of("util"), "mod util");
    assert_eq!(module_key_of("r#type"), "mod r#type");
}
